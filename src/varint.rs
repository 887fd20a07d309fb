//! QUIC-style variable-length integers: values below 2^62, written big-endian
//! in 1, 2, 4 or 8 bytes, with the top two bits of the first byte giving the width.
use vstd::arithmetic::div_mod::{lemma_div_denominator, lemma_mod_breakdown};
use vstd::prelude::*;

verus! {

/// The largest value a `VarInt` can hold: 2^62 - 1.
pub const MAX_VALUE: u64 = 4611686018427387903;

/// 256 to the power `n`.
pub open spec fn pow256(n: nat) -> nat
    decreases n,
{
    if n == 0 {
        1
    } else {
        256 * pow256((n - 1) as nat)
    }
}

/// The `n` low-order bytes of `v`, most significant first.
pub open spec fn be_bytes(v: nat, n: nat) -> Seq<u8>
    decreases n,
{
    if n == 0 {
        seq![]
    } else {
        be_bytes(v / 256, (n - 1) as nat).push((v % 256) as u8)
    }
}

/// The number that the bytes `s` spell out, most significant first.
pub open spec fn be_value(s: Seq<u8>) -> nat
    decreases s.len(),
{
    if s.len() == 0 {
        0
    } else {
        be_value(s.drop_last()) * 256 + s.last() as nat
    }
}

/// How many bytes the encoding of `x` takes.
pub open spec fn width_of(x: nat) -> nat {
    if x < 64 {
        1
    } else if x < 16384 {
        2
    } else if x < 1073741824 {
        4
    } else {
        8
    }
}

/// The width that the two-bit tag `t` selects.
pub open spec fn width_of_tag(t: nat) -> nat {
    if t == 0 {
        1
    } else if t == 1 {
        2
    } else if t == 2 {
        4
    } else {
        8
    }
}

/// The two-bit tag of a width.
pub open spec fn tag_of_width(w: nat) -> nat {
    if w == 1 {
        0
    } else if w == 2 {
        1
    } else if w == 4 {
        2
    } else {
        3
    }
}

/// The place value of the tag inside a `w`-byte encoding: 2^(8w-2).
pub open spec fn tag_unit(w: nat) -> nat {
    64 * pow256((w - 1) as nat)
}

/// The bytes that encode `x`.
pub open spec fn spec_encode(x: nat) -> Seq<u8> {
    let w = width_of(x);
    be_bytes(x + tag_of_width(w) * tag_unit(w), w)
}

/// Decoding a prefix of `s`: the value and the number of bytes it took,
/// or `None` when `s` is shorter than the width its first byte announces.
pub open spec fn spec_decode(s: Seq<u8>) -> Option<(nat, nat)> {
    if s.len() == 0 {
        None
    } else {
        let w = width_of_tag(s[0] as nat / 64);
        if s.len() < w {
            None
        } else {
            Some((be_value(s.take(w as int)) % tag_unit(w), w))
        }
    }
}

/// A value was at least 2^62 where a `VarInt` was needed.
#[derive(Clone, Copy, Debug, PartialEq, Eq, Structural)]
pub struct BoundsExceeded;

/// An integer in [0, 2^62).
#[derive(Clone, Copy, Debug, PartialEq, Eq, Hash, Structural)]
pub struct VarInt {
    value: u64,
}

impl View for VarInt {
    type V = nat;

    closed spec fn view(&self) -> nat {
        self.value as nat
    }
}

impl VarInt {
    #[verifier::type_invariant]
    spec fn inv(self) -> bool {
        self.value <= MAX_VALUE
    }

    pub fn zero() -> (r: VarInt)
        ensures
            r@ == 0,
    {
        VarInt { value: 0 }
    }

    pub fn from_u32(x: u32) -> (r: VarInt)
        ensures
            r@ == x as nat,
    {
        VarInt { value: x as u64 }
    }

    pub fn try_from_u64(x: u64) -> (r: Result<VarInt, BoundsExceeded>)
        ensures
            x <= MAX_VALUE <==> r is Ok,
            r is Ok ==> r->Ok_0@ == x as nat,
    {
        if x <= MAX_VALUE {
            Ok(VarInt { value: x })
        } else {
            Err(BoundsExceeded)
        }
    }

    pub fn into_inner(self) -> (r: u64)
        ensures
            r as nat == self@,
            r <= MAX_VALUE,
    {
        proof {
            use_type_invariant(self);
        }
        self.value
    }

    /// The bytes that encode this value.
    pub fn encode(&self) -> (r: Vec<u8>)
        ensures
            r@ == spec_encode(self@),
    {
        proof {
            use_type_invariant(self);
        }
        let x = self.value;
        let mut out: Vec<u8> = Vec::new();
        if x < 64 {
            push_be(&mut out, x, 1);
        } else if x < 16384 {
            push_be(&mut out, x + 16384, 2);
        } else if x < 1073741824 {
            push_be(&mut out, x + 2147483648, 4);
        } else {
            push_be(&mut out, x + 13835058055282163712, 8);
        }
        proof {
            reveal_with_fuel(pow256, 8);
            assert(out@ =~= spec_encode(self@));
        }
        out
    }

    /// Reads a value from the start of `buf`: the value and the number of bytes
    /// it took, or `None` when `buf` ends before the value does.
    pub fn decode(buf: &[u8]) -> (r: Option<(VarInt, usize)>)
        ensures
            match spec_decode(buf@) {
                None => r is None,
                Some((v, n)) => r is Some && r->Some_0.0@ == v && r->Some_0.1 as nat == n,
            },
    {
        if buf.len() == 0 {
            return None;
        }
        let tag = buf[0] / 64;
        let w: usize = if tag == 0 {
            1
        } else if tag == 1 {
            2
        } else if tag == 2 {
            4
        } else {
            8
        };
        if buf.len() < w {
            return None;
        }
        let mut acc: u64 = 0;
        let mut i: usize = 0;
        while i < w
            invariant
                0 <= i <= w <= 8,
                w <= buf@.len(),
                acc as nat == be_value(buf@.take(i as int)),
                (acc as nat) < pow256(i as nat),
            decreases w - i,
        {
            proof {
                assert(buf@.take(i + 1).drop_last() =~= buf@.take(i as int));
                lemma_pow256_le(i as nat + 1, 8);
                reveal_with_fuel(pow256, 9);
            }
            acc = acc * 256 + buf[i] as u64;
            i += 1;
        }
        let unit: u64 = if w == 1 {
            64
        } else if w == 2 {
            16384
        } else if w == 4 {
            1073741824
        } else {
            4611686018427387904
        };
        proof {
            reveal_with_fuel(pow256, 8);
            assert(unit as nat == tag_unit(w as nat));
        }
        Some((VarInt { value: acc % unit }, w))
    }
}

pub(crate) fn push_be(out: &mut Vec<u8>, v: u64, n: usize)
    ensures
        final(out)@ == old(out)@ + be_bytes(v as nat, n as nat),
    decreases n,
{
    if n > 0 {
        push_be(out, v / 256, n - 1);
        out.push((v % 256) as u8);
        proof {
            let b = be_bytes((v / 256) as nat, (n - 1) as nat);
            assert(be_bytes(v as nat, n as nat) == b.push((v % 256) as u8));
            assert(final(out)@ =~= old(out)@ + be_bytes(v as nat, n as nat));
        }
    } else {
        proof {
            assert(final(out)@ =~= old(out)@ + be_bytes(v as nat, n as nat));
        }
    }
}

pub proof fn lemma_pow256_le(a: nat, b: nat)
    requires
        a <= b,
    ensures
        pow256(a) <= pow256(b),
        pow256(a) > 0,
    decreases b,
{
    if a < b {
        lemma_pow256_le(a, (b - 1) as nat);
    } else if a > 0 {
        lemma_pow256_le((a - 1) as nat, (a - 1) as nat);
    }
}

pub proof fn lemma_be_bytes_len(v: nat, n: nat)
    ensures
        be_bytes(v, n).len() == n,
    decreases n,
{
    if n > 0 {
        lemma_be_bytes_len(v / 256, (n - 1) as nat);
    }
}

pub proof fn lemma_be_value_bytes(v: nat, n: nat)
    ensures
        be_value(be_bytes(v, n)) == v % pow256(n),
    decreases n,
{
    if n == 0 {
    } else {
        let b = be_bytes(v / 256, (n - 1) as nat);
        lemma_be_value_bytes(v / 256, (n - 1) as nat);
        assert(be_bytes(v, n).drop_last() =~= b);
        lemma_pow256_le((n - 1) as nat, (n - 1) as nat);
        lemma_mod_breakdown(v as int, 256, pow256((n - 1) as nat) as int);
    }
}

proof fn lemma_be_bytes_first(v: nat, n: nat)
    requires
        n >= 1,
    ensures
        be_bytes(v, n)[0] == ((v / pow256((n - 1) as nat)) % 256) as u8,
    decreases n,
{
    lemma_be_bytes_len(v, n);
    if n == 1 {
        assert(be_bytes(v / 256, 0) =~= seq![]);
        assert(pow256(0) == 1);
        assert(v / 1 == v);
    } else {
        let b = be_bytes(v / 256, (n - 1) as nat);
        lemma_be_bytes_len(v / 256, (n - 1) as nat);
        lemma_be_bytes_first(v / 256, (n - 1) as nat);
        lemma_pow256_le((n - 2) as nat, (n - 2) as nat);
        lemma_div_denominator(v as int, 256, pow256((n - 2) as nat) as int);
        assert(pow256((n - 1) as nat) == 256 * pow256((n - 2) as nat));
        assert(be_bytes(v, n)[0] == b[0]);
    }
}

/// Decoding the encoding of any `VarInt`, followed by any bytes, gives back the
/// value and the width of its encoding.
pub proof fn lemma_decode_encode(x: nat, rest: Seq<u8>)
    requires
        x <= MAX_VALUE,
    ensures
        spec_decode(spec_encode(x) + rest) == Some((x, spec_encode(x).len())),
        spec_encode(x).len() == width_of(x),
{
    let w = width_of(x);
    let t = x + tag_of_width(w) * tag_unit(w);
    let p = pow256((w - 1) as nat);
    let s = spec_encode(x) + rest;
    reveal_with_fuel(pow256, 9);
    lemma_be_bytes_len(t, w);
    lemma_be_bytes_first(t, w);
    lemma_be_value_bytes(t, w);
    assert(x < 64 * p);
    assert(t / p == x / p + 64 * tag_of_width(w)) by (nonlinear_arith)
        requires
            t == x + tag_of_width(w) * (64 * p),
            p > 0,
    {
        assert(t == (x / p + 64 * tag_of_width(w)) * p + x % p);
    }
    assert(x / p < 64) by (nonlinear_arith)
        requires
            x < 64 * p,
            p > 0,
    {
    }
    assert(s[0] as nat / 64 == tag_of_width(w));
    assert(s.take(w as int) =~= spec_encode(x));
    assert(pow256(w) == 256 * p);
    assert(t < pow256(w)) by (nonlinear_arith)
        requires
            t == x + tag_of_width(w) * (64 * p),
            x < 64 * p,
            tag_of_width(w) <= 3,
            pow256(w) == 256 * p,
    {
    }
    assert(t % pow256(w) == t) by (nonlinear_arith)
        requires
            t < pow256(w),
    {
    }
    assert(t % tag_unit(w) == x) by (nonlinear_arith)
        requires
            t == x + tag_of_width(w) * tag_unit(w),
            x < tag_unit(w),
    {
    }
}

} // verus!
