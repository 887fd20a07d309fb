//! Strings character by character: decimal numbers and hex digits, and
//! numbers read from separated lists.
use vstd::prelude::*;

verus! {

/// The digit for `d` (below 16): `0`-`9`, then `a`-`f`.
pub open spec fn hex_digit_lower(d: nat) -> char {
    if d < 10 {
        ((48 + d) as u8) as char
    } else {
        ((87 + d) as u8) as char
    }
}

/// The digit for `d` (below 16): `0`-`9`, then `A`-`F`.
pub open spec fn hex_digit_upper(d: nat) -> char {
    if d < 10 {
        ((48 + d) as u8) as char
    } else {
        ((55 + d) as u8) as char
    }
}

/// A byte as two lower-case hex digits.
pub open spec fn hex2_lower(b: u8) -> Seq<char> {
    seq![hex_digit_lower(b as nat / 16), hex_digit_lower(b as nat % 16)]
}

/// A byte as two upper-case hex digits.
pub open spec fn hex2_upper(b: u8) -> Seq<char> {
    seq![hex_digit_upper(b as nat / 16), hex_digit_upper(b as nat % 16)]
}

/// `n` in decimal, without leading zeros.
pub open spec fn decimal(n: nat) -> Seq<char>
    decreases n,
{
    if n < 10 {
        seq![hex_digit_lower(n)]
    } else {
        decimal(n / 10).push(hex_digit_lower(n % 10))
    }
}

/// A decimal numeral has at least one digit, and more from ten on.
pub proof fn lemma_decimal_len(n: nat)
    ensures
        decimal(n).len() >= 1,
        n >= 10 ==> decimal(n).len() >= 2,
    decreases n,
{
    if n >= 10 {
        lemma_decimal_len(n / 10);
    }
}

proof fn lemma_byte_char_injective(x: u8, y: u8)
    requires
        x as char == y as char,
    ensures
        x == y,
{
    assert((x as char) as u32 == x as u32);
    assert((y as char) as u32 == y as u32);
}

/// Different numbers have different decimal numerals.
pub proof fn lemma_decimal_injective(a: nat, b: nat)
    requires
        decimal(a) == decimal(b),
    ensures
        a == b,
    decreases a,
{
    lemma_decimal_len(a);
    lemma_decimal_len(b);
    if a < 10 || b < 10 {
        assert(a < 10 && b < 10);
        assert(decimal(a)[0] == decimal(b)[0]);
        assert(decimal(a)[0] == hex_digit_lower(a));
        assert(decimal(b)[0] == hex_digit_lower(b));
        lemma_byte_char_injective((48 + a) as u8, (48 + b) as u8);
    } else {
        assert(decimal(a).drop_last() == decimal(b).drop_last());
        assert(decimal(a / 10).push(hex_digit_lower(a % 10)).drop_last() =~= decimal(a / 10));
        assert(decimal(b / 10).push(hex_digit_lower(b % 10)).drop_last() =~= decimal(b / 10));
        lemma_decimal_injective(a / 10, b / 10);
        assert(decimal(a).last() == decimal(b).last());
        assert(decimal(a).last() == hex_digit_lower(a % 10));
        assert(decimal(b).last() == hex_digit_lower(b % 10));
        lemma_byte_char_injective((48 + a % 10) as u8, (48 + b % 10) as u8);
    }
}

/// Relies on `String::push`: appends one character.
#[verifier::external_body]
pub(crate) fn push_char(s: &mut String, c: char)
    ensures
        final(s)@ == old(s)@.push(c),
{
    s.push(c)
}

/// Appends the lower-case hex digit for `d`.
pub(crate) fn push_hex_lower(s: &mut String, d: u8)
    requires
        d < 16,
    ensures
        final(s)@ == old(s)@.push(hex_digit_lower(d as nat)),
{
    if d < 10 {
        push_char(s, (48 + d) as char);
    } else {
        push_char(s, (87 + d) as char);
    }
}

/// Appends `b` as two lower-case hex digits.
pub fn push_hex2_lower(s: &mut String, b: u8)
    ensures
        final(s)@ == old(s)@ + hex2_lower(b),
{
    push_hex_lower(s, b / 16);
    push_hex_lower(s, b % 16);
    proof {
        assert(final(s)@ =~= old(s)@ + hex2_lower(b));
    }
}

/// Appends `n` in decimal.
pub fn push_decimal(s: &mut String, n: u64)
    ensures
        final(s)@ == old(s)@ + decimal(n as nat),
    decreases n,
{
    if n < 10 {
        push_hex_lower(s, n as u8);
        proof {
            assert(final(s)@ =~= old(s)@ + decimal(n as nat));
        }
    } else {
        push_decimal(s, n / 10);
        push_hex_lower(s, (n % 10) as u8);
        proof {
            assert(final(s)@ =~= old(s)@ + decimal(n as nat));
        }
    }
}

/// The index of the first `sep` at or after `i`, or the length.
pub open spec fn sep_at(s: Seq<char>, sep: char, i: int) -> int
    decreases s.len() - i,
{
    if i < 0 || i >= s.len() {
        s.len() as int
    } else if s[i] == sep {
        i
    } else {
        sep_at(s, sep, i + 1)
    }
}

/// Field `k` of the `sep`-separated list that starts at index `i` of `s`.
pub open spec fn field_from(s: Seq<char>, sep: char, i: int, k: nat) -> Option<Seq<char>>
    decreases k,
{
    let e = sep_at(s, sep, i);
    if k == 0 {
        Some(s.subrange(i, e))
    } else if e >= s.len() {
        None
    } else {
        field_from(s, sep, e + 1, (k - 1) as nat)
    }
}

pub open spec fn is_digit(c: char) -> bool {
    '0' <= c && c <= '9'
}

/// The number that the decimal digits `d` spell.
pub open spec fn digits_value(d: Seq<char>) -> nat
    decreases d.len(),
{
    if d.len() == 0 {
        0
    } else {
        digits_value(d.drop_last()) * 10 + ((d.last() as int) - 48) as nat
    }
}

/// Decimal digits whose value fits in 32 bits.
pub open spec fn spec_parse_digits(e: Seq<char>) -> Option<u32> {
    if e.len() > 0 && (forall|i: int| 0 <= i < e.len() ==> is_digit(#[trigger] e[i])) && digits_value(e)
        <= u32::MAX {
        Some(digits_value(e) as u32)
    } else {
        None
    }
}

/// Decimal digits, optionally after a `+`, whose value fits in 32 bits.
pub open spec fn spec_parse_u32(d: Seq<char>) -> Option<u32> {
    if d.len() > 0 && d[0] == '+' {
        spec_parse_digits(d.drop_first())
    } else {
        spec_parse_digits(d)
    }
}

/// Parses the characters `start..end` of `s` as an unsigned 32-bit decimal.
pub fn parse_u32_range(s: &str, start: usize, end: usize) -> (r: Option<u32>)
    requires
        start <= end <= s@.len(),
    ensures
        r == spec_parse_u32(s@.subrange(start as int, end as int)),
{
    let ghost d = s@.subrange(start as int, end as int);
    proof {
        assert(d.len() > 0 ==> d[0] == s@[start as int]);
    }
    let mut first = start;
    if first < end && s.get_char(first) == '+' {
        first = first + 1;
    }
    let ghost e = s@.subrange(first as int, end as int);
    proof {
        if d.len() > 0 && d[0] == '+' {
            assert(e =~= d.drop_first());
        } else {
            assert(e =~= d);
        }
    }
    if first == end {
        return None;
    }
    let mut acc: u64 = 0;
    let mut over = false;
    let mut i = first;
    while i < end
        invariant
            first <= i <= end <= s@.len(),
            e == s@.subrange(first as int, end as int),
            d == s@.subrange(start as int, end as int),
            d.len() > 0 && d[0] == '+' ==> e == d.drop_first(),
            !(d.len() > 0 && d[0] == '+') ==> e == d,
            forall|j: int| first <= j < i ==> is_digit(#[trigger] s@[j]),
            !over ==> acc as nat == digits_value(s@.subrange(first as int, i as int)) && acc <= u32::MAX,
            over ==> digits_value(s@.subrange(first as int, i as int)) > u32::MAX,
        decreases end - i,
    {
        let c = s.get_char(i);
        if !('0' <= c && c <= '9') {
            proof {
                assert(e[i - first] == c);
                assert(!is_digit(e[i - first]));

            }
            return None;
        }
        proof {
            assert(s@.subrange(first as int, i + 1).drop_last() =~= s@.subrange(first as int, i as int));
        }
        if !over {
            acc = acc * 10 + (c as u64 - 48);
            if acc > u32::MAX as u64 {
                over = true;
            }
        }
        i = i + 1;
    }
    proof {
        assert(e =~= s@.subrange(first as int, i as int));
        assert forall|j: int| 0 <= j < e.len() implies is_digit(#[trigger] e[j]) by {
            assert(e[j] == s@[first + j]);
        }
    }
    if over {
        None
    } else {
        Some(acc as u32)
    }
}

/// Field `k` of the `sep`-separated list `s`, parsed as a number; `None` if the
/// list has fewer fields.
pub fn number_field(s: &str, sep: char, k: usize) -> (r: Option<Option<u32>>)
    ensures
        match field_from(s@, sep, 0, k as nat) {
            None => r is None,
            Some(f) => r == Some(spec_parse_u32(f)),
        },
{
    let n = s.unicode_len();
    let mut i: usize = 0;
    let mut j: usize = 0;
    loop
        invariant
            n == s@.len(),
            i <= n,
            j <= k,
            field_from(s@, sep, 0, k as nat) == field_from(s@, sep, i as int, (k - j) as nat),
        decreases k - j,
    {
        let mut e = i;
        while e < n && s.get_char(e) != sep
            invariant
                i <= e <= n,
                n == s@.len(),
                sep_at(s@, sep, i as int) == sep_at(s@, sep, e as int),
            decreases n - e,
        {
            e = e + 1;
        }
        if j == k {
            return Some(parse_u32_range(s, i, e));
        }
        if e >= n {
            return None;
        }
        i = e + 1;
        j = j + 1;
    }
}

} // verus!
