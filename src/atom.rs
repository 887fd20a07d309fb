//! MP4 atoms (boxes) at the byte level: the length-prefixed header that frames
//! every atom, and the producer reference time (`prft`) box.
use crate::varint::{
    be_bytes, be_value, lemma_be_bytes_len, lemma_be_value_bytes, lemma_pow256_le, pow256, push_be,
};
use vstd::arithmetic::div_mod::lemma_small_mod;
use vstd::prelude::*;

verus! {

/// The four-character code of `ftyp`.
pub const FTYP: u32 = 0x66747970;

/// The four-character code of `moov`.
pub const MOOV: u32 = 0x6d6f6f76;

/// The four-character code of `moof`.
pub const MOOF: u32 = 0x6d6f6f66;

/// The four-character code of `mdat`.
pub const MDAT: u32 = 0x6d646174;

/// The four-character code of `prft`.
pub const PRFT: u32 = 0x70726674;

/// How much of an atom follows its header.
#[derive(Clone, Copy, Debug, PartialEq, Eq, Structural)]
pub enum AtomBody {
    /// Everything up to the end of the stream.
    ToEnd,
    /// This many bytes.
    Length(u64),
}

/// The header of an atom.
#[derive(Clone, Copy, Debug, PartialEq, Eq, Structural)]
pub struct AtomHeader {
    /// The four-character code, big-endian.
    pub kind: u32,
    /// The length of the header itself: 8, or 16 with an extended size.
    pub header_len: usize,
    pub body: AtomBody,
}

/// Why an atom header could not be read.
#[derive(Clone, Copy, Debug, PartialEq, Eq, Structural)]
pub enum AtomError {
    /// More bytes are needed: 8, or 16 when the size field is 1.
    Incomplete,
    /// A 32-bit size from 2 to 7, shorter than the header.
    ImpossibleSize(u64),
    /// A 64-bit size below 16, shorter than the header.
    ImpossibleExtendedSize(u64),
}

/// What the header at the start of `s` says.
pub open spec fn spec_atom_header(s: Seq<u8>) -> Result<AtomHeader, AtomError> {
    if s.len() < 8 {
        Err(AtomError::Incomplete)
    } else {
        let size = be_value(s.subrange(0, 4));
        let kind = be_value(s.subrange(4, 8)) as u32;
        if size == 0 {
            Ok(AtomHeader { kind, header_len: 8, body: AtomBody::ToEnd })
        } else if size == 1 {
            if s.len() < 16 {
                Err(AtomError::Incomplete)
            } else {
                let large = be_value(s.subrange(8, 16));
                if large < 16 {
                    Err(AtomError::ImpossibleExtendedSize(large as u64))
                } else {
                    Ok(
                        AtomHeader {
                            kind,
                            header_len: 16,
                            body: AtomBody::Length((large - 16) as u64),
                        },
                    )
                }
            }
        } else if size < 8 {
            Err(AtomError::ImpossibleSize(size as u64))
        } else {
            Ok(AtomHeader { kind, header_len: 8, body: AtomBody::Length((size - 8) as u64) })
        }
    }
}

/// The big-endian number in `buf[off..off + n]`.
pub fn read_be(buf: &[u8], off: usize, n: usize) -> (r: u64)
    requires
        off + n <= buf@.len(),
        n <= 8,
    ensures
        r as nat == be_value(buf@.subrange(off as int, off + n)),
        (r as nat) < pow256(n as nat),
{
    let mut acc: u64 = 0;
    let mut i: usize = 0;
    while i < n
        invariant
            0 <= i <= n <= 8,
            off + n <= buf.len(),
            acc as nat == be_value(buf@.subrange(off as int, off + i)),
            (acc as nat) < pow256(i as nat),
        decreases n - i,
    {
        proof {
            assert(buf@.subrange(off as int, off + i + 1).drop_last() =~= buf@.subrange(
                off as int,
                off + i,
            ));
            lemma_pow256_le(i as nat + 1, 8);
            reveal_with_fuel(pow256, 9);
        }
        acc = acc * 256 + buf[off + i] as u64;
        i += 1;
    }
    acc
}

/// Reads the header at the start of `buf`.
pub fn parse_atom_header(buf: &[u8]) -> (r: Result<AtomHeader, AtomError>)
    ensures
        r == spec_atom_header(buf@),
{
    if buf.len() < 8 {
        return Err(AtomError::Incomplete);
    }
    let size = read_be(buf, 0, 4);
    let kind = read_be(buf, 4, 4);
    proof {
        reveal_with_fuel(pow256, 5);
    }
    if size == 0 {
        Ok(AtomHeader { kind: kind as u32, header_len: 8, body: AtomBody::ToEnd })
    } else if size == 1 {
        if buf.len() < 16 {
            return Err(AtomError::Incomplete);
        }
        let large = read_be(buf, 8, 8);
        if large < 16 {
            Err(AtomError::ImpossibleExtendedSize(large))
        } else {
            Ok(AtomHeader { kind: kind as u32, header_len: 16, body: AtomBody::Length(large - 16) })
        }
    } else if size < 8 {
        Err(AtomError::ImpossibleSize(size))
    } else {
        Ok(AtomHeader { kind: kind as u32, header_len: 8, body: AtomBody::Length(size - 8) })
    }
}

/// The four-character code of a whole atom, or `None` if it is shorter than a header.
pub fn atom_kind(atom: &[u8]) -> (r: Option<u32>)
    ensures
        atom@.len() < 8 <==> r is None,
        r is Some ==> r->Some_0 as nat == be_value(atom@.subrange(4, 8)),
{
    if atom.len() < 8 {
        None
    } else {
        proof {
            reveal_with_fuel(pow256, 5);
        }
        Some(read_be(atom, 4, 4) as u32)
    }
}

/// A producer reference time box: which wall-clock time a media time stands for.
#[derive(Clone, Copy, Debug, PartialEq, Eq, Structural)]
pub struct Prft {
    pub version: u8,
    /// Only the low 24 bits are written.
    pub flags: u32,
    pub reference_track_id: u32,
    pub ntp_timestamp: u64,
    /// Written in 64 bits in version 1, in its low 32 bits in version 0.
    pub media_time: u64,
}

/// Why a `prft` box could not be read or written.
#[derive(Clone, Copy, Debug, PartialEq, Eq, Structural)]
pub enum PrftError {
    /// Only versions 0 and 1 exist.
    InvalidVersion(u8),
    /// The atom ends before the box does.
    Truncated,
    /// The atom header is malformed.
    BadHeader(AtomError),
}

/// The length in bytes of a `prft` box of a given version.
pub open spec fn spec_prft_len(version: u8) -> nat {
    if version == 1 {
        32
    } else {
        28
    }
}

/// The bytes of a `prft` box of version 0 or 1.
pub open spec fn spec_prft_bytes(p: Prft) -> Seq<u8> {
    be_bytes(spec_prft_len(p.version), 4) + be_bytes(PRFT as nat, 4) + seq![p.version] + be_bytes(
        p.flags as nat,
        3,
    ) + be_bytes(p.reference_track_id as nat, 4) + be_bytes(p.ntp_timestamp as nat, 8) + if p.version
        == 1 {
        be_bytes(p.media_time as nat, 8)
    } else {
        be_bytes(p.media_time as nat, 4)
    }
}

/// The `prft` box that `atom` holds, read at the offsets of its fields.
pub open spec fn spec_prft_of(atom: Seq<u8>) -> Prft {
    let off = spec_atom_header(atom)->Ok_0.header_len as int;
    let version = atom[off];
    Prft {
        version,
        flags: be_value(atom.subrange(off + 1, off + 4)) as u32,
        reference_track_id: be_value(atom.subrange(off + 4, off + 8)) as u32,
        ntp_timestamp: be_value(atom.subrange(off + 8, off + 16)) as u64,
        media_time: if version == 1 {
            be_value(atom.subrange(off + 16, off + 24)) as u64
        } else {
            be_value(atom.subrange(off + 16, off + 20)) as u64
        },
    }
}

/// Whether `atom` holds a whole `prft` box of version 0 or 1.
pub open spec fn prft_decodes(atom: Seq<u8>) -> bool {
    spec_atom_header(atom) is Ok && {
        let off = spec_atom_header(atom)->Ok_0.header_len as int;
        atom.len() >= off + 20 && (atom[off] == 0 || (atom[off] == 1 && atom.len() >= off + 24))
    }
}

impl Prft {
    pub open spec fn spec_zeroed() -> Prft {
        Prft { version: 0, flags: 0, reference_track_id: 0, ntp_timestamp: 0, media_time: 0 }
    }

    /// A box of version 0 with every field zero.
    pub fn zeroed() -> (r: Prft)
        ensures
            r == Prft::spec_zeroed(),
    {
        Prft { version: 0, flags: 0, reference_track_id: 0, ntp_timestamp: 0, media_time: 0 }
    }

    /// The bytes of this box, or an error for a version other than 0 and 1.
    pub fn encode(&self) -> (r: Result<Vec<u8>, PrftError>)
        ensures
            self.version <= 1 <==> r is Ok,
            r is Err ==> r == Err::<Vec<u8>, PrftError>(PrftError::InvalidVersion(self.version)),
            r is Ok ==> r->Ok_0@ == spec_prft_bytes(*self),
    {
        if self.version > 1 {
            return Err(PrftError::InvalidVersion(self.version));
        }
        let mut out: Vec<u8> = Vec::new();
        let size: u64 = if self.version == 1 {
            32
        } else {
            28
        };
        push_be(&mut out, size, 4);
        push_be(&mut out, PRFT as u64, 4);
        out.push(self.version);
        push_be(&mut out, self.flags as u64, 3);
        push_be(&mut out, self.reference_track_id as u64, 4);
        push_be(&mut out, self.ntp_timestamp, 8);
        if self.version == 1 {
            push_be(&mut out, self.media_time, 8);
        } else {
            push_be(&mut out, self.media_time, 4);
        }
        proof {
            assert(out@ =~= spec_prft_bytes(*self));
        }
        Ok(out)
    }

    /// Reads a whole `prft` atom.
    pub fn decode(atom: &[u8]) -> (r: Result<Prft, PrftError>)
        ensures
            r is Ok <==> prft_decodes(atom@),
            r is Ok ==> r->Ok_0 == spec_prft_of(atom@),
            spec_atom_header(atom@) is Err ==> r == Err::<Prft, PrftError>(
                PrftError::BadHeader(spec_atom_header(atom@)->Err_0),
            ),
            r is Ok ==> ({
                let off = spec_atom_header(atom@)->Ok_0.header_len as int;
                let p = r->Ok_0;
                &&& spec_atom_header(atom@) is Ok
                &&& p.version == atom@[off]
                &&& p.version <= 1
                &&& p.flags as nat == be_value(atom@.subrange(off + 1, off + 4))
                &&& p.reference_track_id as nat == be_value(atom@.subrange(off + 4, off + 8))
                &&& p.ntp_timestamp as nat == be_value(atom@.subrange(off + 8, off + 16))
                &&& p.media_time as nat == if p.version == 1 {
                    be_value(atom@.subrange(off + 16, off + 24))
                } else {
                    be_value(atom@.subrange(off + 16, off + 20))
                }
            }),
            spec_atom_header(atom@) is Ok ==> ({
                let off = spec_atom_header(atom@)->Ok_0.header_len as int;
                &&& (atom@.len() < off + 20 ==> r == Err::<Prft, PrftError>(PrftError::Truncated))
                &&& (atom@.len() >= off + 20 && atom@[off] > 1 ==> r == Err::<Prft, PrftError>(
                    PrftError::InvalidVersion(atom@[off]),
                ))
                &&& (atom@.len() >= off + 20 && atom@[off] == 1 && atom@.len() < off + 24 ==> r
                    == Err::<Prft, PrftError>(PrftError::Truncated))
                &&& (atom@.len() >= off + 20 && (atom@[off] == 0 || (atom@[off] == 1
                    && atom@.len() >= off + 24)) ==> r is Ok)
            }),
    {
        let header = match parse_atom_header(atom) {
            Ok(h) => h,
            Err(e) => return Err(PrftError::BadHeader(e)),
        };
        let off = header.header_len;
        if atom.len() < off + 20 {
            return Err(PrftError::Truncated);
        }
        let version = atom[off];
        if version > 1 {
            return Err(PrftError::InvalidVersion(version));
        }
        if version == 1 && atom.len() < off + 24 {
            return Err(PrftError::Truncated);
        }
        proof {
            reveal_with_fuel(pow256, 9);
        }
        let flags = read_be(atom, off + 1, 3) as u32;
        let reference_track_id = read_be(atom, off + 4, 4) as u32;
        let ntp_timestamp = read_be(atom, off + 8, 8);
        let media_time = if version == 1 {
            read_be(atom, off + 16, 8)
        } else {
            read_be(atom, off + 16, 4)
        };
        Ok(Prft { version, flags, reference_track_id, ntp_timestamp, media_time })
    }
}

/// The bytes of a `prft` box whose fields fit their widths read back as that box:
/// a valid header, and each field where `Prft::decode` reads it.
pub proof fn lemma_prft_round_trip(p: Prft)
    requires
        p.version <= 1,
        p.flags < 0x1000000,
        p.version == 0 ==> p.media_time < 0x100000000,
    ensures
        prft_decodes(spec_prft_bytes(p)),
        spec_atom_header(spec_prft_bytes(p))->Ok_0.header_len == 8,
        spec_prft_bytes(p)[8] == p.version,
        be_value(spec_prft_bytes(p).subrange(9, 12)) == p.flags,
        be_value(spec_prft_bytes(p).subrange(12, 16)) == p.reference_track_id,
        be_value(spec_prft_bytes(p).subrange(16, 24)) == p.ntp_timestamp,
        p.version == 1 ==> be_value(spec_prft_bytes(p).subrange(24, 32)) == p.media_time,
        p.version == 0 ==> be_value(spec_prft_bytes(p).subrange(24, 28)) == p.media_time,
{
    let s = spec_prft_bytes(p);
    let size = spec_prft_len(p.version);
    reveal_with_fuel(pow256, 9);
    lemma_be_bytes_len(size, 4);
    lemma_be_bytes_len(PRFT as nat, 4);
    lemma_be_bytes_len(p.flags as nat, 3);
    lemma_be_bytes_len(p.reference_track_id as nat, 4);
    lemma_be_bytes_len(p.ntp_timestamp as nat, 8);
    lemma_be_bytes_len(p.media_time as nat, 8);
    lemma_be_bytes_len(p.media_time as nat, 4);
    lemma_be_value_bytes(size, 4);
    lemma_be_value_bytes(PRFT as nat, 4);
    lemma_be_value_bytes(p.flags as nat, 3);
    lemma_be_value_bytes(p.reference_track_id as nat, 4);
    lemma_be_value_bytes(p.ntp_timestamp as nat, 8);
    lemma_be_value_bytes(p.media_time as nat, 8);
    lemma_be_value_bytes(p.media_time as nat, 4);
    assert(pow256(3) == 16777216);
    assert(pow256(4) == 4294967296);
    assert(pow256(8) == 18446744073709551616);
    lemma_small_mod(p.flags as nat, pow256(3));
    lemma_small_mod(p.reference_track_id as nat, pow256(4));
    lemma_small_mod(p.ntp_timestamp as nat, pow256(8));
    lemma_small_mod(p.media_time as nat, pow256(8));
    if p.version == 0 {
        lemma_small_mod(p.media_time as nat, pow256(4));
    }
    assert(s.subrange(0, 4) =~= be_bytes(size, 4));
    assert(s.subrange(4, 8) =~= be_bytes(PRFT as nat, 4));
    assert(s.subrange(9, 12) =~= be_bytes(p.flags as nat, 3));
    assert(s.subrange(12, 16) =~= be_bytes(p.reference_track_id as nat, 4));
    assert(s.subrange(16, 24) =~= be_bytes(p.ntp_timestamp as nat, 8));
    if p.version == 1 {
        assert(s.subrange(24, 32) =~= be_bytes(p.media_time as nat, 8));
    } else {
        assert(s.subrange(24, 28) =~= be_bytes(p.media_time as nat, 4));
    }
}

} // verus!
