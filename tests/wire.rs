use moq_publisher::atom::{parse_atom_header, AtomBody, AtomError, Prft, PrftError, MOOF};
use moq_publisher::message::{Extensions, Object};
use moq_publisher::varint::{BoundsExceeded, VarInt};

fn round_trip(x: u64) {
    let v = VarInt::try_from_u64(x).unwrap();
    let mut bytes = v.encode();
    bytes.push(0xff);
    let (back, n) = VarInt::decode(&bytes).unwrap();
    assert_eq!(back.into_inner(), x);
    assert_eq!(n, bytes.len() - 1);
}

#[test]
fn varint_round_trips() {
    for x in [0u64, 63, 64, 16383, 16384, (1 << 30) - 1, 1 << 30, (1 << 62) - 1] {
        round_trip(x);
    }
}

#[test]
fn varint_widths() {
    assert_eq!(VarInt::from_u32(63).encode(), vec![0x3f]);
    assert_eq!(VarInt::from_u32(64).encode(), vec![0x40, 0x40]);
    assert_eq!(VarInt::from_u32(16384).encode(), vec![0x80, 0x00, 0x40, 0x00]);
    let top = VarInt::try_from_u64((1 << 62) - 1).unwrap();
    assert_eq!(top.encode(), vec![0xff; 8]);
}

#[test]
fn varint_out_of_bounds() {
    assert_eq!(VarInt::try_from_u64(1 << 62), Err(BoundsExceeded));
    assert_eq!(VarInt::try_from_u64(u64::MAX), Err(BoundsExceeded));
}

#[test]
fn varint_decode_short_input() {
    assert!(VarInt::decode(&[]).is_none());
    assert!(VarInt::decode(&[0x80, 0x00, 0x40]).is_none());
    let (v, n) = VarInt::decode(&[0x40, 0x25]).unwrap();
    assert_eq!((v.into_inner(), n), (37, 2));
}

fn header(size: u32, kind: &[u8; 4]) -> Vec<u8> {
    let mut v = size.to_be_bytes().to_vec();
    v.extend_from_slice(kind);
    v
}

#[test]
fn atom_size_zero_runs_to_end() {
    let h = parse_atom_header(&header(0, b"mdat")).unwrap();
    assert_eq!(h.body, AtomBody::ToEnd);
    assert_eq!(h.header_len, 8);
}

#[test]
fn atom_size_one_uses_extended_size() {
    let mut b = header(1, b"moof");
    assert_eq!(parse_atom_header(&b), Err(AtomError::Incomplete));
    b.extend_from_slice(&40u64.to_be_bytes());
    let h = parse_atom_header(&b).unwrap();
    assert_eq!(h.kind, MOOF);
    assert_eq!(h.header_len, 16);
    assert_eq!(h.body, AtomBody::Length(24));
}

#[test]
fn atom_extended_size_boundaries() {
    let mut b = header(1, b"moof");
    b.extend_from_slice(&16u64.to_be_bytes());
    assert_eq!(parse_atom_header(&b).unwrap().body, AtomBody::Length(0));
    let mut b = header(1, b"moof");
    b.extend_from_slice(&15u64.to_be_bytes());
    assert_eq!(parse_atom_header(&b), Err(AtomError::ImpossibleExtendedSize(15)));
}

#[test]
fn atom_sizes_two_to_seven_are_impossible() {
    for size in 2..=7u32 {
        assert_eq!(parse_atom_header(&header(size, b"free")), Err(AtomError::ImpossibleSize(size as u64)));
    }
}

#[test]
fn atom_plain_sizes() {
    assert_eq!(parse_atom_header(&header(8, b"free")).unwrap().body, AtomBody::Length(0));
    assert_eq!(parse_atom_header(&header(15, b"free")).unwrap().body, AtomBody::Length(7));
    assert_eq!(parse_atom_header(&header(16, b"free")).unwrap().body, AtomBody::Length(8));
    assert_eq!(parse_atom_header(&[0, 0, 0]), Err(AtomError::Incomplete));
}

#[test]
fn prft_encode_and_decode() {
    let p = Prft { version: 1, flags: 0, reference_track_id: 2, ntp_timestamp: 0x0102030405060708, media_time: 99 };
    let bytes = p.encode().unwrap();
    assert_eq!(bytes.len(), 32);
    assert_eq!(&bytes[0..8], &[0, 0, 0, 32, b'p', b'r', b'f', b't']);
    assert_eq!(Prft::decode(&bytes), Ok(p));
    let z = Prft::zeroed().encode().unwrap();
    assert_eq!(z.len(), 28);
    assert_eq!(Prft::decode(&z), Ok(Prft::zeroed()));
}

#[test]
fn prft_bad_version() {
    let p = Prft { version: 2, ..Prft::zeroed() };
    assert_eq!(p.encode(), Err(PrftError::InvalidVersion(2)));
    let mut bytes = Prft::zeroed().encode().unwrap();
    bytes[8] = 3;
    assert_eq!(Prft::decode(&bytes), Err(PrftError::InvalidVersion(3)));
    assert_eq!(Prft::decode(&bytes[..20]), Err(PrftError::Truncated));
}

#[test]
fn object_header_encoding() {
    let o = Object {
        track: VarInt::from_u32(7),
        group: VarInt::from_u32(0),
        priority: 1,
        expires: None,
        sequence: VarInt::from_u32(0),
        ntp_timestamp: Some(VarInt::from_u32(100)),
        size: Some(VarInt::from_u32(4096)),
    };
    let all = Extensions { object_timestamp: true, object_size: true };
    assert_eq!(o.encode(&all), vec![7, 0, 1, 0, 0, 0x40, 100, 0x50, 0x00]);
    let none = Extensions { object_timestamp: false, object_size: false };
    assert_eq!(o.encode(&none), vec![7, 0, 1, 0, 0]);
}
