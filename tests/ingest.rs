use moq_publisher::atom::{Prft, PrftError};
use moq_publisher::catalog::{catalog_tracks, CatalogError, CatalogMedia, CatalogTrak, Esds, SampleEntry};
use moq_publisher::fragment::{sample_keyframe, Fragment, Moof, MoofError, Traf, Trun};
use moq_publisher::media::{Expect, IngestError, Media, TrakInfo};

const KEY: u32 = 0x0200_0000;
const NON_KEY: u32 = 0x0101_0000;

fn atom(kind: &[u8; 4], body: &[u8]) -> Vec<u8> {
    let mut v = ((body.len() + 8) as u32).to_be_bytes().to_vec();
    v.extend_from_slice(kind);
    v.extend_from_slice(body);
    v
}

fn moof(track: u32, time: u64, flags: u32) -> Moof {
    Moof {
        trafs: vec![Traf {
            track_id: track,
            default_sample_flags: None,
            base_media_decode_time: Some(time),
            trun: Some(Trun { sample_count: 1, sample_flags: vec![flags], first_sample_flags: None }),
        }],
    }
}

fn media() -> Media {
    let traks = vec![TrakInfo { track_id: 1, timescale: 30000 }];
    Media::new(atom(b"ftyp", b"isom"), atom(b"moov", b""), &traks).unwrap()
}

fn chunks_of(m: &Media, fragment: usize) -> Vec<Vec<u8>> {
    let b = &m.broadcast;
    (0..b.chunk_count()).filter(|&c| b.chunk_fragment(c) == fragment).map(|c| b.chunk_bytes(c).clone()).collect()
}

#[test]
fn init_track_holds_ftyp_and_moov() {
    let m = media();
    let b = &m.broadcast;
    assert_eq!(b.track_name(m.init_track), "0.mp4");
    assert_eq!(b.track_name(m.tracks[&1].index), "1.m4s");
    let seg = b.segment_entry(0);
    assert_eq!((seg.info.sequence.into_inner(), seg.info.priority, seg.info.expires_ms), (0, 0, None));
    let mut init = atom(b"ftyp", b"isom");
    init.extend(atom(b"moov", b""));
    assert_eq!(chunks_of(&m, 0), vec![init]);
}

#[test]
fn first_atoms_must_be_ftyp_and_moov() {
    let traks = vec![];
    assert_eq!(Media::new(atom(b"moov", b""), atom(b"moov", b""), &traks).err(), Some(IngestError::ExpectedFtyp));
    assert_eq!(Media::new(atom(b"ftyp", b""), atom(b"free", b""), &traks).err(), Some(IngestError::ExpectedMoov));
}

#[test]
fn keyframe_segmentation() {
    let mut m = media();
    let prft = Prft::zeroed().encode().unwrap();
    let (moof1, mdat1) = (atom(b"moof", &[1]), atom(b"mdat", &[11]));
    let (moof2, mdat2) = (atom(b"moof", &[2]), atom(b"mdat", &[22]));
    let (moof3, mdat3) = (atom(b"moof", &[3]), atom(b"mdat", &[33]));
    m.moof(moof1.clone(), &moof(1, 60000, KEY)).unwrap();
    m.mdat(mdat1.clone()).unwrap();
    m.moof(moof2.clone(), &moof(1, 60030, NON_KEY)).unwrap();
    m.mdat(mdat2.clone()).unwrap();
    m.moof(moof3.clone(), &moof(1, 60060, KEY)).unwrap();
    m.mdat(mdat3.clone()).unwrap();

    let b = &m.broadcast;
    let track = m.tracks[&1].index;
    let segs: Vec<usize> = (0..b.segment_count()).filter(|&s| b.segment_entry(s).track == track).collect();
    assert_eq!(segs.len(), 2);
    let s0 = b.segment_info(segs[0]);
    let s1 = b.segment_info(segs[1]);
    assert_eq!(s0.sequence.into_inner(), 0);
    assert_eq!(s1.sequence.into_inner(), 1);
    assert_eq!(s0.priority, u32::MAX - 2000);
    assert_eq!(s1.priority, u32::MAX - 2002);
    assert_eq!(s0.expires_ms, Some(10000));
    let frags: Vec<usize> = (0..b.fragment_count()).filter(|&f| segs.contains(&b.fragment_entry(f).segment)).collect();
    assert_eq!(chunks_of(&m, frags[0]), vec![prft.clone(), moof1, mdat1, prft.clone(), moof2, mdat2]);
    assert_eq!(chunks_of(&m, frags[1]), vec![prft, moof3, mdat3]);
}

#[test]
fn prft_is_put_before_each_moof() {
    let mut m = media();
    let p = Prft { version: 1, flags: 0, reference_track_id: 9, ntp_timestamp: 5, media_time: 6 };
    let bytes = p.encode().unwrap();
    m.prft(&bytes).unwrap();
    assert_eq!(m.tracks[&1].last_prft, Prft { reference_track_id: 1, ..p });
    m.moof(atom(b"moof", &[]), &moof(1, 0, KEY)).unwrap();
    let f = m.tracks[&1].current.unwrap();
    assert_eq!(chunks_of(&m, f)[0], Prft { reference_track_id: 1, ..p }.encode().unwrap());
    assert_eq!(m.prft(&bytes[..10]), Err(IngestError::Prft(PrftError::Truncated)));
}

#[test]
fn moof_and_mdat_must_alternate() {
    let mut m = media();
    assert_eq!(m.mdat(atom(b"mdat", &[])), Err(IngestError::MissingMoof));
    m.moof(atom(b"moof", &[]), &moof(1, 0, KEY)).unwrap();
    assert_eq!(m.expect, Expect::Mdat(1));
    assert_eq!(m.moof(atom(b"moof", &[]), &moof(1, 0, KEY)), Err(IngestError::MultipleMoof));
    assert_eq!(m.moof(atom(b"moof", &[]), &moof(5, 0, KEY)), Err(IngestError::UnknownTrack(5)));
}

#[test]
fn moof_errors() {
    let mut m = media();
    assert_eq!(m.moof(atom(b"moof", &[]), &Moof { trafs: vec![] }), Err(IngestError::Moof(MoofError::TrafCount(0))));
    let mut no_time = moof(1, 0, KEY);
    no_time.trafs[0].base_media_decode_time = None;
    assert_eq!(Fragment::new(&no_time), Err(MoofError::MissingTimestamp));
    // 2^32 seconds at a timescale of one overflows a 32-bit millisecond count.
    let traks = vec![TrakInfo { track_id: 1, timescale: 1 }];
    let mut m = Media::new(atom(b"ftyp", b""), atom(b"moov", b""), &traks).unwrap();
    assert_eq!(m.moof(atom(b"moof", &[]), &moof(1, 1 << 32, KEY)), Err(IngestError::TimestampTooLarge));
    assert_eq!((m.broadcast.segment_count(), m.broadcast.chunk_count()), (1, 1));
    assert_eq!((m.tracks[&1].sequence, m.tracks[&1].current), (0, None));
    let traks = vec![TrakInfo { track_id: 1, timescale: 0 }];
    let mut m = Media::new(atom(b"ftyp", b""), atom(b"moov", b""), &traks).unwrap();
    assert_eq!(m.moof(atom(b"moof", &[]), &moof(1, 0, KEY)), Err(IngestError::ZeroTimescale));
}

#[test]
fn keyframe_detection() {
    assert!(sample_keyframe(&moof(1, 0, KEY)));
    assert!(!sample_keyframe(&moof(1, 0, NON_KEY)));
    let mut m = moof(1, 0, NON_KEY);
    m.trafs[0].trun.as_mut().unwrap().first_sample_flags = Some(KEY);
    assert!(sample_keyframe(&m));
    let mut d = moof(1, 0, 0);
    d.trafs[0].trun = Some(Trun { sample_count: 2, sample_flags: vec![], first_sample_flags: None });
    d.trafs[0].default_sample_flags = Some(KEY);
    assert!(sample_keyframe(&d));
    d.trafs[0].trun = None;
    assert!(!sample_keyframe(&d));
}

#[test]
fn fragment_timestamp_in_millis() {
    let f = Fragment { track: 1, timestamp: 60000, keyframe: true };
    assert_eq!(f.timestamp(30000), 2000);
    assert_eq!(Fragment { timestamp: 60030, ..f }.timestamp(30000), 2001);
}

fn traks() -> Vec<CatalogTrak> {
    vec![
        CatalogTrak {
            track_id: 1,
            entry: SampleEntry::Avc1 { profile: 0x64, constraints: 0x00, level: 0x1f, width: 1920, height: 1080 },
        },
        CatalogTrak {
            track_id: 2,
            entry: SampleEntry::Mp4a {
                channel_count: 2,
                sample_rate: 48000,
                sample_size: 16,
                esds: Some(Esds { object_type_indication: 0x40, profile: 5, max_bitrate: 128000, avg_bitrate: 128000 }),
            },
        },
    ]
}

#[test]
fn catalog_emission() {
    let c = catalog_tracks(&traks(), "5000000").unwrap();
    assert_eq!(c.len(), 2);
    assert_eq!(c[0].codec, "avc1.64001F");
    assert_eq!(c[0].init_track, "0.mp4");
    assert_eq!(c[0].data_track, "1.m4s");
    assert_eq!(c[0].media, CatalogMedia::Video { width: 1920, height: 1080 });
    assert_eq!(c[0].bit_rate, Some(5000000));
    assert_eq!(c[1].codec, "mp4a.40.5");
    assert_eq!(c[1].data_track, "2.m4s");
    assert_eq!(c[1].media, CatalogMedia::Audio { channel_count: 2, sample_rate: 48000, sample_size: 16 });
    assert_eq!(c[1].bit_rate, Some(128000));
}

#[test]
fn catalog_errors() {
    assert_eq!(catalog_tracks(&traks(), "").err(), Some(CatalogError::InvalidBitrate(1)));
    assert_eq!(catalog_tracks(&traks(), "x,1").err(), Some(CatalogError::InvalidBitrate(1)));
    let two = vec![traks()[0], CatalogTrak { track_id: 3, ..traks()[0] }];
    assert_eq!(catalog_tracks(&two, "1").err(), Some(CatalogError::MissingBitrate(3)));
    assert_eq!(catalog_tracks(&two, "1,+2").unwrap()[1].bit_rate, Some(2));
    let hevc = vec![CatalogTrak { track_id: 4, entry: SampleEntry::Hev1 }];
    assert_eq!(catalog_tracks(&hevc, "").err(), Some(CatalogError::UnsupportedCodec(4)));
    let vp9 = vec![CatalogTrak { track_id: 5, entry: SampleEntry::Vp09 }];
    assert_eq!(catalog_tracks(&vp9, "").err(), Some(CatalogError::UnsupportedCodec(5)));
    let bare = vec![CatalogTrak {
        track_id: 6,
        entry: SampleEntry::Mp4a { channel_count: 1, sample_rate: 8000, sample_size: 8, esds: None },
    }];
    assert_eq!(catalog_tracks(&bare, "").err(), Some(CatalogError::MissingEsds(6)));
}

#[test]
fn catalog_is_deterministic_and_served() {
    let a = catalog_tracks(&traks(), "5000000").unwrap();
    let b = catalog_tracks(&traks(), "5000000").unwrap();
    assert_eq!(format!("{:?}", a), format!("{:?}", b));
    let mut m = media();
    m.serve_catalog(b"{\"tracks\":[]}".to_vec()).unwrap();
    let t = m.catalog_track.unwrap();
    assert_eq!(m.broadcast.track_name(t), ".catalog");
    assert!(m.serve_catalog(vec![]).is_err());
}

#[test]
fn mdat_after_failed_moof_has_no_fragment() {
    let traks = vec![TrakInfo { track_id: 1, timescale: 0 }];
    let mut m = Media::new(atom(b"ftyp", b""), atom(b"moov", b""), &traks).unwrap();
    assert_eq!(m.moof(atom(b"moof", &[]), &moof(1, 0, KEY)), Err(IngestError::ZeroTimescale));
    assert_eq!(m.mdat(atom(b"mdat", &[])), Err(IngestError::MissingFragment));
}

#[test]
fn closed_cache_refuses_segments() {
    let mut m = media();
    m.broadcast.close(moq_publisher::error::CacheError::Stop).unwrap();
    assert_eq!(
        m.moof(atom(b"moof", &[]), &moof(1, 0, KEY)),
        Err(IngestError::Cache(moq_publisher::error::CacheError::Stop))
    );
}

#[test]
fn duplicate_trak_ids() {
    let traks = vec![TrakInfo { track_id: 3, timescale: 1 }, TrakInfo { track_id: 3, timescale: 2 }];
    assert_eq!(
        Media::new(atom(b"ftyp", b""), atom(b"moov", b""), &traks).err(),
        Some(IngestError::Cache(moq_publisher::error::CacheError::Duplicate))
    );
}

#[test]
fn prft_bad_header() {
    let mut m = media();
    assert_eq!(
        m.prft(&[0, 0, 0, 3, b'p', b'r', b'f', b't']),
        Err(IngestError::Prft(PrftError::BadHeader(moq_publisher::atom::AtomError::ImpossibleSize(3))))
    );
}
