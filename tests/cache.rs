use moq_publisher::cache::{Broadcast, Next, SegmentInfo};
use moq_publisher::error::CacheError;
use moq_publisher::varint::VarInt;

fn info(seq: u32, priority: u32) -> SegmentInfo {
    SegmentInfo { sequence: VarInt::from_u32(seq), priority, expires_ms: None }
}

#[test]
fn readers_see_segments_and_chunks_in_order() {
    let mut b = Broadcast::new();
    let t = b.create_track("video".to_string()).unwrap();
    let other = b.create_track("audio".to_string()).unwrap();
    let mut reader = b.get_track(&"video".to_string()).unwrap();
    assert_eq!(reader.next_segment(&b), Next::Pending);

    let s0 = b.create_segment(t, info(0, 10)).unwrap();
    b.create_segment(other, info(0, 10)).unwrap();
    let s1 = b.create_segment(t, info(1, 11)).unwrap();
    let f0 = b.final_fragment(s0, VarInt::zero()).unwrap();
    b.chunk(f0, vec![1]).unwrap();
    b.chunk(f0, vec![2, 3]).unwrap();

    let mut seg = match reader.next_segment(&b) {
        Next::Item(s) => s,
        other => panic!("unexpected {:?}", other),
    };
    assert_eq!(seg.segment, s0);
    let second = match reader.next_segment(&b) {
        Next::Item(s) => s,
        other => panic!("unexpected {:?}", other),
    };
    assert_eq!(second.segment, s1);
    assert!(b.segment_info(second.segment).sequence.into_inner() >= b.segment_info(seg.segment).sequence.into_inner());
    assert_eq!(reader.next_segment(&b), Next::Pending);

    let mut frag = match seg.next_fragment(&b) {
        Next::Item(f) => f,
        other => panic!("unexpected {:?}", other),
    };
    assert_eq!(seg.next_fragment(&b), Next::End);
    let mut seen = Vec::new();
    while let Next::Item(c) = frag.next_chunk(&b) {
        seen.extend_from_slice(b.chunk_bytes(c));
    }
    assert_eq!(seen, vec![1, 2, 3]);
    assert_eq!(frag.next_chunk(&b), Next::Pending);
}

#[test]
fn declared_size_is_reached() {
    let mut b = Broadcast::new();
    let t = b.create_track("t".to_string()).unwrap();
    let s = b.create_segment(t, info(0, 0)).unwrap();
    let f = b.create_fragment(s, VarInt::zero(), Some(5)).unwrap();
    b.chunk(f, vec![0; 2]).unwrap();
    b.chunk(f, vec![0; 3]).unwrap();
    assert_eq!(b.fragment_entry(f).total, 5);
    assert_eq!(b.finish_fragment(f), Ok(()));
    assert!(b.fragment_entry(f).finished);
    assert_eq!(b.chunk(f, vec![]), Err(CacheError::Closed));
}

#[test]
fn close_reaches_waiting_readers() {
    let mut b = Broadcast::new();
    let t = b.create_track("t".to_string()).unwrap();
    let s = b.create_segment(t, info(0, 0)).unwrap();
    let f = b.final_fragment(s, VarInt::zero()).unwrap();
    b.chunk(f, vec![9]).unwrap();
    let mut tr = b.get_track(&"t".to_string()).unwrap();
    let mut sr = match tr.next_segment(&b) {
        Next::Item(s) => s,
        other => panic!("unexpected {:?}", other),
    };
    let mut fr = match sr.next_fragment(&b) {
        Next::Item(f) => f,
        other => panic!("unexpected {:?}", other),
    };
    let err = CacheError::Reset(77);
    assert_eq!(b.close(err), Ok(()));
    assert_eq!(tr.next_segment(&b), Next::Failed(err));
    assert_eq!(sr.next_fragment(&b), Next::Failed(err));
    assert!(matches!(fr.next_chunk(&b), Next::Item(_)));
    assert_eq!(fr.next_chunk(&b), Next::Failed(err));
    assert_eq!(err.code(), 77);
    assert_eq!(err.reason(), "reset");
    assert_eq!(b.close(CacheError::Closed), Err(err));
    assert_eq!(b.create_track("u".to_string()), Err(err));
}

#[test]
fn track_names_are_unique() {
    let mut b = Broadcast::new();
    b.create_track("a".to_string()).unwrap();
    assert_eq!(b.create_track("a".to_string()), Err(CacheError::Duplicate));
    assert_eq!(b.get_track(&"b".to_string()), Err(CacheError::NotFound));
    assert_eq!(b.track_count(), 1);
}

#[test]
fn finished_track_ends_readers() {
    let mut b = Broadcast::new();
    let t = b.create_track("a".to_string()).unwrap();
    let mut r = b.get_track(&"a".to_string()).unwrap();
    b.finish_track(t);
    assert_eq!(r.next_segment(&b), Next::End);
    assert_eq!(b.create_segment(t, info(0, 0)), Err(CacheError::Closed));
}

#[test]
fn error_codes() {
    assert_eq!(CacheError::Closed.code(), 0);
    assert_eq!(CacheError::Stop.code(), 206);
    assert_eq!(CacheError::NotFound.code(), 404);
    assert_eq!(CacheError::Duplicate.code(), 409);
    assert_eq!(CacheError::NotFound.reason(), "not found");
}
