use moq_publisher::cache::{Broadcast, FragmentEntry, SegmentInfo};
use moq_publisher::error::{CacheError, SessionError};
use moq_publisher::message::{AnnounceOk, Message, Subscribe, SubscribeOk, Unsubscribe};
use moq_publisher::session::{
    chunk_step, now_timestamp, probe_object, probe_params, probe_stream_priority, segment_object, segment_result,
    segment_stream_priority, subscribe_ok, timestamp_from_millis, uni_stream_error, Decision, Publisher,
};
use moq_publisher::varint::VarInt;

fn subscribe(id: u32, name: &str) -> Message {
    Message::Subscribe(Subscribe { id: VarInt::from_u32(id), namespace: None, name: name.to_string(), switch_track_id: None })
}

fn cache() -> Broadcast {
    let mut b = Broadcast::new();
    b.create_track("1.m4s".to_string()).unwrap();
    b.create_track("2.m4s".to_string()).unwrap();
    b
}

#[test]
fn probe_subscription() {
    let mut p: Publisher<u32> = Publisher::new();
    let d = p.recv_message(&subscribe(7, ".probe:4096:1"), &cache()).unwrap();
    match d {
        Decision::Probe { id, size, priority } => {
            assert_eq!((id.into_inner(), size, priority), (7, 4096, 1));
            assert_eq!(probe_stream_priority(priority), i32::MAX);
            let o = probe_object(id, size, priority, VarInt::from_u32(5));
            assert_eq!((o.track.into_inner(), o.group.into_inner(), o.sequence.into_inner(), o.priority), (7, 0, 0, 1));
            assert_eq!(o.size.unwrap().into_inner(), 4096);
        }
        _ => panic!("expected a probe"),
    }
    assert_eq!(subscribe_ok(VarInt::from_u32(7)), SubscribeOk { id: VarInt::from_u32(7), expires: VarInt::zero() });
}

#[test]
fn probe_defaults_and_errors() {
    assert_eq!(probe_params(".probe"), Some((20000, 0)));
    assert_eq!(probe_params(".probe:100"), None);
    assert_eq!(probe_params(".probe:a:1"), None);
    assert_eq!(probe_stream_priority(0), 0);
    let mut p: Publisher<u32> = Publisher::new();
    assert_eq!(p.recv_message(&subscribe(1, ".probe:x"), &cache()).err(), Some(SessionError::InvalidProbe));
}

#[test]
fn unsubscribe() {
    let mut p: Publisher<&str> = Publisher::new();
    let b = cache();
    match p.recv_message(&subscribe(3, "1.m4s"), &b).unwrap() {
        Decision::Serve { id, reader, .. } => {
            assert_eq!(id.into_inner(), 3);
            assert_eq!(b.track_name(reader.track), "1.m4s");
            assert_eq!(p.subscribed(id, "task3", None).unwrap(), None);
        }
        _ => panic!("expected to serve"),
    }
    assert!(p.is_active(VarInt::from_u32(3)));
    let d = p.recv_message(&Message::Unsubscribe(Unsubscribe { id: VarInt::from_u32(3) }), &b).unwrap();
    match d {
        Decision::Stop { handle, reset } => {
            assert_eq!(handle, "task3");
            assert_eq!(reset.id.into_inner(), 3);
            assert_eq!(reset.code, CacheError::Stop.code());
            assert_eq!(reset.reason, CacheError::Stop.reason());
            assert_eq!((reset.final_group.into_inner(), reset.final_object.into_inner()), (0, 0));
        }
        _ => panic!("expected a stop"),
    }
    assert!(!p.is_active(VarInt::from_u32(3)));
    let again = p.recv_message(&Message::Unsubscribe(Unsubscribe { id: VarInt::from_u32(3) }), &b);
    assert_eq!(again.err(), Some(SessionError::Cache(CacheError::NotFound)));
}

#[test]
fn duplicate_subscribe() {
    let mut p: Publisher<&str> = Publisher::new();
    let b = cache();
    assert!(matches!(p.recv_message(&subscribe(9, "1.m4s"), &b).unwrap(), Decision::Serve { .. }));
    p.subscribed(VarInt::from_u32(9), "first", None).unwrap();
    assert!(matches!(p.recv_message(&subscribe(9, "2.m4s"), &b).unwrap(), Decision::Serve { .. }));
    let err = p.subscribed(VarInt::from_u32(9), "second", None).unwrap_err();
    assert_eq!(err, SessionError::Cache(CacheError::Duplicate));
    assert!(err.is_fatal());
    assert_eq!(p.close(), vec!["first"]);
}

#[test]
fn role_violation() {
    let e = uni_stream_error();
    assert_eq!(e, SessionError::RoleViolation(VarInt::zero()));
    assert!(e.is_fatal());
    let mut p: Publisher<u32> = Publisher::new();
    let ok = Message::SubscribeOk(SubscribeOk { id: VarInt::zero(), expires: VarInt::zero() });
    assert_eq!(p.recv_message(&ok, &cache()).err(), Some(SessionError::RoleViolation(VarInt::from_u32(4))));
    let ann = Message::AnnounceOk(AnnounceOk { namespace: String::new() });
    assert_eq!(p.recv_message(&ann, &cache()).err(), Some(SessionError::Cache(CacheError::NotFound)));
}

#[test]
fn refused_subscriptions() {
    let mut p: Publisher<u32> = Publisher::new();
    match p.recv_message(&subscribe(4, "missing"), &cache()).unwrap() {
        Decision::Refuse(r) => assert_eq!((r.id.into_inner(), r.code, r.reason.as_str()), (4, 404, "not found")),
        _ => panic!("expected a refusal"),
    }
    let ns = Message::Subscribe(Subscribe {
        id: VarInt::from_u32(5),
        namespace: Some("other".to_string()),
        name: "1.m4s".to_string(),
        switch_track_id: None,
    });
    assert!(matches!(p.recv_message(&ns, &cache()).unwrap(), Decision::Refuse(_)));
}

#[test]
fn switch_removes_previous_subscription() {
    let mut p: Publisher<&str> = Publisher::new();
    p.subscribed(VarInt::from_u32(1), "one", None).unwrap();
    let removed = p.subscribed(VarInt::from_u32(2), "two", Some(VarInt::from_u32(1))).unwrap();
    assert_eq!(removed, Some("one"));
    assert!(!p.is_active(VarInt::from_u32(1)));
    assert!(p.is_active(VarInt::from_u32(2)));
    assert_eq!(p.subscribed(VarInt::from_u32(3), "three", Some(VarInt::zero())).unwrap(), None);
}

#[test]
fn finished_subscription_is_reset() {
    let mut p: Publisher<u32> = Publisher::new();
    p.subscribed(VarInt::from_u32(8), 80, None).unwrap();
    let r = p.finished(VarInt::from_u32(8), None).unwrap();
    assert_eq!((r.code, r.reason.as_str()), (0, "closed"));
    assert!(p.finished(VarInt::from_u32(8), None).is_none());
    p.subscribed(VarInt::from_u32(8), 81, None).unwrap();
    let r = p.finished(VarInt::from_u32(8), Some(SessionError::BoundsExceeded)).unwrap();
    assert_eq!(r.code, 500);
}

#[test]
fn stream_priorities() {
    assert_eq!(segment_stream_priority(0), -i32::MAX);
    assert_eq!(segment_stream_priority(i32::MAX as u32), 0);
    assert_eq!(segment_stream_priority(u32::MAX - 2000), i32::MAX - 1999);
    assert_eq!(segment_stream_priority(u32::MAX), i32::MIN);
}

#[test]
fn segment_headers() {
    let info = SegmentInfo { sequence: VarInt::from_u32(4), priority: 9, expires_ms: Some(10000) };
    let frag = FragmentEntry { segment: 0, sequence: VarInt::zero(), size: None, total: 0, finished: false };
    let o = segment_object(VarInt::from_u32(2), info, frag, VarInt::from_u32(1)).unwrap();
    assert_eq!((o.track.into_inner(), o.group.into_inner(), o.priority), (2, 4, 9));
    assert_eq!(o.expires.unwrap().into_inner(), 10000);
    assert!(o.size.is_none());
    let big = FragmentEntry { size: Some(u64::MAX), ..frag };
    assert_eq!(segment_object(VarInt::zero(), info, big, VarInt::zero()), Err(SessionError::BoundsExceeded));
    assert!(segment_result(0).is_err());
    assert_eq!(segment_result(0).unwrap_err().reason(), "no chunks sent");
    assert_eq!(segment_result(3), Ok(()));
}

#[test]
fn timestamps() {
    assert_eq!(timestamp_from_millis(-1), Err(SessionError::BoundsExceeded));
    assert_eq!(timestamp_from_millis(1234).unwrap().into_inner(), 1234);
    assert!(now_timestamp().unwrap().into_inner() > 1_600_000_000_000);
}

#[test]
fn empty_chunks_are_not_written() {
    assert_eq!(chunk_step(0, 0), (false, 0));
    assert_eq!(chunk_step(0, 5), (true, 1));
    assert_eq!(chunk_step(3, 0), (false, 3));
    assert_eq!(chunk_step(u64::MAX, 1), (true, u64::MAX));
}
