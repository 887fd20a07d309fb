//! The publisher side of a session, as decisions: each event of the session
//! (a control message, a task that ended, a stream the peer opened) goes in
//! with the session's state, and what to do comes out. Running tasks, opening
//! streams and writing bytes is left to the caller.
use crate::cache::{Broadcast, FragmentEntry, SegmentInfo, TrackReader};
use crate::error::{CacheError, SessionError};
use crate::message::{Message, Object, SubscribeOk, SubscribeReset};
use crate::text::{field_from, number_field, spec_parse_u32};
use crate::varint::VarInt;
use std::collections::HashMap;
use vstd::prelude::*;
use vstd::std_specs::iter::IteratorSpec;

verus! {

broadcast use vstd::std_specs::hash::group_hash_axioms;

/// The probe size when the name gives none.
pub const DEFAULT_PROBE_SIZE: u32 = 20000;

/// The active subscriptions: each id with the handle that cancels its task.
pub struct Subscriptions<H> {
    entries: HashMap<u64, H>,
}

impl<H> Subscriptions<H> {
    pub closed spec fn map(&self) -> Map<u64, H> {
        self.entries@
    }

    pub open spec fn has(&self, id: nat) -> bool {
        id <= u64::MAX && self.map().contains_key(id as u64)
    }

    pub fn new() -> (r: Subscriptions<H>)
        ensures
            r.map() == Map::<u64, H>::empty(),
    {
        Subscriptions { entries: HashMap::new() }
    }

    pub fn contains(&self, id: VarInt) -> (r: bool)
        ensures
            r == self.has(id@),
    {
        let key = id.into_inner();
        self.entries.contains_key(&key)
    }

    /// Adds a subscription; an id in use is refused and its entry kept as it was.
    pub fn insert(&mut self, id: VarInt, handle: H) -> (r: Result<(), CacheError>)
        ensures
            old(self).has(id@) ==> r == Err::<(), CacheError>(CacheError::Duplicate) && final(self).map()
                == old(self).map(),
            !old(self).has(id@) ==> r is Ok && final(self).map() == old(self).map().insert(id@ as u64, handle),
    {
        let key = id.into_inner();
        if self.entries.contains_key(&key) {
            return Err(CacheError::Duplicate);
        }
        self.entries.insert(key, handle);
        Ok(())
    }

    /// Takes out the subscription `id`, handing back its handle.
    pub fn remove(&mut self, id: VarInt) -> (r: Option<H>)
        ensures
            !final(self).has(id@),
            !old(self).has(id@) ==> r is None && final(self).map() == old(self).map(),
            old(self).has(id@) ==> r == Some(old(self).map()[id@ as u64]) && final(self).map() == old(
                self,
            ).map().remove(id@ as u64),
    {
        let key = id.into_inner();
        let r = self.entries.remove(&key);
        proof {
            if r is None {
                assert(self.map() =~= old(self).map());
            }
        }
        r
    }

    /// Takes out every subscription, handing back their handles.
    pub fn drain(&mut self) -> (r: Vec<H>)
        ensures
            final(self).map() == Map::<u64, H>::empty(),
            r@.len() == old(self).map().dom().len(),
            forall|i: int| 0 <= i < r@.len() ==> old(self).map().values().contains(#[trigger] r@[i]),
    {
        let mut ids: Vec<u64> = Vec::new();
        for k in it: self.entries.keys()
            invariant
                ids@.len() == it.index(),
                forall|j: int| 0 <= j < ids@.len() ==> ids@[j] == *it.seq()[j],
                it.seq() == vstd::std_specs::hash::spec_keys_iter(&self.entries).remaining(),
        {
            ids.push(*k);
        }
        assert(ids@ =~= vstd::std_specs::hash::spec_keys_iter(&self.entries).remaining().unref());
        assert(ids@.to_set() == old(self).map().dom());
        proof {
            ids@.unique_seq_to_set();
        }
        let ghost start = self.map();
        let mut out: Vec<H> = Vec::new();
        let mut i: usize = 0;
        while i < ids.len()
            invariant
                i <= ids@.len(),
                out@.len() == i,
                ids@.no_duplicates(),
                ids@.to_set() == start.dom(),
                self.map() == start.remove_keys(ids@.take(i as int).to_set()),
                forall|j: int| 0 <= j < i ==> start.values().contains(#[trigger] out@[j]),
            decreases ids@.len() - i,
        {
            let k = ids[i];
            proof {
                assert(ids@.to_set().contains(k));
                assert(!ids@.take(i as int).to_set().contains(k)) by {
                    if ids@.take(i as int).to_set().contains(k) {
                        let j = choose|j: int| 0 <= j < i && ids@.take(i as int)[j] == k;
                        assert(ids@[j] == ids@[i as int]);
                    }
                }
            }
            let removed = self.entries.remove(&k);
            proof {
                assert(ids@.take(i + 1) =~= ids@.take(i as int).push(k));
                ids@.take(i as int).lemma_push_to_set_commute(k);
                assert(ids@.take(i + 1).to_set() =~= ids@.take(i as int).to_set().insert(k));
                assert(self.map() =~= start.remove_keys(ids@.take(i + 1).to_set()));
            }
            match removed {
                Some(h) => {
                    proof {
                        assert(start.contains_key(k) && start[k] == h);
                    }
                    out.push(h);
                },
                None => {
                    proof {
                        assert(false);
                    }
                },
            }
            i += 1;
        }
        proof {
            assert(ids@.take(ids@.len() as int) =~= ids@);
            assert(self.map() =~= Map::<u64, H>::empty());
        }
        out
    }
}

/// What the caller is to do with a control message.
pub enum Decision<H> {
    /// Open a stream for a probe of `size` zero bytes, then reply `SubscribeOk`.
    Probe { id: VarInt, size: u32, priority: u32 },
    /// Start serving the track, register the task with `subscribed`, then reply `SubscribeOk`.
    Serve { id: VarInt, reader: TrackReader, switch_track_id: Option<VarInt> },
    /// Reply with this reset: the subscription was refused.
    Refuse(SubscribeReset),
    /// Cancel the serving work behind `handle` and reply with this reset.
    Stop { handle: H, reset: SubscribeReset },
}

/// `rs` resets subscription `id` with the code and reason of `code`/`reason`.
pub open spec fn is_reset(rs: SubscribeReset, id: nat, code: u32, reason: Seq<char>) -> bool {
    &&& rs.id@ == id
    &&& rs.code == code
    &&& rs.reason@ == reason
    &&& rs.final_group@ == 0
    &&& rs.final_object@ == 0
}

/// The reset of subscription `id` for `err`.
pub fn reset_message(id: VarInt, err: &SessionError) -> (r: SubscribeReset)
    ensures
        is_reset(r, id@, err.spec_code(), err.spec_reason()),
{
    SubscribeReset {
        id,
        code: err.code(),
        reason: err.reason(),
        final_group: VarInt::zero(),
        final_object: VarInt::zero(),
    }
}

/// The reply to an accepted subscription.
pub fn subscribe_ok(id: VarInt) -> (r: SubscribeOk)
    ensures
        r.id == id,
        r.expires@ == 0,
{
    SubscribeOk { id, expires: VarInt::zero() }
}

/// The name asks for a probe.
pub open spec fn is_probe(name: Seq<char>) -> bool {
    name.len() >= 6 && name.take(6) == ".probe"@
}

/// The probe's size and priority: from `.probe:SIZE:PRIORITY`, or the defaults
/// for any other probe name; `None` when the fields are missing or not numbers.
pub open spec fn spec_probe_params(name: Seq<char>) -> Option<(u32, u32)> {
    if name.len() >= 7 && name.take(7) == ".probe:"@ {
        match (field_from(name, ':', 0, 1), field_from(name, ':', 0, 2)) {
            (Some(a), Some(b)) => match (spec_parse_u32(a), spec_parse_u32(b)) {
                (Some(size), Some(priority)) => Some((size, priority)),
                _ => None,
            },
            _ => None,
        }
    } else {
        Some((DEFAULT_PROBE_SIZE, 0))
    }
}

/// Whether `s` starts with `p`.
pub fn starts_with(s: &str, p: &str) -> (r: bool)
    ensures
        r == (s@.len() >= p@.len() && s@.take(p@.len() as int) == p@),
{
    let n = p.unicode_len();
    if s.unicode_len() < n {
        return false;
    }
    let mut i: usize = 0;
    while i < n
        invariant
            n == p@.len(),
            n <= s@.len(),
            i <= n,
            forall|k: int| 0 <= k < i ==> s@[k] == p@[k],
        decreases n - i,
    {
        if s.get_char(i) != p.get_char(i) {
            proof {
                assert(s@.take(n as int)[i as int] != p@[i as int]);
            }
            return false;
        }
        i += 1;
    }
    proof {
        assert(s@.take(n as int) =~= p@);
    }
    true
}

/// The size and priority of a probe named `name`.
pub fn probe_params(name: &str) -> (r: Option<(u32, u32)>)
    ensures
        r == spec_probe_params(name@),
{
    proof {
        reveal_strlit(".probe:");
    }
    if !starts_with(name, ".probe:") {
        return Some((DEFAULT_PROBE_SIZE, 0));
    }
    let size = match number_field(name, ':', 1) {
        Some(Some(v)) => v,
        _ => return None,
    };
    let priority = match number_field(name, ':', 2) {
        Some(Some(v)) => v,
        _ => return None,
    };
    Some((size, priority))
}

/// The transport priority of a segment's stream: the segment priority minus
/// `i32::MAX`, wrapped into 32 bits, so that more urgent segments get a lower value.
pub open spec fn spec_segment_stream_priority(priority: u32) -> int {
    let v = priority as int - 2147483647;
    if v > 2147483647 {
        v - 4294967296
    } else {
        v
    }
}

pub fn segment_stream_priority(priority: u32) -> (r: i32)
    ensures
        r as int == spec_segment_stream_priority(priority),
{
    if priority == u32::MAX {
        i32::MIN
    } else {
        (priority as i64 - 2147483647i64) as i32
    }
}

/// The transport priority of a probe's stream.
pub fn probe_stream_priority(priority: u32) -> (r: i32)
    ensures
        priority == 1 ==> r == i32::MAX,
        priority != 1 ==> r == 0,
{
    if priority == 1 {
        i32::MAX
    } else {
        0
    }
}

/// The wall clock in whole milliseconds as an object timestamp.
pub fn timestamp_from_millis(millis: i64) -> (r: Result<VarInt, SessionError>)
    ensures
        0 <= millis <= crate::varint::MAX_VALUE ==> r is Ok && r->Ok_0@ == millis as nat,
        !(0 <= millis <= crate::varint::MAX_VALUE) ==> r == Err::<VarInt, SessionError>(
            SessionError::BoundsExceeded,
        ),
{
    if millis < 0 {
        return Err(SessionError::BoundsExceeded);
    }
    match VarInt::try_from_u64(millis as u64) {
        Ok(v) => Ok(v),
        Err(_) => Err(SessionError::BoundsExceeded),
    }
}

/// Relies on `std::time::SystemTime::now` and `duration_since(UNIX_EPOCH)` for the
/// clock, and on `chrono::DateTime::from_timestamp` (which returns `None` out of
/// its range instead of panicking) and `DateTime::timestamp_millis`: the current
/// time in milliseconds since the Unix epoch, or `None` when the clock reads
/// before 1970 or beyond chrono's range. Nothing is known of its value.
#[verifier::external_body]
fn utc_now_millis() -> (r: Option<i64>) {
    let since = std::time::SystemTime::now().duration_since(std::time::UNIX_EPOCH).ok()?;
    let secs = i64::try_from(since.as_secs()).ok()?;
    chrono::DateTime::from_timestamp(secs, since.subsec_nanos()).map(|t| t.timestamp_millis())
}

/// The current wall-clock time as an object timestamp; a clock that cannot be
/// read as milliseconds since 1970 below 2^62 gives `BoundsExceeded`.
pub fn now_timestamp() -> (r: Result<VarInt, SessionError>)
    ensures
        r is Err ==> r == Err::<VarInt, SessionError>(SessionError::BoundsExceeded),
{
    match utc_now_millis() {
        Some(millis) => timestamp_from_millis(millis),
        None => Err(SessionError::BoundsExceeded),
    }
}

/// The header of fragment `fragment` of a segment with `info`, served to
/// subscription `id`.
pub fn segment_object(id: VarInt, info: SegmentInfo, fragment: FragmentEntry, ntp_timestamp: VarInt) -> (r: Result<Object, SessionError>)
    ensures
        (info.expires_ms is Some && info.expires_ms->Some_0 > crate::varint::MAX_VALUE) || (fragment.size is Some && fragment.size->Some_0 > crate::varint::MAX_VALUE) <==> r is Err,
        r is Err ==> r == Err::<Object, SessionError>(SessionError::BoundsExceeded),
        r is Ok ==> ({
            let o = r->Ok_0;
            &&& o.track == id
            &&& o.group == info.sequence
            &&& o.priority == info.priority
            &&& o.sequence == fragment.sequence
            &&& o.ntp_timestamp == Some(ntp_timestamp)
            &&& (info.expires_ms is None ==> o.expires is None)
            &&& (info.expires_ms is Some ==> o.expires is Some && o.expires->Some_0@ == info.expires_ms->Some_0)
            &&& (fragment.size is None ==> o.size is None)
            &&& (fragment.size is Some ==> o.size is Some && o.size->Some_0@ == fragment.size->Some_0)
        }),
{
    let expires = match info.expires_ms {
        None => None,
        Some(ms) => match VarInt::try_from_u64(ms) {
            Ok(v) => Some(v),
            Err(_) => return Err(SessionError::BoundsExceeded),
        },
    };
    let size = match fragment.size {
        None => None,
        Some(n) => match VarInt::try_from_u64(n) {
            Ok(v) => Some(v),
            Err(_) => return Err(SessionError::BoundsExceeded),
        },
    };
    Ok(
        Object {
            track: id,
            group: info.sequence,
            priority: info.priority,
            expires,
            sequence: fragment.sequence,
            ntp_timestamp: Some(ntp_timestamp),
            size,
        },
    )
}

/// The header of a probe for subscription `id`.
pub fn probe_object(id: VarInt, size: u32, priority: u32, ntp_timestamp: VarInt) -> (r: Object)
    ensures
        r.track == id,
        r.group@ == 0,
        r.sequence@ == 0,
        r.priority == priority,
        r.expires is None,
        r.ntp_timestamp == Some(ntp_timestamp),
        r.size is Some && r.size->Some_0@ == size as nat,
{
    Object {
        track: id,
        group: VarInt::zero(),
        priority,
        expires: None,
        sequence: VarInt::zero(),
        ntp_timestamp: Some(ntp_timestamp),
        size: Some(VarInt::from_u32(size)),
    }
}

/// Whether a chunk of `len` bytes is written to a segment's stream (empty ones
/// are skipped), and how many chunks have been written after it.
pub fn chunk_step(sent: u64, len: usize) -> (r: (bool, u64))
    ensures
        r.0 == (len > 0),
        r.1 == if len > 0 && sent < u64::MAX {
            sent + 1
        } else {
            sent as int
        },
{
    if len == 0 {
        (false, sent)
    } else if sent < u64::MAX {
        (true, sent + 1)
    } else {
        (true, sent)
    }
}

/// How a segment's stream ends, given how many non-empty chunks were written.
pub fn segment_result(chunks_sent: u64) -> (r: Result<(), SessionError>)
    ensures
        chunks_sent > 0 <==> r is Ok,
        r is Err ==> r->Err_0 is Unknown && r->Err_0.spec_reason() == "no chunks sent"@,
{
    if chunks_sent == 0 {
        Err(SessionError::Unknown(String::from_str("no chunks sent")))
    } else {
        Ok(())
    }
}

/// The peer opened a stream, which a subscriber may not do.
pub fn uni_stream_error() -> (r: SessionError)
    ensures
        r is RoleViolation && r->RoleViolation_0@ == 0,
{
    SessionError::RoleViolation(VarInt::zero())
}

/// The publisher's state: its subscriptions.
pub struct Publisher<H> {
    pub subscribes: Subscriptions<H>,
}

impl<H> Publisher<H> {
    pub fn new() -> (r: Publisher<H>)
        ensures
            r.subscribes.map() == Map::<u64, H>::empty(),
    {
        Publisher { subscribes: Subscriptions::new() }
    }

    /// What to do with a control message from the subscriber.
    pub fn recv_message(&mut self, msg: &Message, cache: &Broadcast) -> (r: Result<Decision<H>, SessionError>)
        requires
            cache.wf(),
        ensures
            !(msg is Unsubscribe) ==> final(self).subscribes.map() == old(self).subscribes.map(),
            match msg {
                Message::AnnounceOk(_) => r == Err::<Decision<H>, SessionError>(SessionError::Cache(CacheError::NotFound)),
                Message::AnnounceError(_) => r == Err::<Decision<H>, SessionError>(SessionError::Cache(CacheError::NotFound)),
                Message::Unsubscribe(u) => !final(self).subscribes.has(u.id@) && if old(self).subscribes.has(u.id@) {
                    final(self).subscribes.map() == old(self).subscribes.map().remove(u.id@ as u64)
                        && r is Ok && (r->Ok_0 matches Decision::Stop { handle, reset }
                        && handle == old(self).subscribes.map()[u.id@ as u64]
                        && is_reset(reset, u.id@, CacheError::Stop.spec_code(), CacheError::Stop.spec_reason()))
                } else {
                    r == Err::<Decision<H>, SessionError>(SessionError::Cache(CacheError::NotFound))
                        && final(self).subscribes.map() == old(self).subscribes.map()
                },
                Message::Subscribe(s) => if is_probe(s.name@) {
                    match spec_probe_params(s.name@) {
                        None => r == Err::<Decision<H>, SessionError>(SessionError::InvalidProbe),
                        Some((size, priority)) => r is Ok && (r->Ok_0 matches Decision::Probe { id, size: sz, priority: pr }
                            && id == s.id && sz == size && pr == priority),
                    }
                } else if (s.namespace is Some && s.namespace->Some_0@.len() > 0) || !cache.has_track(s.name@) {
                    r is Ok && (r->Ok_0 matches Decision::Refuse(rs)
                        && is_reset(rs, s.id@, CacheError::NotFound.spec_code(), CacheError::NotFound.spec_reason()))
                } else {
                    r is Ok && (r->Ok_0 matches Decision::Serve { id, reader, switch_track_id }
                        && id == s.id && switch_track_id == s.switch_track_id && reader.pos == 0
                        && reader.track < cache.tracks().len() && cache.tracks()[reader.track as int].name@ == s.name@)
                },
                _ => r is Err && (r->Err_0 matches SessionError::RoleViolation(v) && v@ == msg.spec_id()),
            },
    {
        match msg {
            Message::AnnounceOk(_) => Err(SessionError::Cache(CacheError::NotFound)),
            Message::AnnounceError(_) => Err(SessionError::Cache(CacheError::NotFound)),
            Message::Unsubscribe(u) => match self.subscribes.remove(u.id) {
                None => Err(SessionError::Cache(CacheError::NotFound)),
                Some(handle) => Ok(
                    Decision::Stop {
                        handle,
                        reset: reset_message(u.id, &SessionError::Cache(CacheError::Stop)),
                    },
                ),
            },
            Message::Subscribe(s) => {
                proof {
                    reveal_strlit(".probe");
                }
                if starts_with(s.name.as_str(), ".probe") {
                    return match probe_params(s.name.as_str()) {
                        None => Err(SessionError::InvalidProbe),
                        Some((size, priority)) => Ok(Decision::Probe { id: s.id, size, priority }),
                    };
                }
                let refused = match &s.namespace {
                    Some(ns) => ns.unicode_len() > 0,
                    None => false,
                };
                if refused {
                    return Ok(
                        Decision::Refuse(
                            reset_message(s.id, &SessionError::Cache(CacheError::NotFound)),
                        ),
                    );
                }
                match cache.get_track(&s.name) {
                    Err(e) => Ok(Decision::Refuse(reset_message(s.id, &SessionError::Cache(e)))),
                    Ok(reader) => Ok(
                        Decision::Serve { id: s.id, reader, switch_track_id: s.switch_track_id },
                    ),
                }
            },
            _ => Err(SessionError::RoleViolation(msg.id())),
        }
    }

    /// Registers the task that serves subscription `id`. A duplicate id is
    /// refused and the existing entry kept; the session then ends. A non-zero
    /// `switch_track_id` naming another active subscription removes that one,
    /// whose handle is handed back (its task stops when it sees it is gone).
    pub fn subscribed(&mut self, id: VarInt, handle: H, switch_track_id: Option<VarInt>) -> (r: Result<Option<H>, SessionError>)
        ensures
            old(self).subscribes.has(id@) ==> r == Err::<Option<H>, SessionError>(SessionError::Cache(CacheError::Duplicate))
                && final(self).subscribes.map() == old(self).subscribes.map(),
            !old(self).subscribes.has(id@) ==> r is Ok && final(self).subscribes.has(id@)
                && final(self).subscribes.map()[id@ as u64] == handle,
            !old(self).subscribes.has(id@) ==> (if switch_track_id is Some && switch_track_id->Some_0@ != 0
                && switch_track_id->Some_0@ != id@ && old(self).subscribes.has(switch_track_id->Some_0@) {
                r == Ok::<Option<H>, SessionError>(Some(old(self).subscribes.map()[switch_track_id->Some_0@ as u64]))
                    && final(self).subscribes.map() == old(self).subscribes.map().insert(id@ as u64, handle).remove(
                    switch_track_id->Some_0@ as u64,
                )
            } else {
                r == Ok::<Option<H>, SessionError>(None)
                    && final(self).subscribes.map() == old(self).subscribes.map().insert(id@ as u64, handle)
            }),
    {
        match self.subscribes.insert(id, handle) {
            Err(e) => return Err(SessionError::Cache(e)),
            Ok(()) => {},
        }
        let key = id.into_inner();
        match switch_track_id {
            Some(s) => {
                if s.into_inner() != 0 && s.into_inner() != key && self.subscribes.contains(s) {
                    let removed = self.subscribes.remove(s);
                    Ok(removed)
                } else {
                    Ok(None)
                }
            },
            None => Ok(None),
        }
    }

    /// Whether subscription `id` is still active; its task stops once it is not.
    pub fn is_active(&self, id: VarInt) -> (r: bool)
        ensures
            r == self.subscribes.has(id@),
    {
        self.subscribes.contains(id)
    }

    /// A subscription's task ended, with `err` if it failed. If the subscription is
    /// still active it is removed, and the reset to send is handed back, with the
    /// task's error or `Closed`.
    pub fn finished(&mut self, id: VarInt, err: Option<SessionError>) -> (r: Option<SubscribeReset>)
        ensures
            !final(self).subscribes.has(id@),
            !old(self).subscribes.has(id@) ==> r is None && final(self).subscribes.map() == old(self).subscribes.map(),
            old(self).subscribes.has(id@) ==> final(self).subscribes.map() == old(self).subscribes.map().remove(id@ as u64),
            old(self).subscribes.has(id@) ==> r is Some && match err {
                Some(e) => is_reset(r->Some_0, id@, e.spec_code(), e.spec_reason()),
                None => is_reset(r->Some_0, id@, CacheError::Closed.spec_code(), CacheError::Closed.spec_reason()),
            },
    {
        if !self.subscribes.contains(id) {
            return None;
        }
        let _ = self.subscribes.remove(id);
        let e = match err {
            Some(e) => e,
            None => SessionError::Cache(CacheError::Closed),
        };
        Some(reset_message(id, &e))
    }

    /// The session is over: every task is to be cancelled.
    pub fn close(&mut self) -> (r: Vec<H>)
        ensures
            final(self).subscribes.map() == Map::<u64, H>::empty(),
            r@.len() == old(self).subscribes.map().dom().len(),
            forall|i: int| 0 <= i < r@.len() ==> old(self).subscribes.map().values().contains(#[trigger] r@[i]),
    {
        self.subscribes.drain()
    }
}

} // verus!
