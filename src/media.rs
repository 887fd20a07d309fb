//! The ingest: turns the atoms of a fragmented MP4 stream into cache entries.
//! The `ftyp` and `moov` atoms make the init track; each `trak` gets a track of
//! its own; a keyframe `moof` starts a new segment and later `moof`/`mdat`
//! atoms extend it; the latest `prft` is put in front of every `moof`.
use crate::atom::{
    atom_kind, prft_decodes, spec_prft_bytes, spec_prft_of, Prft, PrftError, FTYP, MOOV,
};
use crate::cache::{Broadcast, SegmentInfo};
use crate::error::CacheError;
use crate::fragment::{spec_fragment, Fragment, Moof, MoofError};
use crate::text::{decimal, lemma_decimal_injective, push_decimal};
use crate::varint::{be_value, VarInt, MAX_VALUE};
use std::collections::HashMap;
use vstd::prelude::*;
use vstd::std_specs::iter::IteratorSpec;

verus! {

broadcast use vstd::std_specs::hash::group_hash_axioms;

/// How long a media segment may be cached, in milliseconds.
pub const SEGMENT_EXPIRY_MS: u64 = 10000;

/// What the ingest reads of a `trak` in the `moov`.
#[derive(Clone, Copy, Debug, PartialEq, Eq, Structural)]
pub struct TrakInfo {
    pub track_id: u32,
    /// `mdia.mdhd.timescale`: units per second.
    pub timescale: u32,
}

/// Why an atom could not be ingested.
#[derive(Clone, Copy, Debug, PartialEq, Eq, Structural)]
pub enum IngestError {
    /// The first atom is not an `ftyp`.
    ExpectedFtyp,
    /// The second atom is not a `moov`.
    ExpectedMoov,
    /// A `moof` names a track that the `moov` did not declare.
    UnknownTrack(u32),
    /// A `moof` came while the previous one still waited for its `mdat`.
    MultipleMoof,
    /// An `mdat` came without a `moof` before it.
    MissingMoof,
    /// The track has no segment to add to.
    MissingFragment,
    /// The track's timescale is zero.
    ZeroTimescale,
    /// The timestamp in milliseconds does not fit in 32 bits.
    TimestampTooLarge,
    /// The track has produced 2^62 segments.
    SequenceTooLarge,
    /// The fragment would exceed 2^64 bytes.
    FragmentTooLarge,
    Prft(PrftError),
    Moof(MoofError),
    Cache(CacheError),
}

/// Which atom the ingest expects after a `moof`.
#[derive(Clone, Copy, Debug, PartialEq, Eq, Structural)]
pub enum Expect {
    /// Any atom but an `mdat`.
    Moof,
    /// The `mdat` of the `moof` of this track.
    Mdat(u32),
}

/// One media track being produced.
#[derive(Clone, Copy, Debug)]
pub struct Track {
    /// The MP4 track id.
    pub id: u32,
    /// The cache track.
    pub index: usize,
    /// The fragment of the current segment, which later atoms extend.
    pub current: Option<usize>,
    /// The latest `prft`, put before every `moof`.
    pub last_prft: Prft,
    /// Units per second.
    pub timescale: u64,
    /// The number of segments produced.
    pub sequence: u64,
}

/// The priority of a segment whose first sample plays at `ms` milliseconds:
/// newer segments are more urgent.
pub open spec fn spec_priority(ms: nat) -> u32 {
    (u32::MAX - ms) as u32
}

/// The name of the cache track of MP4 track `id`: `"{id}.m4s"`.
pub open spec fn data_track_name(id: u32) -> Seq<char> {
    decimal(id as nat) + ".m4s"@
}

/// The name of the init track.
pub open spec fn init_track_name() -> Seq<char> {
    "0.mp4"@
}

/// The name of the catalog track.
pub open spec fn catalog_track_name() -> Seq<char> {
    ".catalog"@
}

/// No two `trak`s share a track id.
pub open spec fn distinct_ids(traks: Seq<TrakInfo>) -> bool {
    forall|a: int, c: int|
        0 <= a < c < traks.len() ==> #[trigger] traks[a].track_id != #[trigger] traks[c].track_id
}

/// The atoms `ftyp` and `moov` have the right four-character codes.
pub open spec fn init_atoms_ok(ftyp: Seq<u8>, moov: Seq<u8>) -> bool {
    &&& ftyp.len() >= 8 && be_value(ftyp.subrange(4, 8)) == FTYP
    &&& moov.len() >= 8 && be_value(moov.subrange(4, 8)) == MOOV
}

/// Data track names differ from each other and from the init track's.
proof fn lemma_track_names(a: u32, b: u32)
    ensures
        data_track_name(a) != init_track_name(),
        data_track_name(a) == data_track_name(b) ==> a == b,
{
    reveal_strlit(".m4s");
    reveal_strlit("0.mp4");
    assert(data_track_name(a).last() == 's');
    if data_track_name(a) == data_track_name(b) {
        let n = data_track_name(a).len() - 4;
        assert(data_track_name(a).take(n) =~= decimal(a as nat));
        assert(data_track_name(b).take(n) =~= decimal(b as nat));
        lemma_decimal_injective(a as nat, b as nat);
    }
}

/// `b1` extends `b0` only with segments of cache track `index` and with new
/// fragments, and leaves the size and state of every existing fragment alone.
pub open spec fn extends_for(b0: Broadcast, b1: Broadcast, index: usize) -> bool {
    &&& b1.tracks() == b0.tracks()
    &&& b1.closed() == b0.closed()
    &&& b1.segments().len() >= b0.segments().len()
    &&& forall|i: int| 0 <= i < b0.segments().len() ==> #[trigger] b1.segments()[i] == b0.segments()[i]
    &&& forall|i: int| b0.segments().len() <= i < b1.segments().len() ==> #[trigger] b1.segments()[i].track == index
    &&& b1.fragments().len() >= b0.fragments().len()
    &&& forall|g: int| 0 <= g < b0.fragments().len() ==> {
        let a = #[trigger] b1.fragments()[g];
        let o = b0.fragments()[g];
        a.size == o.size && a.finished == o.finished
    }
}

impl Track {
    /// The track is in step with the cache: its next sequence number is above
    /// those of its segments, and its current fragment can still grow.
    pub open spec fn in_step(self, b: Broadcast) -> bool {
        &&& b.wf()
        &&& self.index < b.tracks().len()
        &&& self.sequence <= MAX_VALUE + 1
        &&& forall|i: int|
            0 <= i < b.segments().len() && #[trigger] b.segments()[i].track == self.index
                ==> b.segments()[i].info.sequence@ < self.sequence
        &&& !b.tracks()[self.index as int].finished
        &&& self.last_prft.version <= 1
        &&& self.current is Some ==> self.current->Some_0 < b.fragments().len()
            && b.fragments()[self.current->Some_0 as int].size is None
            && !b.fragments()[self.current->Some_0 as int].finished
    }

    /// Whether a `moof` starts a new segment.
    pub open spec fn starts_segment(self, frag: Fragment) -> bool {
        self.current is None || frag.keyframe
    }

    /// The first sample's time in milliseconds, for a non-zero timescale.
    pub open spec fn millis(self, frag: Fragment) -> nat {
        (1000 * frag.timestamp as nat / self.timescale as nat) as nat
    }

    /// Publishing the `moof` `raw` meets no limit: the timestamp, the sequence
    /// number and the fragment length all fit.
    pub open spec fn header_fits(self, b: Broadcast, raw: Seq<u8>, frag: Fragment) -> bool {
        let prft = spec_prft_bytes(self.last_prft);
        if self.starts_segment(frag) {
            self.timescale > 0 && self.millis(frag) <= u32::MAX && self.sequence <= MAX_VALUE
                && prft.len() + raw.len() <= u64::MAX
        } else {
            b.fragments()[self.current->Some_0 as int].total + prft.len() + raw.len() <= u64::MAX
        }
    }

    /// What publishing the `moof` `raw`, read as `frag`, does: the track goes
    /// from `self` to `new` and the cache from `b` to `nb`, with result `r`.
    pub open spec fn header_effect(
        self,
        b: Broadcast,
        new: Track,
        nb: Broadcast,
        raw: Seq<u8>,
        frag: Fragment,
        r: Result<(), IngestError>,
    ) -> bool {
        let starts = self.starts_segment(frag);
        let prft = spec_prft_bytes(self.last_prft);
        let ms = self.millis(frag);
        &&& (r is Err ==> new == self)
        &&& (r is Err && !(r->Err_0 is Cache) && (starts || r->Err_0 is Prft) ==> nb == b)
        &&& (starts && self.timescale == 0 ==> r == Err::<(), IngestError>(IngestError::ZeroTimescale))
        &&& (starts && self.timescale > 0 && ms > u32::MAX ==> r == Err::<(), IngestError>(
            IngestError::TimestampTooLarge,
        ))
        &&& (starts && self.timescale > 0 && ms <= u32::MAX && self.sequence > MAX_VALUE ==> r
            == Err::<(), IngestError>(IngestError::SequenceTooLarge))
        &&& (starts && self.timescale > 0 && ms <= u32::MAX && self.sequence <= MAX_VALUE
            && prft.len() + raw.len() > u64::MAX ==> r == Err::<(), IngestError>(
            IngestError::FragmentTooLarge,
        ))
        &&& (!starts && b.fragments()[self.current->Some_0 as int].total + prft.len() + raw.len()
            > u64::MAX ==> r is Err)
        &&& (self.header_fits(b, raw, frag) ==> match b.closed() {
            Some(e) => r == Err::<(), IngestError>(IngestError::Cache(e)),
            None => r is Ok,
        })
        &&& (r is Ok && starts ==> {
            let seg = nb.segments().last();
            let f = b.fragments().len();
            let c = b.chunks().len();
            &&& nb.segments().len() == b.segments().len() + 1
            &&& nb.segments().drop_last() == b.segments()
            &&& seg.track == self.index
            &&& seg.info.sequence@ == self.sequence
            &&& seg.info.priority == spec_priority(ms)
            &&& seg.info.expires_ms == Some(SEGMENT_EXPIRY_MS)
            &&& nb.fragments().len() == f + 1
            &&& nb.fragments()[f as int].segment == b.segments().len()
            &&& nb.chunks().len() == c + 2
            &&& nb.chunks().subrange(0, c as int) == b.chunks()
            &&& nb.chunks()[c as int].fragment == f && nb.chunks()[c as int].bytes@ == prft
            &&& nb.chunks()[c as int + 1].fragment == f && nb.chunks()[c as int + 1].bytes@ == raw
            &&& new == (Track { sequence: (self.sequence + 1) as u64, current: Some(f as usize), ..self })
        })
        &&& (r is Ok && !starts ==> {
            let f = self.current->Some_0;
            let c = b.chunks().len();
            &&& nb.segments() == b.segments()
            &&& nb.chunks().len() == c + 2
            &&& nb.chunks().subrange(0, c as int) == b.chunks()
            &&& nb.chunks()[c as int].fragment == f && nb.chunks()[c as int].bytes@ == prft
            &&& nb.chunks()[c as int + 1].fragment == f && nb.chunks()[c as int + 1].bytes@ == raw
            &&& new == self
        })
    }

    /// What publishing the `mdat` `raw` does to the cache, from `b` to `nb`.
    pub open spec fn data_effect(self, b: Broadcast, nb: Broadcast, raw: Seq<u8>, r: Result<(), IngestError>) -> bool {
        &&& nb.tracks() == b.tracks()
        &&& nb.segments() == b.segments()
        &&& nb.closed() == b.closed()
        &&& (self.current is None ==> r == Err::<(), IngestError>(IngestError::MissingFragment))
        &&& (r is Err ==> nb.chunks() == b.chunks())
        &&& (self.current is Some && b.fragments()[self.current->Some_0 as int].total + raw.len() > u64::MAX ==> r == Err::<(), IngestError>(IngestError::FragmentTooLarge))
        &&& (self.current is Some && b.fragments()[self.current->Some_0 as int].total + raw.len() <= u64::MAX ==> match b.closed() {
            Some(e) => r == Err::<(), IngestError>(IngestError::Cache(e)),
            None => r is Ok,
        })
        &&& (r is Ok ==> nb.chunks().len() == b.chunks().len() + 1
            && nb.chunks().drop_last() == b.chunks()
            && nb.chunks().last().fragment == self.current->Some_0
            && nb.chunks().last().bytes@ == raw)
    }

    /// A track of another cache track stays in step when the cache grows for `index`.
    pub proof fn lemma_in_step_frame(self, b0: Broadcast, b1: Broadcast, index: usize)
        requires
            self.in_step(b0),
            b1.wf(),
            self.index != index,
            extends_for(b0, b1, index),
        ensures
            self.in_step(b1),
    {
        assert forall|i: int|
            0 <= i < b1.segments().len() && #[trigger] b1.segments()[i].track == self.index
                implies b1.segments()[i].info.sequence@ < self.sequence by {
            if i >= b0.segments().len() {
                assert(b1.segments()[i].track == index);
            } else {
                assert(b1.segments()[i] == b0.segments()[i]);
            }
        }
        if self.current is Some {
            let g = self.current->Some_0 as int;
            assert(b1.fragments()[g].size == b0.fragments()[g].size);
        }
    }

    /// Publishes a `moof` atom: a keyframe, or the first `moof` of the track,
    /// starts a new segment; any other extends the current one.
    pub fn header(&mut self, b: &mut Broadcast, raw: Vec<u8>, frag: Fragment) -> (r: Result<(), IngestError>)
        requires
            old(self).in_step(*old(b)),
        ensures
            final(self).in_step(*final(b)),
            final(self).id == old(self).id,
            final(self).index == old(self).index,
            extends_for(*old(b), *final(b), old(self).index),
            old(self).header_effect(*old(b), *final(self), *final(b), raw@, frag, r),
    {
        let tr = *self;
        let prft = match tr.last_prft.encode() {
            Ok(p) => p,
            Err(e) => return Err(IngestError::Prft(e)),
        };
        let ghost start = *b;
        if tr.current.is_some() && !frag.keyframe {
            let f = tr.current.unwrap();
            match append(b, f, prft) {
                Ok(()) => {},
                Err(e) => return Err(e),
            }
            let ghost mid = b.chunks();
            match append(b, f, raw) {
                Ok(()) => {},
                Err(e) => return Err(e),
            }
            proof {
                let c = start.chunks().len() as int;
                assert(b.chunks().subrange(0, c) =~= start.chunks());
                assert(b.chunks()[c] == mid[c]);
            }
            return Ok(());
        }
        if tr.timescale == 0 {
            return Err(IngestError::ZeroTimescale);
        }
        let ms = frag.timestamp(tr.timescale);
        if ms > u32::MAX as u128 {
            return Err(IngestError::TimestampTooLarge);
        }
        let sequence = match VarInt::try_from_u64(tr.sequence) {
            Ok(v) => v,
            Err(_) => return Err(IngestError::SequenceTooLarge),
        };
        if raw.len() as u128 + prft.len() as u128 > u64::MAX as u128 {
            return Err(IngestError::FragmentTooLarge);
        }
        let priority = u32::MAX - ms as u32;
        let info = SegmentInfo { sequence, priority, expires_ms: Some(SEGMENT_EXPIRY_MS) };
        let segment = match b.create_segment(tr.index, info) {
            Ok(s) => s,
            Err(e) => return Err(IngestError::Cache(e)),
        };
        proof {
            assert(b.closed() is None);
            assert(!b.segments()[segment as int].finished);
        }
        let fragment = match b.final_fragment(segment, VarInt::zero()) {
            Ok(f) => f,
            Err(e) => return Err(IngestError::Cache(e)),
        };
        *self = Track { sequence: tr.sequence + 1, current: Some(fragment), ..tr };
        proof {
            assert(b.fragments()[fragment as int].total == 0);
            assert(b.segments().drop_last() =~= start.segments());
        }
        match append(b, fragment, prft) {
            Ok(()) => {},
            Err(e) => return Err(e),
        }
        let ghost mid = b.chunks();
        match append(b, fragment, raw) {
            Ok(()) => {},
            Err(e) => return Err(e),
        }
        proof {
            let c = start.chunks().len() as int;
            assert(b.chunks().subrange(0, c) =~= start.chunks());
            assert(b.chunks()[c] == mid[c]);
            assert(b.segments().drop_last() =~= start.segments());
        }
        Ok(())
    }

    /// Publishes an `mdat` atom, extending the current segment.
    pub fn data(&self, b: &mut Broadcast, raw: Vec<u8>) -> (r: Result<(), IngestError>)
        requires
            self.in_step(*old(b)),
        ensures
            self.in_step(*final(b)),
            extends_for(*old(b), *final(b), self.index),
            self.data_effect(*old(b), *final(b), raw@, r),
    {
        let f = match self.current {
            Some(f) => f,
            None => return Err(IngestError::MissingFragment),
        };
        let r = append(b, f, raw);
        proof {
            if r is Ok {
                assert(b.chunks().drop_last() =~= old(b).chunks());
            }
        }
        r
    }
}

/// A keyframe `moof` of a track with timescale `T`, whose first sample plays at
/// `D`, opens one new segment of that track with priority `u32::MAX - 1000 * D / T`
/// and a ten-second expiry, whenever the cache is open and the limits hold.
pub proof fn lemma_keyframe_segment(
    tr: Track,
    b: Broadcast,
    new: Track,
    nb: Broadcast,
    raw: Seq<u8>,
    frag: Fragment,
    r: Result<(), IngestError>,
)
    requires
        tr.header_effect(b, new, nb, raw, frag, r),
        frag.keyframe,
        b.closed() is None,
        tr.header_fits(b, raw, frag),
    ensures
        r is Ok,
        nb.segments().len() == b.segments().len() + 1,
        nb.segments().last().track == tr.index,
        nb.segments().last().info.priority as int == u32::MAX as int - 1000 * (frag.timestamp as int) / (tr.timescale as int),
        nb.segments().last().info.expires_ms == Some(SEGMENT_EXPIRY_MS),
{
}

/// Appends a chunk to fragment `f`, checking that the fragment's length still fits.
fn append(b: &mut Broadcast, f: usize, bytes: Vec<u8>) -> (r: Result<(), IngestError>)
    requires
        old(b).wf(),
        f < old(b).fragments().len(),
        old(b).fragments()[f as int].size is None,
    ensures
        final(b).wf(),
        final(b).tracks() == old(b).tracks(),
        final(b).segments() == old(b).segments(),
        final(b).closed() == old(b).closed(),
        final(b).fragments().len() == old(b).fragments().len(),
        forall|g: int| 0 <= g < old(b).fragments().len() ==> {
            let a = #[trigger] final(b).fragments()[g];
            let o = old(b).fragments()[g];
            a.segment == o.segment && a.size == o.size && a.finished == o.finished
        },
        r is Err ==> final(b).chunks() == old(b).chunks(),
        old(b).fragments()[f as int].total + bytes@.len() > u64::MAX ==> r == Err::<(), IngestError>(IngestError::FragmentTooLarge),
        old(b).fragments()[f as int].total + bytes@.len() <= u64::MAX ==> match old(b).closed() {
            Some(e) => r == Err::<(), IngestError>(IngestError::Cache(e)),
            None => !old(b).fragments()[f as int].finished ==> r is Ok,
        },
        r is Ok ==> final(b).fragments()[f as int].total == old(b).fragments()[f as int].total + bytes@.len(),
        r is Ok ==> final(b).chunks() == old(b).chunks().push(final(b).chunks().last())
            && final(b).chunks().last().fragment == f
            && final(b).chunks().last().bytes@ == bytes@,
{
    let total = b.fragment_entry(f).total;
    if bytes.len() as u128 > (u64::MAX - total) as u128 {
        return Err(IngestError::FragmentTooLarge);
    }
    let ghost prev = b.chunks();
    let res = b.chunk(f, bytes);
    proof {
        if res is Ok {
            assert(b.chunks() =~= prev.push(b.chunks().last()));
        }
    }
    match res {
        Ok(()) => Ok(()),
        Err(e) => Err(IngestError::Cache(e)),
    }
}

/// The whole ingest state.
pub struct Media {
    pub broadcast: Broadcast,
    pub init_track: usize,
    pub catalog_track: Option<usize>,
    /// The media tracks, by MP4 track id.
    pub tracks: HashMap<u32, Track>,
    pub expect: Expect,
}

impl Media {
    /// The track of MP4 id `id` is in step with the cache.
    pub open spec fn track_wf(&self, id: u32) -> bool {
        &&& self.tracks@[id].in_step(self.broadcast)
        &&& self.tracks@[id].index != self.init_track
        &&& self.tracks@[id].id == id
    }

    pub open spec fn wf(&self) -> bool {
        &&& self.broadcast.wf()
        &&& self.init_track < self.broadcast.tracks().len()
        &&& forall|id: u32| #[trigger] self.tracks@.contains_key(id) ==> self.track_wf(id)
        &&& forall|a: u32, c: u32|
            self.tracks@.contains_key(a) && self.tracks@.contains_key(c) && a != c ==> (#[trigger] self.tracks@[a]).index
                != (#[trigger] self.tracks@[c]).index
    }

    /// Ingests a `moof` atom, given what its box says.
    pub fn moof(&mut self, atom: Vec<u8>, moof: &Moof) -> (r: Result<(), IngestError>)
        requires
            old(self).wf(),
        ensures
            final(self).wf(),
            final(self).init_track == old(self).init_track,
            final(self).catalog_track == old(self).catalog_track,
            match spec_fragment(*moof) {
                Err(e) => r == Err::<(), IngestError>(IngestError::Moof(e)) && final(self).expect == old(self).expect,
                Ok(frag) => if !old(self).tracks@.contains_key(frag.track) {
                    r == Err::<(), IngestError>(IngestError::UnknownTrack(frag.track)) && final(self).expect == old(self).expect
                } else if old(self).expect != Expect::Moof {
                    r == Err::<(), IngestError>(IngestError::MultipleMoof) && final(self).expect == old(self).expect
                } else {
                    final(self).expect == Expect::Mdat(frag.track)
                        && final(self).tracks@ == old(self).tracks@.insert(frag.track, final(self).tracks@[frag.track])
                        && old(self).tracks@[frag.track].header_effect(old(self).broadcast, final(self).tracks@[frag.track], final(self).broadcast, atom@, frag, r)
                },
            },
    {
        let frag = match Fragment::new(moof) {
            Ok(f) => f,
            Err(e) => return Err(IngestError::Moof(e)),
        };
        let found = match self.tracks.get(&frag.track) {
            Some(t) => *t,
            None => return Err(IngestError::UnknownTrack(frag.track)),
        };
        if self.expect != Expect::Moof {
            return Err(IngestError::MultipleMoof);
        }
        self.expect = Expect::Mdat(frag.track);
        proof {
            lemma_wf_frame(*old(self), *self);
        }
        let ghost before = *self;
        let mut tr = found;
        proof {
            assert(before.track_wf(frag.track));
        }
        let r = tr.header(&mut self.broadcast, atom, frag);
        self.tracks.insert(frag.track, tr);
        proof {
            lemma_tracks_follow(before, *self, frag.track);
        }
        r
    }

    /// Ingests an `mdat` atom: it belongs to the `moof` before it.
    pub fn mdat(&mut self, atom: Vec<u8>) -> (r: Result<(), IngestError>)
        requires
            old(self).wf(),
        ensures
            final(self).wf(),
            final(self).init_track == old(self).init_track,
            final(self).catalog_track == old(self).catalog_track,
            match old(self).expect {
                Expect::Moof => r == Err::<(), IngestError>(IngestError::MissingMoof) && final(self).expect == old(self).expect,
                Expect::Mdat(id) => final(self).expect == Expect::Moof && if !old(self).tracks@.contains_key(id) {
                    r == Err::<(), IngestError>(IngestError::UnknownTrack(id))
                } else {
                    final(self).tracks@ == old(self).tracks@
                        && old(self).tracks@[id].data_effect(old(self).broadcast, final(self).broadcast, atom@, r)
                },
            },
    {
        let id = match self.expect {
            Expect::Moof => return Err(IngestError::MissingMoof),
            Expect::Mdat(id) => id,
        };
        self.expect = Expect::Moof;
        proof {
            lemma_wf_frame(*old(self), *self);
        }
        let tr = match self.tracks.get(&id) {
            Some(t) => *t,
            None => return Err(IngestError::UnknownTrack(id)),
        };
        let ghost before = *self;
        proof {
            assert(before.track_wf(id));
        }
        let r = tr.data(&mut self.broadcast, atom);
        proof {
            assert(self.tracks@ =~= before.tracks@.insert(id, self.tracks@[id]));
            lemma_tracks_follow(before, *self, id);
        }
        r
    }

    /// Keeps `p` as every track's latest `prft`, each with its own track id.
    pub fn set_prft(&mut self, p: Prft)
        requires
            old(self).wf(),
            p.version <= 1,
        ensures
            final(self).wf(),
            final(self).init_track == old(self).init_track,
            final(self).catalog_track == old(self).catalog_track,
            final(self).expect == old(self).expect,
            final(self).broadcast == old(self).broadcast,
            final(self).tracks@.dom() == old(self).tracks@.dom(),
            forall|id: u32| #[trigger] old(self).tracks@.contains_key(id) ==> final(self).tracks@[id] == (Track {
                last_prft: (Prft { reference_track_id: id, ..p }),
                ..old(self).tracks@[id]
            }),
    {
        let mut ids: Vec<u32> = Vec::new();
        for k in it: self.tracks.keys()
            invariant
                ids@.len() == it.index(),
                forall|j: int| 0 <= j < ids@.len() ==> ids@[j] == *it.seq()[j],
                it.seq() == vstd::std_specs::hash::spec_keys_iter(&self.tracks).remaining(),
        {
            ids.push(*k);
        }
        assert(ids@ =~= vstd::std_specs::hash::spec_keys_iter(&self.tracks).remaining().unref());
        let ghost start = self.tracks@;
        let mut i: usize = 0;
        while i < ids.len()
            invariant
                i <= ids@.len(),
                ids@.to_set() == start.dom(),
                self.tracks@.dom() == start.dom(),
                self.broadcast == old(self).broadcast,
                self.init_track == old(self).init_track,
                self.catalog_track == old(self).catalog_track,
                self.expect == old(self).expect,
                start == old(self).tracks@,
                forall|id: u32| #[trigger] start.contains_key(id) ==> (self.tracks@[id] == start[id]
                    || self.tracks@[id] == (Track { last_prft: (Prft { reference_track_id: id, ..p }), ..start[id] })),
                forall|j: int| 0 <= j < i ==> #[trigger] self.tracks@[ids@[j]] == (Track {
                    last_prft: (Prft { reference_track_id: ids@[j], ..p }),
                    ..start[ids@[j]]
                }),
            decreases ids@.len() - i,
        {
            let id = ids[i];
            proof {
                assert(ids@.to_set().contains(id));
            }
            let tr = match self.tracks.get(&id) {
                Some(t) => *t,
                None => {
                    proof {
                        assert(false);
                    }
                    i += 1;
                    continue;
                },
            };
            self.tracks.insert(id, Track { last_prft: Prft { reference_track_id: id, ..p }, ..tr });
            i += 1;
        }
        proof {
            assert forall|id: u32| #[trigger] start.contains_key(id) implies self.tracks@[id] == (Track {
                last_prft: (Prft { reference_track_id: id, ..p }),
                ..start[id]
            }) by {
                assert(ids@.to_set().contains(id));
                let j = choose|j: int| 0 <= j < ids@.len() && ids@[j] == id;
                assert(self.tracks@[ids@[j]] == self.tracks@[id]);
            }
            assert forall|id: u32| #[trigger] self.tracks@.contains_key(id) implies self.track_wf(id) by {
                assert(old(self).track_wf(id));
            }
            assert forall|a: u32, c: u32|
                self.tracks@.contains_key(a) && self.tracks@.contains_key(c) && a != c implies (#[trigger] self.tracks@[a]).index
                    != (#[trigger] self.tracks@[c]).index by {
                assert(old(self).tracks@[a].index != old(self).tracks@[c].index);
            }
        }
    }

    /// Ingests a `prft` atom.
    pub fn prft(&mut self, atom: &[u8]) -> (r: Result<(), IngestError>)
        requires
            old(self).wf(),
        ensures
            final(self).wf(),
            final(self).broadcast == old(self).broadcast,
            final(self).expect == old(self).expect,
            r is Ok <==> prft_decodes(atom@),
            r is Err ==> final(self).tracks == old(self).tracks,
            r is Ok ==> final(self).tracks@.dom() == old(self).tracks@.dom() && forall|id: u32| #[trigger] old(self).tracks@.contains_key(id) ==>
                final(self).tracks@[id] == (Track {
                    last_prft: (Prft { reference_track_id: id, ..spec_prft_of(atom@) }),
                    ..old(self).tracks@[id]
                }),
    {
        let p = match Prft::decode(atom) {
            Ok(p) => p,
            Err(e) => return Err(IngestError::Prft(e)),
        };
        self.set_prft(p);
        Ok(())
    }

    /// Publishes the catalog track: one segment with one fragment holding `catalog`.
    pub fn serve_catalog(&mut self, catalog: Vec<u8>) -> (r: Result<(), IngestError>)
        requires
            old(self).wf(),
        ensures
            final(self).wf(),
            final(self).tracks == old(self).tracks,
            final(self).expect == old(self).expect,
            old(self).broadcast.closed() is Some ==> r == Err::<(), IngestError>(IngestError::Cache(old(self).broadcast.closed()->Some_0)),
            old(self).broadcast.closed() is None && old(self).broadcast.has_track(catalog_track_name()) ==> r == Err::<(), IngestError>(IngestError::Cache(CacheError::Duplicate)),
            old(self).broadcast.closed() is None && !old(self).broadcast.has_track(catalog_track_name()) && catalog@.len() <= u64::MAX ==> r is Ok,
            r is Ok ==> {
                let b = old(self).broadcast;
                let nb = final(self).broadcast;
                &&& final(self).catalog_track == Some(b.tracks().len() as usize)
                &&& nb.tracks().len() == b.tracks().len() + 1
                &&& nb.tracks().last().name@ == catalog_track_name()
                &&& nb.segments().len() == b.segments().len() + 1
                &&& nb.segments().last().track == b.tracks().len()
                &&& nb.segments().last().info.sequence@ == 0
                &&& nb.segments().last().info.priority == 0
                &&& nb.segments().last().info.expires_ms is None
                &&& nb.segments().last().finished
                &&& nb.fragments().len() == b.fragments().len() + 1
                &&& nb.fragments().last().segment == b.segments().len()
                &&& nb.chunks().len() == b.chunks().len() + 1
                &&& nb.chunks().last().fragment == b.fragments().len()
                &&& nb.chunks().last().bytes@ == catalog@
            },
    {
        let ghost start = *self;
        proof {
            reveal_strlit(".catalog");
        }
        let name = String::from_str(".catalog");
        let track = match self.broadcast.create_track(name) {
            Ok(t) => t,
            Err(e) => {
                proof {
                    assert forall|u: u32| #[trigger] self.tracks@.contains_key(u) implies self.track_wf(u) by {
                        assert(start.track_wf(u));
                    }
                }
                return Err(IngestError::Cache(e));
            },
        };
        proof {
            assert forall|u: u32| #[trigger] self.tracks@.contains_key(u) implies self.track_wf(u) by {
                assert(start.track_wf(u));
                assert(self.broadcast.tracks()[self.tracks@[u].index as int] == start.broadcast.tracks()[self.tracks@[u].index as int]);
            }
        }
        let info = SegmentInfo { sequence: VarInt::zero(), priority: 0, expires_ms: None };
        let ghost mid = *self;
        let segment = match self.broadcast.create_segment(track, info) {
            Ok(s) => s,
            Err(e) => return Err(IngestError::Cache(e)),
        };
        proof {
            assert forall|u: u32| #[trigger] self.tracks@.contains_key(u) implies self.track_wf(u) by {
                assert(mid.track_wf(u));
                assert(start.track_wf(u));
            }
        }
        let ghost mid2 = *self;
        let fragment = match self.broadcast.final_fragment(segment, VarInt::zero()) {
            Ok(f) => f,
            Err(e) => return Err(IngestError::Cache(e)),
        };
        proof {
            assert forall|u: u32| #[trigger] self.tracks@.contains_key(u) implies self.track_wf(u) by {
                assert(mid2.track_wf(u));
            }
        }
        let ghost before = *self;
        self.catalog_track = Some(track);
        proof {
            lemma_wf_frame(before, *self);
        }
        let ghost before = *self;
        let r = append(&mut self.broadcast, fragment, catalog);
        proof {
            assert forall|u: u32| #[trigger] self.tracks@.contains_key(u) implies self.track_wf(u) by {
                assert(before.track_wf(u));
                assert(start.track_wf(u));
                assert(self.tracks@[u].index < track);
                self.tracks@[u].lemma_in_step_frame(before.broadcast, self.broadcast, track);
            }
        }
        proof {
            if r is Ok {
                assert(self.broadcast.chunks().drop_last() =~= start.broadcast.chunks());
            }
        }
        r
    }

    /// Publishes the init track from the `ftyp` and `moov` atoms, and an empty
    /// track for each `trak`.
    pub fn new(ftyp: Vec<u8>, moov: Vec<u8>, traks: &Vec<TrakInfo>) -> (r: Result<Media, IngestError>)
        ensures
            (ftyp@.len() < 8 || be_value(ftyp@.subrange(4, 8)) != FTYP) ==> r == Err::<Media, IngestError>(
                IngestError::ExpectedFtyp,
            ),
            ftyp@.len() >= 8 && be_value(ftyp@.subrange(4, 8)) == FTYP && (moov@.len() < 8 || be_value(
                moov@.subrange(4, 8),
            ) != MOOV) ==> r == Err::<Media, IngestError>(IngestError::ExpectedMoov),
            init_atoms_ok(ftyp@, moov@) ==> (r is Ok <==> distinct_ids(traks@) && ftyp@.len() + moov@.len() <= u64::MAX),
            init_atoms_ok(ftyp@, moov@) && ftyp@.len() + moov@.len() <= u64::MAX && !distinct_ids(traks@)
                ==> r == Err::<Media, IngestError>(IngestError::Cache(CacheError::Duplicate)),
            r is Ok ==> ({
                let m = r->Ok_0;
                let b = m.broadcast;
                &&& m.wf()
                &&& m.expect == Expect::Moof
                &&& m.catalog_track is None
                &&& b.closed() is None
                &&& b.tracks().len() == traks@.len() + 1
                &&& b.tracks()[m.init_track as int].name@ == init_track_name()
                &&& b.segments().len() == 1
                &&& b.segments()[0].track == m.init_track
                &&& b.segments()[0].info.sequence@ == 0
                &&& b.segments()[0].info.priority == 0
                &&& b.segments()[0].info.expires_ms is None
                &&& b.segments()[0].finished
                &&& b.fragments().len() == 1
                &&& b.fragments()[0].segment == 0
                &&& b.chunks().len() == 1
                &&& b.chunks()[0].fragment == 0
                &&& b.chunks()[0].bytes@ == ftyp@ + moov@
                &&& forall|id: u32| #[trigger] m.tracks@.contains_key(id) ==> exists|k: int|
                    0 <= k < traks@.len() && traks@[k].track_id == id
                &&& forall|k: int| 0 <= k < traks@.len() ==> {
                    let tr = m.tracks@[(#[trigger] traks@[k]).track_id];
                    &&& m.tracks@.contains_key(traks@[k].track_id)
                    &&& tr.id == traks@[k].track_id
                    &&& tr.timescale == traks@[k].timescale as u64
                    &&& tr.sequence == 0
                    &&& tr.current is None
                    &&& tr.last_prft == Prft::spec_zeroed()
                    &&& b.tracks()[tr.index as int].name@ == data_track_name(tr.id)
                }
            }),
    {
        let fk = atom_kind(ftyp.as_slice());
        if fk.is_none() || fk.unwrap() != FTYP {
            return Err(IngestError::ExpectedFtyp);
        }
        let mk = atom_kind(moov.as_slice());
        if mk.is_none() || mk.unwrap() != MOOV {
            return Err(IngestError::ExpectedMoov);
        }
        proof {
            assert(be_value(ftyp@.subrange(4, 8)) == FTYP);
        }
        let mut broadcast = Broadcast::new();
        let init_track = match broadcast.create_track(String::from_str("0.mp4")) {
            Ok(t) => t,
            Err(e) => return Err(IngestError::Cache(e)),
        };
        let info = SegmentInfo { sequence: VarInt::zero(), priority: 0, expires_ms: None };
        let segment = match broadcast.create_segment(init_track, info) {
            Ok(s) => s,
            Err(e) => return Err(IngestError::Cache(e)),
        };
        let fragment = match broadcast.final_fragment(segment, VarInt::zero()) {
            Ok(f) => f,
            Err(e) => return Err(IngestError::Cache(e)),
        };
        let ghost ftyp_bytes = ftyp@;
        let mut init = ftyp;
        let mut moov_copy = moov;
        init.append(&mut moov_copy);
        proof {
            assert(init@.len() == ftyp@.len() + moov@.len());
        }
        if init.len() as u128 > u64::MAX as u128 {
            return Err(IngestError::FragmentTooLarge);
        }
        match broadcast.chunk(fragment, init) {
            Ok(()) => {},
            Err(e) => return Err(IngestError::Cache(e)),
        }
        let mut tracks: HashMap<u32, Track> = HashMap::new();
        let mut k: usize = 0;
        while k < traks.len()
            invariant
                ftyp_bytes == ftyp@,
                ftyp@.len() + moov@.len() <= u64::MAX,
                distinct_ids(traks@.take(k as int)),
                ftyp_bytes.len() >= 8 && be_value(ftyp_bytes.subrange(4, 8)) == FTYP,
                moov@.len() >= 8 && be_value(moov@.subrange(4, 8)) == MOOV,
                k <= traks@.len(),
                broadcast.wf(),
                broadcast.closed() is None,
                init_track == 0,
                broadcast.tracks().len() == k + 1,
                broadcast.tracks()[0].name@ == init_track_name(),
                broadcast.segments().len() == 1,
                broadcast.segments()[0].track == init_track,
                broadcast.segments()[0].info.sequence@ == 0,
                broadcast.segments()[0].info.priority == 0,
                broadcast.segments()[0].info.expires_ms is None,
                broadcast.segments()[0].finished,
                broadcast.fragments().len() == 1,
                broadcast.fragments()[0].segment == 0,
                broadcast.chunks().len() == 1,
                broadcast.chunks()[0].fragment == 0,
                broadcast.chunks()[0].bytes@ == ftyp_bytes + moov@,
                forall|id: u32| #[trigger] tracks@.contains_key(id) ==> exists|j: int|
                    0 <= j < k && traks@[j].track_id == id,
                forall|j: int| 0 <= j < k ==> {
                    let id = (#[trigger] traks@[j]).track_id;
                    &&& tracks@.contains_key(id)
                    &&& tracks@[id] == (Track {
                        id,
                        index: (j + 1) as usize,
                        current: None,
                        last_prft: Prft::spec_zeroed(),
                        timescale: traks@[j].timescale as u64,
                        sequence: 0,
                    })
                    &&& !broadcast.tracks()[j + 1].finished
                    &&& broadcast.tracks()[j + 1].name@ == data_track_name(id)
                },
            decreases traks@.len() - k,
        {
            let id = traks[k].track_id;
            let mut name = String::new();
            push_decimal(&mut name, id as u64);
            name.append(".m4s");
            let ghost name_view = name@;
            proof {
                reveal_strlit(".m4s");
                assert(name_view == data_track_name(id));
            }
            let index = match broadcast.create_track(name) {
                Ok(i) => i,
                Err(e) => {
                    proof {
                        let i = choose|i: int| 0 <= i < broadcast.tracks().len() && #[trigger] broadcast.tracks()[i].name@ == name_view;
                        lemma_track_names(id, id);
                        if i > 0 {
                            let j = i - 1;
                            assert(traks@[j].track_id == traks@[j].track_id);
                            lemma_track_names(traks@[j].track_id, id);
                            assert(traks@[j].track_id == traks@[k as int].track_id);
                        }
                    }
                    return Err(IngestError::Cache(e));
                },
            };
            proof {
                // Distinct ids follow from distinct names.
                assert forall|j: int| 0 <= j < k implies (#[trigger] traks@[j]).track_id != id by {
                    if traks@[j].track_id == id {
                        assert(broadcast.tracks().drop_last()[j + 1].name@ == name_view);
                    }
                }
            }
            let ghost prev = tracks@;
            tracks.insert(
                id,
                Track {
                    id,
                    index,
                    current: None,
                    last_prft: Prft::zeroed(),
                    timescale: traks[k].timescale as u64,
                    sequence: 0,
                },
            );
            proof {
                let kk = k as int;
                assert forall|a: int, c: int| 0 <= a < c < kk + 1 implies #[trigger] traks@.take(kk + 1)[a].track_id
                    != #[trigger] traks@.take(kk + 1)[c].track_id by {
                    if c < kk {
                        assert(traks@.take(kk)[a] == traks@[a]);
                        assert(traks@.take(kk)[c] == traks@[c]);
                    } else {
                        assert(traks@[a].track_id != id);
                    }
                }
                assert forall|j: int| 0 <= j < kk + 1 implies {
                    let jd = (#[trigger] traks@[j]).track_id;
                    &&& tracks@.contains_key(jd)
                    &&& tracks@[jd] == (Track {
                        id: jd,
                        index: (j + 1) as usize,
                        current: None,
                        last_prft: Prft::spec_zeroed(),
                        timescale: traks@[j].timescale as u64,
                        sequence: 0,
                    })
                    &&& !broadcast.tracks()[j + 1].finished
                    &&& broadcast.tracks()[j + 1].name@ == data_track_name(jd)
                } by {
                    if j < kk {
                        assert(traks@[j].track_id != id);
                        assert(broadcast.tracks()[j + 1] == broadcast.tracks().drop_last()[j + 1]);
                    }
                }
                assert forall|d: u32| #[trigger] tracks@.contains_key(d) implies exists|j: int|
                    0 <= j < kk + 1 && traks@[j].track_id == d by {
                    if d != id {
                        assert(prev.contains_key(d));
                    } else {
                        assert(traks@[kk].track_id == d);
                    }
                }
            }
            k += 1;
        }
        proof {
            assert(traks@.take(traks@.len() as int) =~= traks@);
        }
        let m = Media { broadcast, init_track, catalog_track: None, tracks, expect: Expect::Moof };
        proof {
            assert forall|d: u32| #[trigger] m.tracks@.contains_key(d) implies m.track_wf(d) by {
                let j = choose|j: int| 0 <= j < traks@.len() && traks@[j].track_id == d;
                assert(traks@[j].track_id == d);
                let tr = m.tracks@[d];
                assert forall|i: int|
                    0 <= i < m.broadcast.segments().len() && #[trigger] m.broadcast.segments()[i].track
                        == tr.index implies m.broadcast.segments()[i].info.sequence@ < tr.sequence by {
                    assert(i == 0);
                }
            }
            assert forall|a: u32, c: u32|
                m.tracks@.contains_key(a) && m.tracks@.contains_key(c) && a != c implies (#[trigger] m.tracks@[a]).index
                    != (#[trigger] m.tracks@[c]).index by {
                let ja = choose|j: int| 0 <= j < traks@.len() && traks@[j].track_id == a;
                let jc = choose|j: int| 0 <= j < traks@.len() && traks@[j].track_id == c;
                assert(traks@[ja].track_id == a);
                assert(traks@[jc].track_id == c);
            }
        }
        Ok(m)
    }
}

/// Changing only which atom is expected, or the catalog track, keeps the ingest in step.
proof fn lemma_wf_frame(a: Media, c: Media)
    requires
        a.wf(),
        c.broadcast == a.broadcast,
        c.tracks@ == a.tracks@,
        c.init_track == a.init_track,
    ensures
        c.wf(),
{
    assert forall|u: u32| #[trigger] c.tracks@.contains_key(u) implies c.track_wf(u) by {
        assert(a.track_wf(u));
    }
}

/// After the track of id `t` was published through, with the cache extended for
/// its cache track only, every track is still in step.
proof fn lemma_tracks_follow(a: Media, c: Media, t: u32)
    requires
        a.wf(),
        a.tracks@.contains_key(t),
        c.init_track == a.init_track,
        c.tracks@ == a.tracks@.insert(t, c.tracks@[t]),
        c.tracks@[t].index == a.tracks@[t].index,
        c.tracks@[t].id == a.tracks@[t].id,
        c.tracks@[t].in_step(c.broadcast),
        extends_for(a.broadcast, c.broadcast, a.tracks@[t].index),
    ensures
        c.wf(),
{
    assert(a.track_wf(t));
    assert forall|u: u32| #[trigger] c.tracks@.contains_key(u) implies c.track_wf(u) by {
        assert(a.track_wf(u));
        if u != t {
            assert(a.tracks@[u].index != a.tracks@[t].index);
            a.tracks@[u].lemma_in_step_frame(a.broadcast, c.broadcast, a.tracks@[t].index);
        }
    }
    assert forall|x: u32, y: u32|
        c.tracks@.contains_key(x) && c.tracks@.contains_key(y) && x != y implies (#[trigger] c.tracks@[x]).index
            != (#[trigger] c.tracks@[y]).index by {
        assert(a.tracks@[x].index != a.tracks@[y].index);
    }
}

} // verus!
