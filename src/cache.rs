//! The media cache: one broadcast holding tracks, each track an ordered run of
//! segments, each segment an ordered run of fragments, each fragment an ordered
//! run of byte chunks. Everything is append-only and kept in four logs, one per
//! level, each entry naming its parent. A reader is a cursor into one log:
//! it moves forward to the next entry of its parent, so it sees every entry of
//! that parent, in the order in which the producer appended them.
use crate::error::CacheError;
use crate::varint::VarInt;
use vstd::prelude::*;

verus! {

/// How a segment is to be delivered.
#[derive(Clone, Copy, Debug, PartialEq, Eq, Structural)]
pub struct SegmentInfo {
    /// The group number on the wire.
    pub sequence: VarInt,
    /// Higher is more urgent.
    pub priority: u32,
    /// Milliseconds after which caches may drop the segment; `None` keeps it.
    pub expires_ms: Option<u64>,
}

#[derive(Clone, Debug)]
pub struct TrackEntry {
    pub name: String,
    /// No segment will be added.
    pub finished: bool,
}

#[derive(Clone, Copy, Debug)]
pub struct SegmentEntry {
    pub track: usize,
    pub info: SegmentInfo,
    /// No fragment will be added.
    pub finished: bool,
}

#[derive(Clone, Copy, Debug)]
pub struct FragmentEntry {
    pub segment: usize,
    pub sequence: VarInt,
    /// The declared total length of the chunks, if any.
    pub size: Option<u64>,
    /// The total length of the chunks appended so far.
    pub total: u64,
    /// No chunk will be added.
    pub finished: bool,
}

#[derive(Clone, Debug)]
pub struct ChunkEntry {
    pub fragment: usize,
    pub bytes: Vec<u8>,
}

/// What a reader gets when it asks for the next entry.
#[derive(Clone, Copy, Debug, PartialEq, Eq, Structural)]
pub enum Next<T> {
    /// The next entry.
    Item(T),
    /// Nothing yet: ask again once the producer has written more.
    Pending,
    /// The parent is finished and every entry of it has been read.
    End,
    /// The broadcast was closed with this error and every entry has been read.
    Failed(CacheError),
}

/// The result of a read, given the index `k` of the first matching entry at or
/// after the reader's position in a log of length `len`.
pub open spec fn outcome<T>(k: int, len: int, closed: Option<CacheError>, finished: bool, item: T) -> Next<T> {
    if k < len {
        Next::Item(item)
    } else {
        match closed {
            Some(e) => Next::Failed(e),
            None => if finished {
                Next::End
            } else {
                Next::Pending
            },
        }
    }
}

/// The first index at or after `pos` whose parent is `parent`, or the length.
pub open spec fn first_child(parents: Seq<usize>, parent: usize, pos: int) -> int
    decreases parents.len() - pos,
{
    if pos < 0 || pos >= parents.len() {
        parents.len() as int
    } else if parents[pos] == parent {
        pos
    } else {
        first_child(parents, parent, pos + 1)
    }
}

/// The total length of the chunks of fragment `f` in `chunks`.
pub open spec fn chunk_total(chunks: Seq<ChunkEntry>, f: int) -> nat
    decreases chunks.len(),
{
    if chunks.len() == 0 {
        0
    } else {
        chunk_total(chunks.drop_last(), f) + if chunks.last().fragment as int == f {
            chunks.last().bytes@.len()
        } else {
            0
        }
    }
}

/// A broadcast: the producer writes through `&mut` methods, readers hold cursors.
pub struct Broadcast {
    tracks: Vec<TrackEntry>,
    segments: Vec<SegmentEntry>,
    fragments: Vec<FragmentEntry>,
    chunks: Vec<ChunkEntry>,
    closed: Option<CacheError>,
}

/// A cursor over the segments of one track.
#[derive(Clone, Copy, Debug, PartialEq, Eq, Structural)]
pub struct TrackReader {
    pub track: usize,
    pub pos: usize,
}

/// A cursor over the fragments of one segment.
#[derive(Clone, Copy, Debug, PartialEq, Eq, Structural)]
pub struct SegmentReader {
    pub segment: usize,
    pub pos: usize,
}

/// A cursor over the chunks of one fragment.
#[derive(Clone, Copy, Debug, PartialEq, Eq, Structural)]
pub struct FragmentReader {
    pub fragment: usize,
    pub pos: usize,
}

impl Broadcast {
    pub closed spec fn tracks(&self) -> Seq<TrackEntry> {
        self.tracks@
    }

    pub closed spec fn segments(&self) -> Seq<SegmentEntry> {
        self.segments@
    }

    pub closed spec fn fragments(&self) -> Seq<FragmentEntry> {
        self.fragments@
    }

    pub closed spec fn chunks(&self) -> Seq<ChunkEntry> {
        self.chunks@
    }

    pub closed spec fn closed(&self) -> Option<CacheError> {
        self.closed
    }

    pub open spec fn segment_parents(&self) -> Seq<usize> {
        self.segments().map_values(|s: SegmentEntry| s.track)
    }

    pub open spec fn fragment_parents(&self) -> Seq<usize> {
        self.fragments().map_values(|f: FragmentEntry| f.segment)
    }

    pub open spec fn chunk_parents(&self) -> Seq<usize> {
        self.chunks().map_values(|c: ChunkEntry| c.fragment)
    }

    pub open spec fn has_track(&self, name: Seq<char>) -> bool {
        exists|i: int| 0 <= i < self.tracks().len() && #[trigger] self.tracks()[i].name@ == name
    }

    /// The invariants of the cache.
    pub open spec fn wf(&self) -> bool {
        &&& forall|i: int|
            0 <= i < self.segments().len() ==> #[trigger] self.segments()[i].track < self.tracks().len()
        &&& forall|i: int|
            0 <= i < self.fragments().len() ==> #[trigger] self.fragments()[i].segment
                < self.segments().len()
        &&& forall|i: int|
            0 <= i < self.chunks().len() ==> #[trigger] self.chunks()[i].fragment
                < self.fragments().len()
        &&& forall|i: int, j: int|
            0 <= i < j < self.tracks().len() ==> #[trigger] self.tracks()[i].name@
                != #[trigger] self.tracks()[j].name@
        &&& forall|i: int, j: int|
            0 <= i < j < self.segments().len() && #[trigger] self.segments()[i].track
                == #[trigger] self.segments()[j].track ==> self.segments()[i].info.sequence@
                <= self.segments()[j].info.sequence@
        &&& forall|f: int|
            0 <= f < self.fragments().len() ==> #[trigger] self.fragments()[f].total
                == chunk_total(self.chunks(), f)
        &&& forall|f: int|
            0 <= f < self.fragments().len() && #[trigger] self.fragments()[f].size is Some
                ==> self.fragments()[f].total <= self.fragments()[f].size->Some_0
        &&& forall|f: int|
            0 <= f < self.fragments().len() && #[trigger] self.fragments()[f].finished
                && self.fragments()[f].size is Some ==> self.fragments()[f].total
                == self.fragments()[f].size->Some_0
    }

    pub fn new() -> (r: Broadcast)
        ensures
            r.wf(),
            r.tracks().len() == 0,
            r.segments().len() == 0,
            r.fragments().len() == 0,
            r.chunks().len() == 0,
            r.closed() is None,
    {
        Broadcast {
            tracks: Vec::new(),
            segments: Vec::new(),
            fragments: Vec::new(),
            chunks: Vec::new(),
            closed: None,
        }
    }

    /// Adds an empty track named `name`.
    pub fn create_track(&mut self, name: String) -> (r: Result<usize, CacheError>)
        requires
            old(self).wf(),
        ensures
            final(self).wf(),
            final(self).segments() == old(self).segments(),
            final(self).fragments() == old(self).fragments(),
            final(self).chunks() == old(self).chunks(),
            final(self).closed() == old(self).closed(),
            old(self).closed() is Some ==> r == Err::<usize, CacheError>(
                old(self).closed()->Some_0,
            ),
            old(self).closed() is None && old(self).has_track(name@) ==> r == Err::<
                usize,
                CacheError,
            >(CacheError::Duplicate),
            r is Err ==> final(self).tracks() == old(self).tracks(),
            r is Ok <==> old(self).closed() is None && !old(self).has_track(name@),
            r is Ok ==> r->Ok_0 == old(self).tracks().len() && final(self).tracks().len()
                == old(self).tracks().len() + 1 && final(self).tracks().drop_last()
                == old(self).tracks() && final(self).tracks().last().name@ == name@
                && !final(self).tracks().last().finished,
    {
        if let Some(e) = self.closed {
            return Err(e);
        }
        let mut i: usize = 0;
        #[verifier::loop_isolation(false)]
        while i < self.tracks.len()
            invariant
                i <= self.tracks@.len(),
                forall|k: int| 0 <= k < i ==> self.tracks@[k].name@ != name@,
            decreases self.tracks@.len() - i,
        {
            if self.tracks[i].name == name {
                proof {
                    assert(self.tracks() == old(self).tracks());
                    assert(self.segments() == old(self).segments());
                    assert(self.fragments() == old(self).fragments());
                    assert(self.chunks() == old(self).chunks());
                }
                return Err(CacheError::Duplicate);
            }
            i += 1;
        }
        let ghost prev = self.tracks@;
        self.tracks.push(TrackEntry { name, finished: false });
        proof {
            assert(self.tracks@.drop_last() =~= prev);
            assert(self.segments() == old(self).segments());
            assert(self.fragments() == old(self).fragments());
            assert(self.chunks() == old(self).chunks());
            assert(forall|k: int| 0 <= k < prev.len() ==> self.tracks@[k] == prev[k]);
            assert forall|a: int, b: int| 0 <= a < b < self.tracks@.len() implies #[trigger] self.tracks@[a].name@
                != #[trigger] self.tracks@[b].name@ by {
                if b < prev.len() {
                    assert(old(self).tracks()[a].name@ != old(self).tracks()[b].name@);
                }
            }
        }
        Ok(self.tracks.len() - 1)
    }

    /// A reader of the track named `name`, starting at its first segment.
    pub fn get_track(&self, name: &String) -> (r: Result<TrackReader, CacheError>)
        requires
            self.wf(),
        ensures
            r is Ok <==> self.has_track(name@),
            r is Err ==> r == Err::<TrackReader, CacheError>(CacheError::NotFound),
            r is Ok ==> r->Ok_0.pos == 0 && r->Ok_0.track < self.tracks().len()
                && self.tracks()[r->Ok_0.track as int].name@ == name@,
    {
        let mut i: usize = 0;
        #[verifier::loop_isolation(false)]
        while i < self.tracks.len()
            invariant
                i <= self.tracks@.len(),
                forall|k: int| 0 <= k < i ==> self.tracks@[k].name@ != name@,
            decreases self.tracks@.len() - i,
        {
            if self.tracks[i].name == *name {
                return Ok(TrackReader { track: i, pos: 0 });
            }
            i += 1;
        }
        Err(CacheError::NotFound)
    }

    /// Closes the broadcast with `err`: readers that have read everything get it.
    pub fn close(&mut self, err: CacheError) -> (r: Result<(), CacheError>)
        requires
            old(self).wf(),
        ensures
            final(self).wf(),
            final(self).tracks() == old(self).tracks(),
            final(self).segments() == old(self).segments(),
            final(self).fragments() == old(self).fragments(),
            final(self).chunks() == old(self).chunks(),
            match old(self).closed() {
                Some(e) => r == Err::<(), CacheError>(e) && final(self).closed() == old(self).closed(),
                None => r is Ok && final(self).closed() == Some(err),
            },
    {
        if let Some(e) = self.closed {
            return Err(e);
        }
        self.closed = Some(err);
        proof {
            assert(self.tracks() == old(self).tracks());
            assert(self.chunks() == old(self).chunks());
            assert(self.wf());
        }
        Ok(())
    }

    /// The error the broadcast was closed with, if it was.
    pub fn closed_with(&self) -> (r: Option<CacheError>)
        ensures
            r == self.closed(),
    {
        self.closed
    }

    /// Marks a track as finished: its readers end once they have read every segment.
    pub fn finish_track(&mut self, track: usize)
        requires
            old(self).wf(),
            track < old(self).tracks().len(),
        ensures
            final(self).wf(),
            final(self).tracks().len() == old(self).tracks().len(),
            forall|i: int|
                0 <= i < old(self).tracks().len() && i != track ==> final(self).tracks()[i]
                    == old(self).tracks()[i],
            final(self).tracks()[track as int].name == old(self).tracks()[track as int].name,
            final(self).tracks()[track as int].finished,
            final(self).segments() == old(self).segments(),
            final(self).fragments() == old(self).fragments(),
            final(self).chunks() == old(self).chunks(),
            final(self).closed() == old(self).closed(),
    {
        let ghost prev = self.tracks@;
        self.tracks[track].finished = true;
        proof {
            assert(forall|k: int| 0 <= k < prev.len() ==> self.tracks@[k].name@ == prev[k].name@);
            assert(self.segments() == old(self).segments());
            assert(self.fragments() == old(self).fragments());
            assert(self.chunks() == old(self).chunks());
        }
    }

    /// Appends a segment to a track. Sequence numbers within a track never go down.
    pub fn create_segment(&mut self, track: usize, info: SegmentInfo) -> (r: Result<usize, CacheError>)
        requires
            old(self).wf(),
            track < old(self).tracks().len(),
            forall|i: int|
                0 <= i < old(self).segments().len() && old(self).segments()[i].track == track
                    ==> old(self).segments()[i].info.sequence@ <= info.sequence@,
        ensures
            final(self).wf(),
            final(self).tracks() == old(self).tracks(),
            final(self).fragments() == old(self).fragments(),
            final(self).chunks() == old(self).chunks(),
            final(self).closed() == old(self).closed(),
            r is Err ==> final(self).segments() == old(self).segments(),
            old(self).closed() is Some ==> r == Err::<usize, CacheError>(
                old(self).closed()->Some_0,
            ),
            old(self).closed() is None && old(self).tracks()[track as int].finished ==> r == Err::<
                usize,
                CacheError,
            >(CacheError::Closed),
            r is Ok <==> old(self).closed() is None && !old(self).tracks()[track as int].finished,
            r is Ok ==> r->Ok_0 == old(self).segments().len() && final(self).segments() == old(self).segments().push((SegmentEntry { track, info, finished: false })),
    {
        if let Some(e) = self.closed {
            return Err(e);
        }
        if self.tracks[track].finished {
            return Err(CacheError::Closed);
        }
        let ghost prev = self.segments@;
        self.segments.push(SegmentEntry { track, info, finished: false });
        proof {
            assert(forall|k: int| 0 <= k < prev.len() ==> self.segments@[k] == prev[k]);
            assert(self.tracks() == old(self).tracks());
            assert(self.fragments() == old(self).fragments());
            assert(self.chunks() == old(self).chunks());
        }
        Ok(self.segments.len() - 1)
    }

    /// Appends a fragment to a segment, with an optional declared total size.
    pub fn create_fragment(&mut self, segment: usize, sequence: VarInt, size: Option<u64>) -> (r:
        Result<usize, CacheError>)
        requires
            old(self).wf(),
            segment < old(self).segments().len(),
        ensures
            final(self).wf(),
            final(self).tracks() == old(self).tracks(),
            final(self).segments() == old(self).segments(),
            final(self).chunks() == old(self).chunks(),
            final(self).closed() == old(self).closed(),
            r is Err ==> final(self).fragments() == old(self).fragments(),
            old(self).closed() is Some ==> r == Err::<usize, CacheError>(
                old(self).closed()->Some_0,
            ),
            old(self).closed() is None && old(self).segments()[segment as int].finished ==> r
                == Err::<usize, CacheError>(CacheError::Closed),
            r is Ok <==> old(self).closed() is None
                && !old(self).segments()[segment as int].finished,
            r is Ok ==> r->Ok_0 == old(self).fragments().len() && final(self).fragments() == old(self).fragments().push(
                (FragmentEntry { segment, sequence, size, total: 0, finished: false }),
            ),
    {
        if let Some(e) = self.closed {
            return Err(e);
        }
        if self.segments[segment].finished {
            return Err(CacheError::Closed);
        }
        let ghost prev = self.fragments@;
        let n = self.fragments.len();
        self.fragments.push(FragmentEntry { segment, sequence, size, total: 0, finished: false });
        proof {
            assert(prev == old(self).fragments());
            assert(forall|k: int| 0 <= k < prev.len() ==> self.fragments@[k] == prev[k]);
            assert(self.tracks() == old(self).tracks());
            assert(self.segments() == old(self).segments());
            assert(self.chunks() == old(self).chunks());
            assert forall|i: int| 0 <= i < self.chunks@.len() implies #[trigger] self.chunks@[i].fragment
                != n by {
                assert(old(self).chunks()[i].fragment < prev.len());
            }
            lemma_chunk_total_absent(self.chunks@, n as int);
        }
        Ok(self.fragments.len() - 1)
    }

    /// Appends the only fragment of a segment, without a declared size, and marks
    /// the segment finished.
    pub fn final_fragment(&mut self, segment: usize, sequence: VarInt) -> (r: Result<
        usize,
        CacheError,
    >)
        requires
            old(self).wf(),
            segment < old(self).segments().len(),
        ensures
            final(self).wf(),
            final(self).tracks() == old(self).tracks(),
            final(self).chunks() == old(self).chunks(),
            final(self).closed() == old(self).closed(),
            r is Err ==> final(self).fragments() == old(self).fragments() && final(self).segments()
                == old(self).segments(),
            old(self).closed() is Some ==> r == Err::<usize, CacheError>(
                old(self).closed()->Some_0,
            ),
            old(self).closed() is None && old(self).segments()[segment as int].finished ==> r
                == Err::<usize, CacheError>(CacheError::Closed),
            r is Ok <==> old(self).closed() is None
                && !old(self).segments()[segment as int].finished,
            r is Ok ==> r->Ok_0 == old(self).fragments().len() && final(self).fragments() == old(self).fragments().push(
                (FragmentEntry { segment, sequence, size: None, total: 0, finished: false }),
            ) && final(self).segments() == old(self).segments().update(
                segment as int,
                (SegmentEntry { finished: true, ..old(self).segments()[segment as int] }),
            ),
    {
        let r = self.create_fragment(segment, sequence, None);
        if r.is_ok() {
            self.segments[segment].finished = true;
        }
        r
    }

    /// Appends a chunk of bytes to a fragment.
    pub fn chunk(&mut self, fragment: usize, bytes: Vec<u8>) -> (r: Result<(), CacheError>)
        requires
            old(self).wf(),
            fragment < old(self).fragments().len(),
            old(self).fragments()[fragment as int].total + bytes@.len() <= u64::MAX,
            old(self).fragments()[fragment as int].size is Some ==> old(self).fragments()[fragment as int].total + bytes@.len() <= old(self).fragments()[fragment as int].size->Some_0,
        ensures
            final(self).wf(),
            final(self).tracks() == old(self).tracks(),
            final(self).segments() == old(self).segments(),
            final(self).closed() == old(self).closed(),
            r is Err ==> final(self).fragments() == old(self).fragments() && final(self).chunks()
                == old(self).chunks(),
            old(self).closed() is Some ==> r == Err::<(), CacheError>(old(self).closed()->Some_0),
            old(self).closed() is None && old(self).fragments()[fragment as int].finished ==> r
                == Err::<(), CacheError>(CacheError::Closed),
            r is Ok <==> old(self).closed() is None
                && !old(self).fragments()[fragment as int].finished,
            r is Ok ==> final(self).chunks().len() == old(self).chunks().len() + 1 && final(self).chunks().drop_last() == old(self).chunks() && final(self).chunks().last().fragment
                == fragment && final(self).chunks().last().bytes@ == bytes@ && final(self).fragments() == old(self).fragments().update(
                fragment as int,
                (FragmentEntry {
                    total: (old(self).fragments()[fragment as int].total + bytes@.len()) as u64,
                    ..old(self).fragments()[fragment as int]
                }),
            ),
    {
        if let Some(e) = self.closed {
            return Err(e);
        }
        if self.fragments[fragment].finished {
            return Err(CacheError::Closed);
        }
        let ghost prev_chunks = self.chunks@;
        let ghost prev_frags = self.fragments@;
        let len = bytes.len() as u64;
        let total = self.fragments[fragment].total + len;
        self.fragments[fragment].total = total;
        self.chunks.push(ChunkEntry { fragment, bytes });
        proof {
            assert(self.chunks@.drop_last() =~= prev_chunks);
            assert(self.chunks@ == prev_chunks.push(self.chunks@.last()));
            assert(prev_chunks == old(self).chunks());
            assert(prev_frags == old(self).fragments());
            assert(self.fragments@ == prev_frags.update(
                fragment as int,
                FragmentEntry { total, ..prev_frags[fragment as int] },
            ));
            assert(self.chunks@.last().bytes@.len() == len);
            assert(self.tracks() == old(self).tracks());
            assert(self.segments() == old(self).segments());
            assert forall|f: int| 0 <= f < self.fragments@.len() implies #[trigger] self.fragments@[f].total
                == chunk_total(self.chunks@, f) by {
                assert(old(self).fragments()[f].total == chunk_total(prev_chunks, f));
                lemma_chunk_total_push(prev_chunks, self.chunks@.last(), f);
                if f != fragment {
                    assert(self.fragments@[f] == prev_frags[f]);
                } else {
                    assert(self.chunks@.last().fragment == fragment);
                    assert(self.fragments@[f].total == prev_frags[f].total + len);
                    assert(chunk_total(self.chunks@, f) == chunk_total(prev_chunks, f) + len);
                }
            }
        }
        Ok(())
    }

    /// Marks a fragment finished; a declared size must have been reached.
    pub fn finish_fragment(&mut self, fragment: usize) -> (r: Result<(), CacheError>)
        requires
            old(self).wf(),
            fragment < old(self).fragments().len(),
            old(self).fragments()[fragment as int].size is Some ==> old(self).fragments()[fragment as int].total == old(self).fragments()[fragment as int].size->Some_0,
        ensures
            final(self).wf(),
            final(self).tracks() == old(self).tracks(),
            final(self).segments() == old(self).segments(),
            final(self).chunks() == old(self).chunks(),
            final(self).closed() == old(self).closed(),
            r is Ok,
            final(self).fragments() == old(self).fragments().update(
                fragment as int,
                (FragmentEntry { finished: true, ..old(self).fragments()[fragment as int] }),
            ),
    {
        self.fragments[fragment].finished = true;
        proof {
            assert(self.tracks() == old(self).tracks());
            assert(self.segments() == old(self).segments());
            assert(self.chunks() == old(self).chunks());
        }
        Ok(())
    }

    pub fn track_count(&self) -> (r: usize)
        ensures
            r == self.tracks().len(),
    {
        self.tracks.len()
    }

    pub fn segment_count(&self) -> (r: usize)
        ensures
            r == self.segments().len(),
    {
        self.segments.len()
    }

    pub fn fragment_count(&self) -> (r: usize)
        ensures
            r == self.fragments().len(),
    {
        self.fragments.len()
    }

    pub fn chunk_count(&self) -> (r: usize)
        ensures
            r == self.chunks().len(),
    {
        self.chunks.len()
    }

    /// The name of a track.
    pub fn track_name(&self, track: usize) -> (r: &String)
        requires
            track < self.tracks().len(),
        ensures
            r@ == self.tracks()[track as int].name@,
    {
        &self.tracks[track].name
    }

    /// A segment's entry.
    pub fn segment_entry(&self, segment: usize) -> (r: SegmentEntry)
        requires
            segment < self.segments().len(),
        ensures
            r == self.segments()[segment as int],
    {
        self.segments[segment]
    }

    /// The fragment a chunk belongs to.
    pub fn chunk_fragment(&self, chunk: usize) -> (r: usize)
        requires
            chunk < self.chunks().len(),
        ensures
            r == self.chunks()[chunk as int].fragment,
    {
        self.chunks[chunk].fragment
    }

    /// How a segment is to be delivered.
    pub fn segment_info(&self, segment: usize) -> (r: SegmentInfo)
        requires
            segment < self.segments().len(),
        ensures
            r == self.segments()[segment as int].info,
    {
        self.segments[segment].info
    }

    /// A fragment's entry.
    pub fn fragment_entry(&self, fragment: usize) -> (r: FragmentEntry)
        requires
            fragment < self.fragments().len(),
        ensures
            r == self.fragments()[fragment as int],
    {
        self.fragments[fragment]
    }

    /// The bytes of a chunk.
    pub fn chunk_bytes(&self, chunk: usize) -> (r: &Vec<u8>)
        requires
            chunk < self.chunks().len(),
        ensures
            r@ == self.chunks()[chunk as int].bytes@,
    {
        &self.chunks[chunk].bytes
    }
}

impl TrackReader {
    /// The next segment of the track, in the order the producer appended them.
    pub fn next_segment(&mut self, b: &Broadcast) -> (r: Next<SegmentReader>)
        requires
            b.wf(),
            old(self).track < b.tracks().len(),
            old(self).pos <= b.segments().len(),
        ensures
            ({
                let k = first_child(b.segment_parents(), old(self).track, old(self).pos as int);
                let len = b.segments().len() as int;
                &&& r == outcome(
                    k,
                    len,
                    b.closed(),
                    b.tracks()[old(self).track as int].finished,
                    (SegmentReader { segment: k as usize, pos: 0 }),
                )
                &&& final(self).track == old(self).track
                &&& final(self).pos == if k < len {
                    k + 1
                } else {
                    len
                }
            }),
    {
        let mut i = self.pos;
        #[verifier::loop_isolation(false)]
        while i < b.segments.len()
            invariant
                old(self).pos <= i <= b.segments@.len(),
                *self == *old(self),
                first_child(b.segment_parents(), self.track, old(self).pos as int) == first_child(
                    b.segment_parents(),
                    self.track,
                    i as int,
                ),
            decreases b.segments@.len() - i,
        {
            if b.segments[i].track == self.track {
                self.pos = i + 1;
                return Next::Item(SegmentReader { segment: i, pos: 0 });
            }
            i += 1;
        }
        self.pos = i;
        match b.closed {
            Some(e) => Next::Failed(e),
            None => if b.tracks[self.track].finished {
                Next::End
            } else {
                Next::Pending
            },
        }
    }
}

impl SegmentReader {
    /// The next fragment of the segment, in the order the producer appended them.
    pub fn next_fragment(&mut self, b: &Broadcast) -> (r: Next<FragmentReader>)
        requires
            b.wf(),
            old(self).segment < b.segments().len(),
            old(self).pos <= b.fragments().len(),
        ensures
            ({
                let k = first_child(b.fragment_parents(), old(self).segment, old(self).pos as int);
                let len = b.fragments().len() as int;
                &&& r == outcome(
                    k,
                    len,
                    b.closed(),
                    b.segments()[old(self).segment as int].finished,
                    (FragmentReader { fragment: k as usize, pos: 0 }),
                )
                &&& final(self).segment == old(self).segment
                &&& final(self).pos == if k < len {
                    k + 1
                } else {
                    len
                }
            }),
    {
        let mut i = self.pos;
        #[verifier::loop_isolation(false)]
        while i < b.fragments.len()
            invariant
                old(self).pos <= i <= b.fragments@.len(),
                *self == *old(self),
                first_child(b.fragment_parents(), self.segment, old(self).pos as int)
                    == first_child(b.fragment_parents(), self.segment, i as int),
            decreases b.fragments@.len() - i,
        {
            if b.fragments[i].segment == self.segment {
                self.pos = i + 1;
                return Next::Item(FragmentReader { fragment: i, pos: 0 });
            }
            i += 1;
        }
        self.pos = i;
        match b.closed {
            Some(e) => Next::Failed(e),
            None => if b.segments[self.segment].finished {
                Next::End
            } else {
                Next::Pending
            },
        }
    }
}

impl FragmentReader {
    /// The index of the next chunk of the fragment, in the order the producer
    /// appended them; `Broadcast::chunk_bytes` gives its bytes.
    pub fn next_chunk(&mut self, b: &Broadcast) -> (r: Next<usize>)
        requires
            b.wf(),
            old(self).fragment < b.fragments().len(),
            old(self).pos <= b.chunks().len(),
        ensures
            ({
                let k = first_child(b.chunk_parents(), old(self).fragment, old(self).pos as int);
                let len = b.chunks().len() as int;
                &&& r == outcome(
                    k,
                    len,
                    b.closed(),
                    b.fragments()[old(self).fragment as int].finished,
                    k as usize,
                )
                &&& final(self).fragment == old(self).fragment
                &&& final(self).pos == if k < len {
                    k + 1
                } else {
                    len
                }
            }),
    {
        let mut i = self.pos;
        #[verifier::loop_isolation(false)]
        while i < b.chunks.len()
            invariant
                old(self).pos <= i <= b.chunks@.len(),
                *self == *old(self),
                first_child(b.chunk_parents(), self.fragment, old(self).pos as int) == first_child(
                    b.chunk_parents(),
                    self.fragment,
                    i as int,
                ),
            decreases b.chunks@.len() - i,
        {
            if b.chunks[i].fragment == self.fragment {
                self.pos = i + 1;
                return Next::Item(i);
            }
            i += 1;
        }
        self.pos = i;
        match b.closed {
            Some(e) => Next::Failed(e),
            None => if b.fragments[self.fragment].finished {
                Next::End
            } else {
                Next::Pending
            },
        }
    }
}

/// A reader skips nothing: the entry it returns is the first one of its parent
/// at or after its position, and every entry of the parent is returned in log order.
pub proof fn lemma_reader_skips_nothing(parents: Seq<usize>, parent: usize, pos: int)
    requires
        0 <= pos <= parents.len(),
    ensures
        pos <= first_child(parents, parent, pos) <= parents.len(),
        first_child(parents, parent, pos) < parents.len() ==> parents[first_child(
            parents,
            parent,
            pos,
        )] == parent,
        forall|m: int|
            pos <= m < first_child(parents, parent, pos) ==> #[trigger] parents[m] != parent,
    decreases parents.len() - pos,
{
    if pos < parents.len() && parents[pos] != parent {
        lemma_reader_skips_nothing(parents, parent, pos + 1);
    }
}

/// Within a track, a later segment never has a smaller sequence number, so every
/// reader sees a track's segments in non-decreasing sequence.
pub proof fn lemma_segments_in_order(b: &Broadcast, i: int, j: int)
    requires
        b.wf(),
        0 <= i <= j < b.segments().len(),
        b.segments()[i].track == b.segments()[j].track,
    ensures
        b.segments()[i].info.sequence@ <= b.segments()[j].info.sequence@,
{
    if i < j {
        assert(b.segments()[i].track == b.segments()[j].track);
    }
}

/// Two successive reads of one track reader, the second starting after the
/// segment the first returned, return segments in non-decreasing sequence.
pub proof fn lemma_reader_sequences_non_decreasing(b: &Broadcast, track: usize, p1: int, p2: int)
    requires
        b.wf(),
        0 <= p1 <= b.segments().len(),
        first_child(b.segment_parents(), track, p1) < p2 <= b.segments().len(),
        first_child(b.segment_parents(), track, p2) < b.segments().len(),
    ensures
        b.segments()[first_child(b.segment_parents(), track, p1)].info.sequence@
            <= b.segments()[first_child(b.segment_parents(), track, p2)].info.sequence@,
{
    let k1 = first_child(b.segment_parents(), track, p1);
    let k2 = first_child(b.segment_parents(), track, p2);
    lemma_reader_skips_nothing(b.segment_parents(), track, p1);
    lemma_reader_skips_nothing(b.segment_parents(), track, p2);
    assert(b.segments()[k1].track == b.segment_parents()[k1]);
    assert(b.segments()[k2].track == b.segment_parents()[k2]);
    lemma_segments_in_order(b, k1, k2);
}

/// A finished fragment with a declared size holds chunks whose lengths add up to it.
pub proof fn lemma_fragment_size(b: &Broadcast, f: int)
    requires
        b.wf(),
        0 <= f < b.fragments().len(),
        b.fragments()[f].finished,
        b.fragments()[f].size is Some,
    ensures
        chunk_total(b.chunks(), f) == b.fragments()[f].size->Some_0,
{
    assert(b.fragments()[f].total == chunk_total(b.chunks(), f));
}

/// Once the broadcast is closed with `e`, a read at any level that finds no
/// further entry fails with `e`, and so carries the code and reason of `e`.
pub proof fn lemma_close_reaches_readers<T>(b: &Broadcast, e: CacheError, parents: Seq<usize>, parent: usize, pos: int, finished: bool, item: T)
    requires
        b.closed() == Some(e),
        first_child(parents, parent, pos) >= parents.len(),
    ensures
        outcome(first_child(parents, parent, pos), parents.len() as int, b.closed(), finished, item)
            == Next::<T>::Failed(e),
{
}

proof fn lemma_chunk_total_push(chunks: Seq<ChunkEntry>, c: ChunkEntry, f: int)
    ensures
        chunk_total(chunks.push(c), f) == chunk_total(chunks, f) + if c.fragment as int == f {
            c.bytes@.len()
        } else {
            0
        },
{
    assert(chunks.push(c).drop_last() =~= chunks);
}

proof fn lemma_chunk_total_absent(chunks: Seq<ChunkEntry>, f: int)
    requires
        forall|i: int| 0 <= i < chunks.len() ==> #[trigger] chunks[i].fragment as int != f,
    ensures
        chunk_total(chunks, f) == 0,
    decreases chunks.len(),
{
    if chunks.len() > 0 {
        lemma_chunk_total_absent(chunks.drop_last(), f);
    }
}

} // verus!
