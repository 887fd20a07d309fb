//! What the ingest reads from a `moof` box: which track it belongs to, when its
//! first sample plays, and whether it starts with a keyframe.
use vstd::prelude::*;

verus! {

/// A track run: how many samples follow and their flags.
#[derive(Clone, Debug, PartialEq, Eq)]
pub struct Trun {
    pub sample_count: u32,
    /// Per-sample flags, where present.
    pub sample_flags: Vec<u32>,
    /// Flags that replace those of the first sample.
    pub first_sample_flags: Option<u32>,
}

/// A track fragment: the `tfhd`, `tfdt` and `trun` fields that the ingest reads.
#[derive(Clone, Debug, PartialEq, Eq)]
pub struct Traf {
    pub track_id: u32,
    pub default_sample_flags: Option<u32>,
    /// `tfdt.base_media_decode_time`, if the box has a `tfdt`.
    pub base_media_decode_time: Option<u64>,
    pub trun: Option<Trun>,
}

/// A movie fragment box.
#[derive(Clone, Debug, PartialEq, Eq)]
pub struct Moof {
    pub trafs: Vec<Traf>,
}

/// Why a `moof` cannot be ingested.
#[derive(Clone, Copy, Debug, PartialEq, Eq, Structural)]
pub enum MoofError {
    /// It holds this many track fragments instead of one.
    TrafCount(usize),
    /// Its track fragment has no decode time.
    MissingTimestamp,
}

/// Sample flags mark a sync sample that depends on no other sample.
pub open spec fn spec_keyframe_flags(flags: u32) -> bool {
    (flags >> 24u32) & 3 == 2 && (flags >> 16u32) & 1 == 0
}

/// The flags that apply to sample `i` of a run.
pub open spec fn spec_sample_flags(trun: Trun, default_flags: Option<u32>, i: int) -> u32 {
    if i == 0 && trun.first_sample_flags is Some {
        trun.first_sample_flags->Some_0
    } else if i < trun.sample_flags@.len() {
        trun.sample_flags@[i]
    } else {
        match default_flags {
            Some(f) => f,
            None => 0,
        }
    }
}

/// Track fragment `t` has a run in which some sample is a keyframe.
pub open spec fn spec_traf_has_keyframe(traf: Traf) -> bool {
    traf.trun is Some && exists|i: int|
        0 <= i < traf.trun->Some_0.sample_count && #[trigger] spec_keyframe_flags(
            spec_sample_flags(traf.trun->Some_0, traf.default_sample_flags, i),
        )
}

/// Scanning track fragments in order, stopping at the first without a run,
/// some sample is a keyframe.
pub open spec fn spec_moof_keyframe(moof: Moof) -> bool {
    exists|t: int|
        0 <= t < moof.trafs@.len() && #[trigger] spec_traf_has_keyframe(moof.trafs@[t]) && forall|
            u: int,
        |
            0 <= u < t ==> (#[trigger] moof.trafs@[u]).trun is Some
}

/// Whether sample flags mark a keyframe.
pub fn is_keyframe_flags(flags: u32) -> (r: bool)
    ensures
        r == spec_keyframe_flags(flags),
{
    (flags >> 24u32) & 3 == 2 && (flags >> 16u32) & 1 == 0
}

fn traf_has_keyframe(traf: &Traf) -> (r: Option<bool>)
    ensures
        r is None <==> traf.trun is None,
        r is Some ==> r->Some_0 == spec_traf_has_keyframe(*traf),
{
    let trun = match &traf.trun {
        Some(t) => t,
        None => return None,
    };
    let default_flags: u32 = match traf.default_sample_flags {
        Some(f) => f,
        None => 0,
    };
    let mut i: u32 = 0;
    while i < trun.sample_count
        invariant
            traf.trun == Some(*trun),
            default_flags == (match traf.default_sample_flags {
                Some(f) => f,
                None => 0u32,
            }),
            i <= trun.sample_count,
            forall|k: int|
                0 <= k < i ==> !#[trigger] spec_keyframe_flags(
                    spec_sample_flags(*trun, traf.default_sample_flags, k),
                ),
        decreases trun.sample_count - i,
    {
        let mut flags = if (i as usize) < trun.sample_flags.len() {
            trun.sample_flags[i as usize]
        } else {
            default_flags
        };
        if i == 0 && trun.first_sample_flags.is_some() {
            flags = trun.first_sample_flags.unwrap();
        }
        if is_keyframe_flags(flags) {
            proof {
                assert(flags == spec_sample_flags(*trun, traf.default_sample_flags, i as int));
            }
            return Some(true);
        }
        i += 1;
    }
    Some(false)
}

/// Whether the fragment starts a new segment: some sample of its runs is a keyframe.
pub fn sample_keyframe(moof: &Moof) -> (r: bool)
    ensures
        r == spec_moof_keyframe(*moof),
{
    let mut t: usize = 0;
    while t < moof.trafs.len()
        invariant
            t <= moof.trafs@.len(),
            forall|u: int| 0 <= u < t ==> (#[trigger] moof.trafs@[u]).trun is Some,
            forall|u: int| 0 <= u < t ==> !#[trigger] spec_traf_has_keyframe(moof.trafs@[u]),
        decreases moof.trafs@.len() - t,
    {
        match traf_has_keyframe(&moof.trafs[t]) {
            None => {
                proof {
                    assert forall|k: int|
                        0 <= k < moof.trafs@.len() && #[trigger] spec_traf_has_keyframe(
                            moof.trafs@[k],
                        ) implies !(forall|u: int|
                        0 <= u < k ==> (#[trigger] moof.trafs@[u]).trun is Some) by {
                        if k < t {
                        } else if k == t {
                        } else {
                            assert(moof.trafs@[t as int].trun is None);
                        }
                    }
                }
                return false;
            },
            Some(true) => {
                return true;
            },
            Some(false) => {},
        }
        t += 1;
    }
    false
}

/// The decode time of the first track fragment, if it has one.
pub fn sample_timestamp(moof: &Moof) -> (r: Option<u64>)
    ensures
        moof.trafs@.len() == 0 ==> r is None,
        moof.trafs@.len() > 0 ==> r == moof.trafs@[0].base_media_decode_time,
{
    if moof.trafs.len() == 0 {
        None
    } else {
        moof.trafs[0].base_media_decode_time
    }
}

/// What the ingest needs to know of a `moof`.
#[derive(Clone, Copy, Debug, PartialEq, Eq, Structural)]
pub struct Fragment {
    /// The track it belongs to.
    pub track: u32,
    /// The decode time of its first sample, in timescale units.
    pub timestamp: u64,
    /// Whether it starts with a keyframe.
    pub keyframe: bool,
}

/// What `Fragment::new` makes of a `moof`.
pub open spec fn spec_fragment(moof: Moof) -> Result<Fragment, MoofError> {
    if moof.trafs@.len() != 1 {
        Err(MoofError::TrafCount(moof.trafs@.len() as usize))
    } else if moof.trafs@[0].base_media_decode_time is None {
        Err(MoofError::MissingTimestamp)
    } else {
        Ok(
            Fragment {
                track: moof.trafs@[0].track_id,
                timestamp: moof.trafs@[0].base_media_decode_time->Some_0,
                keyframe: spec_moof_keyframe(moof),
            },
        )
    }
}

impl Fragment {
    /// Reads a `moof` that holds exactly one track fragment, with a decode time.
    pub fn new(moof: &Moof) -> (r: Result<Fragment, MoofError>)
        ensures
            r == spec_fragment(*moof),
    {
        if moof.trafs.len() != 1 {
            return Err(MoofError::TrafCount(moof.trafs.len()));
        }
        let track = moof.trafs[0].track_id;
        let timestamp = match sample_timestamp(moof) {
            Some(t) => t,
            None => return Err(MoofError::MissingTimestamp),
        };
        let keyframe = sample_keyframe(moof);
        Ok(Fragment { track, timestamp, keyframe })
    }

    /// The decode time in milliseconds, given the track's units per second:
    /// `1000 * timestamp / timescale`, rounded down.
    pub fn timestamp(&self, timescale: u64) -> (r: u128)
        requires
            timescale > 0,
        ensures
            r as int == 1000 * self.timestamp as int / timescale as int,
    {
        (1000 * (self.timestamp as u128)) / (timescale as u128)
    }
}

} // verus!
