//! The catalog: for each `trak` of the `moov`, its container, tracks, codec
//! string and media parameters, and the bitrate list it draws video rates from.
use crate::media::{data_track_name, init_track_name};
use crate::text::{
    decimal, field_from, hex2_lower, hex2_upper, number_field, push_decimal, push_hex2_lower,
    spec_parse_u32,
};
use vstd::prelude::*;

verus! {

/// The `esds` fields that the audio codec string and bitrate come from.
#[derive(Clone, Copy, Debug, PartialEq, Eq, Structural)]
pub struct Esds {
    pub object_type_indication: u8,
    /// `dec_specific.profile`.
    pub profile: u8,
    pub max_bitrate: u32,
    pub avg_bitrate: u32,
}

/// The first sample entry of a track's `stsd`.
#[derive(Clone, Copy, Debug, PartialEq, Eq, Structural)]
pub enum SampleEntry {
    Avc1 { profile: u8, constraints: u8, level: u8, width: u16, height: u16 },
    Hev1,
    Mp4a { channel_count: u16, sample_rate: u16, sample_size: u16, esds: Option<Esds> },
    Vp09,
    Unknown,
}

/// What the catalog needs of a `trak`.
#[derive(Clone, Copy, Debug, PartialEq, Eq, Structural)]
pub struct CatalogTrak {
    pub track_id: u32,
    pub entry: SampleEntry,
}

/// The media parameters of a catalog entry.
#[derive(Clone, Copy, Debug, PartialEq, Eq, Structural)]
pub enum CatalogMedia {
    Video { width: u16, height: u16 },
    Audio { channel_count: u16, sample_rate: u16, sample_size: u16 },
}

/// One entry of the catalog; the container is always `mp4`.
#[derive(Clone, Debug)]
pub struct CatalogTrack {
    pub init_track: String,
    pub data_track: String,
    pub codec: String,
    pub media: CatalogMedia,
    pub bit_rate: Option<u32>,
}

/// Why the catalog could not be made.
#[derive(Clone, Copy, Debug, PartialEq, Eq, Structural)]
pub enum CatalogError {
    /// The track's codec is not supported.
    UnsupportedCodec(u32),
    /// An `mp4a` track without an `esds` box.
    MissingEsds(u32),
    /// The bitrate list has no entry for this video track.
    MissingBitrate(u32),
    /// The bitrate list's entry for this video track is not a 32-bit number.
    InvalidBitrate(u32),
}

/// How many `avc1` tracks come before position `k`.
pub open spec fn video_count(traks: Seq<CatalogTrak>, k: int) -> nat
    decreases k,
{
    if k <= 0 {
        0
    } else {
        video_count(traks, k - 1) + if traks[k - 1].entry is Avc1 {
            1nat
        } else {
            0nat
        }
    }
}

/// Why the `trak` at position `k` cannot be described, if it cannot.
pub open spec fn spec_entry_error(traks: Seq<CatalogTrak>, k: int, bitrates: Seq<char>) -> Option<CatalogError> {
    let t = traks[k];
    match t.entry {
        SampleEntry::Avc1 { .. } => match field_from(bitrates, ',', 0, video_count(traks, k)) {
            None => Some(CatalogError::MissingBitrate(t.track_id)),
            Some(f) => if spec_parse_u32(f) is None {
                Some(CatalogError::InvalidBitrate(t.track_id))
            } else {
                None
            },
        },
        SampleEntry::Mp4a { esds, .. } => if esds is None {
            Some(CatalogError::MissingEsds(t.track_id))
        } else {
            None
        },
        _ => Some(CatalogError::UnsupportedCodec(t.track_id)),
    }
}

/// The catalog entry of the `trak` at position `k`, which can be described.
pub open spec fn spec_entry_ok(e: CatalogTrack, traks: Seq<CatalogTrak>, k: int, bitrates: Seq<char>) -> bool {
    let t = traks[k];
    &&& e.init_track@ == init_track_name()
    &&& e.data_track@ == data_track_name(t.track_id)
    &&& match t.entry {
        SampleEntry::Avc1 { profile, constraints, level, width, height } => {
            &&& e.codec@ == "avc1."@ + hex2_upper(profile) + hex2_upper(constraints) + hex2_upper(level)
            &&& e.media == CatalogMedia::Video { width, height }
            &&& e.bit_rate == spec_parse_u32(field_from(bitrates, ',', 0, video_count(traks, k))->Some_0)
        },
        SampleEntry::Mp4a { channel_count, sample_rate, sample_size, esds } => {
            let d = esds->Some_0;
            let rate = if d.max_bitrate >= d.avg_bitrate {
                d.max_bitrate
            } else {
                d.avg_bitrate
            };
            &&& e.codec@ == "mp4a."@ + hex2_lower(d.object_type_indication) + "."@ + decimal(d.profile as nat)
            &&& e.media == CatalogMedia::Audio { channel_count, sample_rate, sample_size }
            &&& e.bit_rate == if rate > 0 {
                Some(rate)
            } else {
                None
            }
        },
        _ => false,
    }
}

/// Relies on `rfc6381_codec::Codec::avc1` and its `Display` impl, which writes
/// `avc1.` and then the profile, constraint and level bytes as two upper-case
/// hex digits each.
#[verifier::external_body]
fn avc1_codec(profile: u8, constraints: u8, level: u8) -> (r: String)
    ensures
        r@ == "avc1."@ + hex2_upper(profile) + hex2_upper(constraints) + hex2_upper(level),
{
    rfc6381_codec::Codec::avc1(profile, constraints, level).to_string()
}

/// The name of the data track of MP4 track `id`.
pub fn data_track(id: u32) -> (r: String)
    ensures
        r@ == data_track_name(id),
{
    let mut name = String::new();
    push_decimal(&mut name, id as u64);
    name.append(".m4s");
    name
}

/// The catalog entries of the `trak`s, in order; the bitrate of the n-th `avc1`
/// track is field n of the comma-separated list `bitrates`.
pub fn catalog_tracks(traks: &Vec<CatalogTrak>, bitrates: &str) -> (r: Result<Vec<CatalogTrack>, CatalogError>)
    ensures
        r is Ok <==> forall|k: int| 0 <= k < traks@.len() ==> #[trigger] spec_entry_error(traks@, k, bitrates@) is None,
        r is Ok ==> r->Ok_0@.len() == traks@.len() && forall|k: int| 0 <= k < traks@.len() ==> spec_entry_ok(#[trigger] r->Ok_0@[k], traks@, k, bitrates@),
        r is Err ==> exists|k: int| 0 <= k < traks@.len() && (forall|m: int| 0 <= m < k ==> #[trigger] spec_entry_error(traks@, m, bitrates@) is None)
            && Some(r->Err_0) == #[trigger] spec_entry_error(traks@, k, bitrates@),
{
    let mut out: Vec<CatalogTrack> = Vec::new();
    let mut videos: usize = 0;
    let mut k: usize = 0;
    while k < traks.len()
        invariant
            k <= traks@.len(),
            out@.len() == k,
            videos == video_count(traks@, k as int),
            videos <= k,
            forall|m: int| 0 <= m < k ==> #[trigger] spec_entry_error(traks@, m, bitrates@) is None,
            forall|m: int| 0 <= m < k ==> spec_entry_ok(#[trigger] out@[m], traks@, m, bitrates@),
        decreases traks@.len() - k,
    {
        let t = traks[k];
        let init_track = String::from_str("0.mp4");
        let data = data_track(t.track_id);
        let entry = match t.entry {
            SampleEntry::Avc1 { profile, constraints, level, width, height } => {
                let rate = match number_field(bitrates, ',', videos) {
                    None => {
                        proof {
                            assert(spec_entry_error(traks@, k as int, bitrates@) == Some(CatalogError::MissingBitrate(t.track_id)));
                        }
                        return Err(CatalogError::MissingBitrate(t.track_id));
                    },
                    Some(None) => {
                        proof {
                            assert(spec_entry_error(traks@, k as int, bitrates@) == Some(CatalogError::InvalidBitrate(t.track_id)));
                        }
                        return Err(CatalogError::InvalidBitrate(t.track_id));
                    },
                    Some(Some(b)) => b,
                };
                videos = videos + 1;
                CatalogTrack {
                    init_track,
                    data_track: data,
                    codec: avc1_codec(profile, constraints, level),
                    media: CatalogMedia::Video { width, height },
                    bit_rate: Some(rate),
                }
            },
            SampleEntry::Mp4a { channel_count, sample_rate, sample_size, esds } => {
                let d = match esds {
                    None => {
                        proof {
                            assert(spec_entry_error(traks@, k as int, bitrates@) == Some(CatalogError::MissingEsds(t.track_id)));
                        }
                        return Err(CatalogError::MissingEsds(t.track_id));
                    },
                    Some(d) => d,
                };
                let mut codec = String::from_str("mp4a.");
                push_hex2_lower(&mut codec, d.object_type_indication);
                codec.append(".");
                push_decimal(&mut codec, d.profile as u64);
                let rate = if d.max_bitrate >= d.avg_bitrate {
                    d.max_bitrate
                } else {
                    d.avg_bitrate
                };
                CatalogTrack {
                    init_track,
                    data_track: data,
                    codec,
                    media: CatalogMedia::Audio { channel_count, sample_rate, sample_size },
                    bit_rate: if rate > 0 {
                        Some(rate)
                    } else {
                        None
                    },
                }
            },
            _ => {
                proof {
                    assert(spec_entry_error(traks@, k as int, bitrates@) == Some(CatalogError::UnsupportedCodec(t.track_id)));
                }
                return Err(CatalogError::UnsupportedCodec(t.track_id));
            },
        };
        proof {
            reveal_strlit("0.mp4");
            assert(spec_entry_ok(entry, traks@, k as int, bitrates@));
        }
        out.push(entry);
        k += 1;
    }
    Ok(out)
}

} // verus!
