//! The core of a Media-over-QUIC publisher: a cache of broadcasts, tracks,
//! segments and fragments; the ingest that fills it from fragmented MP4; the
//! catalog of the tracks; and the decisions of a publisher session that serves
//! the cache to a subscriber over prioritized streams.
use vstd::prelude::*;

pub mod atom;
pub mod cache;
pub mod catalog;
pub mod error;
pub mod fragment;
pub mod media;
pub mod message;
pub mod session;
pub mod text;
pub mod varint;

verus! {

} // verus!
