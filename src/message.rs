//! Control messages and the object header that starts every data stream.
use crate::varint::{spec_encode, VarInt};
use vstd::prelude::*;

verus! {

/// A request for a track.
#[derive(Clone, Debug)]
pub struct Subscribe {
    pub id: VarInt,
    pub namespace: Option<String>,
    pub name: String,
    /// A subscription that this one replaces.
    pub switch_track_id: Option<VarInt>,
}

/// The subscription was accepted.
#[derive(Clone, Copy, Debug, PartialEq, Eq, Structural)]
pub struct SubscribeOk {
    pub id: VarInt,
    pub expires: VarInt,
}

/// The subscription ended or was refused.
#[derive(Clone, Debug)]
pub struct SubscribeReset {
    pub id: VarInt,
    pub code: u32,
    pub reason: String,
    pub final_group: VarInt,
    pub final_object: VarInt,
}

/// The subscriber asks to stop a subscription.
#[derive(Clone, Copy, Debug, PartialEq, Eq, Structural)]
pub struct Unsubscribe {
    pub id: VarInt,
}

/// A namespace is offered.
#[derive(Clone, Debug)]
pub struct Announce {
    pub namespace: String,
}

/// An announce was accepted.
#[derive(Clone, Debug)]
pub struct AnnounceOk {
    pub namespace: String,
}

/// An announce was refused.
#[derive(Clone, Debug)]
pub struct AnnounceError {
    pub namespace: String,
    pub code: u32,
    pub reason: String,
}

/// A message on the control stream.
#[derive(Clone, Debug)]
pub enum Message {
    Subscribe(Subscribe),
    SubscribeOk(SubscribeOk),
    SubscribeReset(SubscribeReset),
    Unsubscribe(Unsubscribe),
    Announce(Announce),
    AnnounceOk(AnnounceOk),
    AnnounceError(AnnounceError),
}

impl Message {
    /// The message type, as it is written on the wire.
    pub open spec fn spec_id(&self) -> nat {
        match self {
            Message::Subscribe(_) => 3,
            Message::SubscribeOk(_) => 4,
            Message::SubscribeReset(_) => 12,
            Message::Unsubscribe(_) => 10,
            Message::Announce(_) => 6,
            Message::AnnounceOk(_) => 7,
            Message::AnnounceError(_) => 8,
        }
    }

    pub fn id(&self) -> (r: VarInt)
        ensures
            r@ == self.spec_id(),
    {
        match self {
            Message::Subscribe(_) => VarInt::from_u32(3),
            Message::SubscribeOk(_) => VarInt::from_u32(4),
            Message::SubscribeReset(_) => VarInt::from_u32(12),
            Message::Unsubscribe(_) => VarInt::from_u32(10),
            Message::Announce(_) => VarInt::from_u32(6),
            Message::AnnounceOk(_) => VarInt::from_u32(7),
            Message::AnnounceError(_) => VarInt::from_u32(8),
        }
    }
}

/// Which optional object header fields the setup handshake negotiated.
#[derive(Clone, Copy, Debug, PartialEq, Eq, Structural)]
pub struct Extensions {
    pub object_timestamp: bool,
    pub object_size: bool,
}

/// The header at the start of each data stream.
#[derive(Clone, Copy, Debug, PartialEq, Eq, Structural)]
pub struct Object {
    /// The subscription id.
    pub track: VarInt,
    /// The segment's sequence number.
    pub group: VarInt,
    pub priority: u32,
    /// Milliseconds; `None` is written as zero.
    pub expires: Option<VarInt>,
    /// The fragment's sequence number.
    pub sequence: VarInt,
    /// Wall-clock milliseconds when the header was written; zero if `None`.
    pub ntp_timestamp: Option<VarInt>,
    /// The length of the payload, if known; zero if `None`.
    pub size: Option<VarInt>,
}

/// The value of an optional field on the wire.
pub open spec fn or_zero(v: Option<VarInt>) -> nat {
    match v {
        Some(x) => x@,
        None => 0,
    }
}

/// The bytes of an object header.
pub open spec fn spec_object_bytes(o: Object, ext: Extensions) -> Seq<u8> {
    spec_encode(o.track@) + spec_encode(o.group@) + spec_encode(o.priority as nat) + spec_encode(
        or_zero(o.expires),
    ) + spec_encode(o.sequence@) + (if ext.object_timestamp {
        spec_encode(or_zero(o.ntp_timestamp))
    } else {
        Seq::empty()
    }) + (if ext.object_size {
        spec_encode(or_zero(o.size))
    } else {
        Seq::empty()
    })
}

fn value_or_zero(v: Option<VarInt>) -> (r: VarInt)
    ensures
        r@ == or_zero(v),
{
    match v {
        Some(x) => x,
        None => VarInt::zero(),
    }
}

impl Object {
    /// The bytes of this header, with the negotiated optional fields.
    pub fn encode(&self, ext: &Extensions) -> (r: Vec<u8>)
        ensures
            r@ == spec_object_bytes(*self, *ext),
    {
        let mut out = self.track.encode();
        let mut b = self.group.encode();
        out.append(&mut b);
        let mut b = VarInt::from_u32(self.priority).encode();
        out.append(&mut b);
        let mut b = value_or_zero(self.expires).encode();
        out.append(&mut b);
        let mut b = self.sequence.encode();
        out.append(&mut b);
        if ext.object_timestamp {
            let mut b = value_or_zero(self.ntp_timestamp).encode();
            out.append(&mut b);
        }
        if ext.object_size {
            let mut b = value_or_zero(self.size).encode();
            out.append(&mut b);
        }
        proof {
            assert(out@ =~= spec_object_bytes(*self, *ext));
        }
        out
    }
}

} // verus!
