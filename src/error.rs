//! The error kinds shared by the cache and the session, each with a stable
//! numeric code and a reason string, both used when closing the transport.
use crate::varint::VarInt;
use vstd::prelude::*;

verus! {

/// Why a cache read or write did not succeed.
#[derive(Clone, Copy, Debug, PartialEq, Eq, Structural)]
pub enum CacheError {
    /// The cache was drained cleanly.
    Closed,
    /// Closed by the producer with an application code.
    Reset(u32),
    /// The subscriber asked to stop.
    Stop,
    /// A track or subscription is absent.
    NotFound,
    /// A name or id is already in use.
    Duplicate,
}

impl CacheError {
    pub open spec fn spec_code(self) -> u32 {
        match self {
            CacheError::Closed => 0,
            CacheError::Reset(code) => code,
            CacheError::Stop => 206,
            CacheError::NotFound => 404,
            CacheError::Duplicate => 409,
        }
    }

    pub open spec fn spec_reason(self) -> Seq<char> {
        match self {
            CacheError::Closed => "closed"@,
            CacheError::Reset(_) => "reset"@,
            CacheError::Stop => "stop"@,
            CacheError::NotFound => "not found"@,
            CacheError::Duplicate => "duplicate"@,
        }
    }

    /// The numeric code sent when closing a stream or the session.
    pub fn code(&self) -> (r: u32)
        ensures
            r == self.spec_code(),
    {
        match self {
            CacheError::Closed => 0,
            CacheError::Reset(code) => *code,
            CacheError::Stop => 206,
            CacheError::NotFound => 404,
            CacheError::Duplicate => 409,
        }
    }

    /// The human-readable reason sent along with the code.
    pub fn reason(&self) -> (r: String)
        ensures
            r@ == self.spec_reason(),
    {
        match self {
            CacheError::Closed => String::from_str("closed"),
            CacheError::Reset(_) => String::from_str("reset"),
            CacheError::Stop => String::from_str("stop"),
            CacheError::NotFound => String::from_str("not found"),
            CacheError::Duplicate => String::from_str("duplicate"),
        }
    }
}

/// Why a session, or one message of it, failed.
#[derive(Clone, Debug, PartialEq, Eq)]
pub enum SessionError {
    /// An error of the cache.
    Cache(CacheError),
    /// The peer sent a message, or opened a stream, that its role does not permit.
    RoleViolation(VarInt),
    /// A value did not fit where it had to go.
    BoundsExceeded,
    /// A failure of the transport below, with its description.
    Unknown(String),
    /// A probe subscription whose name does not carry a size and a priority.
    InvalidProbe,
}

impl SessionError {
    pub open spec fn spec_code(&self) -> u32 {
        match self {
            SessionError::Cache(e) => e.spec_code(),
            SessionError::RoleViolation(_) => 405,
            SessionError::BoundsExceeded => 500,
            SessionError::Unknown(_) => 500,
            SessionError::InvalidProbe => 400,
        }
    }

    pub open spec fn spec_reason(&self) -> Seq<char> {
        match self {
            SessionError::Cache(e) => e.spec_reason(),
            SessionError::RoleViolation(_) => "role violation"@,
            SessionError::BoundsExceeded => "bounds exceeded"@,
            SessionError::Unknown(s) => s@,
            SessionError::InvalidProbe => "invalid probe"@,
        }
    }

    /// The numeric code sent when resetting a subscription or closing the session.
    pub fn code(&self) -> (r: u32)
        ensures
            r == self.spec_code(),
    {
        match self {
            SessionError::Cache(e) => e.code(),
            SessionError::RoleViolation(_) => 405,
            SessionError::BoundsExceeded => 500,
            SessionError::Unknown(_) => 500,
            SessionError::InvalidProbe => 400,
        }
    }

    /// The reason sent along with the code.
    pub fn reason(&self) -> (r: String)
        ensures
            r@ == self.spec_reason(),
    {
        match self {
            SessionError::Cache(e) => e.reason(),
            SessionError::RoleViolation(_) => String::from_str("role violation"),
            SessionError::BoundsExceeded => String::from_str("bounds exceeded"),
            SessionError::Unknown(s) => s.clone(),
            SessionError::InvalidProbe => String::from_str("invalid probe"),
        }
    }

    /// Whether the error ends the session rather than one message.
    pub fn is_fatal(&self) -> (r: bool)
        ensures
            r == (*self == SessionError::Cache(CacheError::Duplicate) || self is RoleViolation),
    {
        match self {
            SessionError::Cache(CacheError::Duplicate) => true,
            SessionError::RoleViolation(_) => true,
            _ => false,
        }
    }
}

} // verus!
