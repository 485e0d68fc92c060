//! The event vocabulary shared by the reactor, streams and services:
//! endpoint and timer names, readiness sets, and the outcomes a transport
//! operation can report.

use vstd::prelude::*;

verus! {

/// Name of a registered I/O endpoint. Unique within a reactor for its
/// lifetime; 0 is reserved and means "none".
#[derive(Clone, Copy, Debug, PartialEq, Eq, Hash, Structural)]
pub struct Token(pub usize);

/// Name of a pending timer; a namespace disjoint from [`Token`].
#[derive(Clone, Copy, Debug, PartialEq, Eq, Hash, Structural)]
pub struct TimerToken(pub usize);

/// A set of readiness conditions.
#[derive(Clone, Copy, Debug, PartialEq, Eq, Structural)]
pub struct EventSet {
    pub readable: bool,
    pub writable: bool,
    pub error: bool,
    pub hup: bool,
}

impl EventSet {
    /// The empty set; as an interest it means "deregister and close".
    pub open spec fn spec_none() -> EventSet {
        EventSet { readable: false, writable: false, error: false, hup: false }
    }

    /// The empty set, executable.
    pub fn none() -> (r: EventSet)
        ensures
            r == EventSet::spec_none(),
    {
        EventSet { readable: false, writable: false, error: false, hup: false }
    }

    /// Every condition at once; the interest new endpoints start with.
    pub open spec fn spec_all() -> EventSet {
        EventSet { readable: true, writable: true, error: true, hup: true }
    }

    /// Every condition at once, executable.
    pub fn all() -> (r: EventSet)
        ensures
            r == EventSet::spec_all(),
    {
        EventSet { readable: true, writable: true, error: true, hup: true }
    }

    /// The set holding only the hang-up condition.
    pub open spec fn spec_hup() -> EventSet {
        EventSet { readable: false, writable: false, error: false, hup: true }
    }

    /// The hang-up set, executable.
    pub fn hup() -> (r: EventSet)
        ensures
            r == EventSet::spec_hup(),
    {
        EventSet { readable: false, writable: false, error: false, hup: true }
    }

    /// True when no condition is in the set.
    pub open spec fn spec_is_none(&self) -> bool {
        *self == EventSet::spec_none()
    }

    /// True when no condition is in the set, executable.
    pub fn is_none(&self) -> (r: bool)
        ensures
            r == self.spec_is_none(),
    {
        !self.readable && !self.writable && !self.error && !self.hup
    }

    /// The same set without the readable condition.
    pub fn remove_readable(&self) -> (r: EventSet)
        ensures
            r == (EventSet { readable: false, ..*self }),
    {
        EventSet { readable: false, writable: self.writable, error: self.error, hup: self.hup }
    }

    /// The same set without the writable condition.
    pub fn remove_writable(&self) -> (r: EventSet)
        ensures
            r == (EventSet { writable: false, ..*self }),
    {
        EventSet { readable: self.readable, writable: false, error: self.error, hup: self.hup }
    }
}

/// What one transport write attempt reported.
#[derive(Clone, Copy, Debug, PartialEq, Eq, Structural)]
pub enum WriteOutcome {
    /// The transport accepted this many bytes.
    Wrote(usize),
    /// The transport would block; try again on the next writable edge.
    WouldBlock,
    /// Any other transport error; fatal for the stream.
    Error,
}

/// What one transport read attempt reported.
#[derive(Clone, Debug, PartialEq, Eq)]
pub enum ReadOutcome {
    /// The transport yielded these bytes.
    Data(Vec<u8>),
    /// A zero-length read: the peer closed.
    Closed,
    /// The transport would block; try again on the next readable edge.
    WouldBlock,
    /// Any other transport error; fatal for the stream.
    Error,
}

/// A transport-level failure, as the codec layer classifies it.
#[derive(Clone, Copy, Debug, PartialEq, Eq, Structural)]
pub enum TransportError {
    /// The operation would block; not fatal.
    WouldBlock,
    /// Any other failure; fatal for the stream.
    Other,
}

} // verus!
