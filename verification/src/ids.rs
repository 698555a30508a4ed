//! Identifier newtypes. Every identifier wraps an integer; the integer 0 is
//! reserved as the invalid identifier.
use vstd::prelude::*;

verus! {

/// Identifier of a subscriber of the event system.
#[derive(PartialEq, Eq, Structural, Clone, Copy, Debug, Hash, PartialOrd, Ord)]
pub struct SubId {
    inner: u64,
}

impl SubId {
    /// The integer that this identifier wraps.
    pub closed spec fn value(&self) -> u64 {
        self.inner
    }

    /// The reserved identifier 0.
    pub fn invalid() -> (r: Self)
        ensures
            r.value() == 0,
    {
        SubId { inner: 0 }
    }

    /// The identifier that wraps `id`.
    pub(crate) fn with_value(id: u64) -> (r: Self)
        ensures
            r.value() == id,
    {
        SubId { inner: id }
    }

    /// Whether this is not the reserved identifier 0.
    pub fn is_valid(&self) -> (r: bool)
        ensures
            r == (self.value() != 0),
    {
        self.inner != 0
    }

    pub fn inner(&self) -> (r: u64)
        ensures
            r == self.value(),
    {
        self.inner
    }
}

/// Identifier of a service of the event system.
#[derive(PartialEq, Eq, Structural, Clone, Copy, Debug, Hash, PartialOrd, Ord)]
pub struct ServiceId {
    inner: u64,
}

impl ServiceId {
    /// The integer that this identifier wraps.
    pub closed spec fn value(&self) -> u64 {
        self.inner
    }

    /// The reserved identifier 0.
    pub fn invalid() -> (r: Self)
        ensures
            r.value() == 0,
    {
        ServiceId { inner: 0 }
    }

    /// The identifier that wraps `id`.
    pub(crate) fn with_value(id: u64) -> (r: Self)
        ensures
            r.value() == id,
    {
        ServiceId { inner: id }
    }

    /// Whether this is not the reserved identifier 0.
    pub fn is_valid(&self) -> (r: bool)
        ensures
            r == (self.value() != 0),
    {
        self.inner != 0
    }

    pub fn inner(&self) -> (r: u64)
        ensures
            r == self.value(),
    {
        self.inner
    }
}

/// Identifier of an object of a scene.
#[derive(PartialEq, Eq, Structural, Clone, Copy, Debug, Hash, PartialOrd, Ord)]
pub struct GObjectId {
    inner: u32,
}

impl GObjectId {
    /// The integer that this identifier wraps.
    pub closed spec fn value(&self) -> u32 {
        self.inner
    }

    /// The reserved identifier 0.
    pub fn invalid() -> (r: Self)
        ensures
            r.value() == 0,
    {
        GObjectId { inner: 0 }
    }

    /// Whether this is not the reserved identifier 0.
    pub fn is_valid(&self) -> (r: bool)
        ensures
            r == (self.value() != 0),
    {
        self.inner != 0
    }

    pub fn get(&self) -> (r: u32)
        ensures
            r == self.value(),
    {
        self.inner
    }
}

/// Identifier of a light of a scene.
#[derive(PartialEq, Eq, Structural, Clone, Copy, Debug, Hash, PartialOrd, Ord)]
pub struct GLightId {
    inner: u32,
}

impl GLightId {
    /// The integer that this identifier wraps.
    pub closed spec fn value(&self) -> u32 {
        self.inner
    }

    /// The reserved identifier 0.
    pub fn invalid() -> (r: Self)
        ensures
            r.value() == 0,
    {
        GLightId { inner: 0 }
    }

    /// Whether this is not the reserved identifier 0.
    pub fn is_valid(&self) -> (r: bool)
        ensures
            r == (self.value() != 0),
    {
        self.inner != 0
    }

    pub fn get(&self) -> (r: u32)
        ensures
            r == self.value(),
    {
        self.inner
    }
}

/// Identifier of a process of the runtime.
#[derive(PartialEq, Eq, Structural, Clone, Copy, Debug, Hash, PartialOrd, Ord)]
pub struct ProcessId {
    inner: u64,
}

impl ProcessId {
    /// The integer that this identifier wraps.
    pub closed spec fn value(&self) -> u64 {
        self.inner
    }

    /// The reserved identifier 0.
    pub fn invalid() -> (r: Self)
        ensures
            r.value() == 0,
    {
        ProcessId { inner: 0 }
    }

    /// The identifier that wraps `id`.
    pub fn from_value(id: u64) -> (r: Self)
        ensures
            r.value() == id,
    {
        ProcessId { inner: id }
    }

    pub fn get(&self) -> (r: u64)
        ensures
            r == self.value(),
    {
        self.inner
    }
}

/// Identifier of a remote procedure call connection.
#[derive(PartialEq, Eq, Structural, Clone, Copy, Debug, Hash, PartialOrd, Ord)]
pub struct RpcConnectionId {
    inner: u64,
}

impl RpcConnectionId {
    /// The integer that this identifier wraps.
    pub closed spec fn value(&self) -> u64 {
        self.inner
    }

    /// The reserved identifier 0.
    pub fn invalid() -> (r: Self)
        ensures
            r.value() == 0,
    {
        RpcConnectionId { inner: 0 }
    }

    /// Whether this is not the reserved identifier 0.
    pub fn is_valid(&self) -> (r: bool)
        ensures
            r == (self.value() != 0),
    {
        self.inner != 0
    }
}

/// An identifier that wraps a `u64`; 0 is the invalid identifier.
pub trait ArachneId: PartialOrd + PartialEq + Ord + Eq + Copy + Sized {
    /// The integer that this identifier wraps.
    spec fn id_value(&self) -> u64;

    /// The identifier that wraps `x`.
    fn create(x: u64) -> (r: Self)
        ensures
            r.id_value() == x,
    ;

    /// The integer that this identifier wraps.
    fn get(&self) -> (r: u64)
        ensures
            r == self.id_value(),
    ;

    /// Whether this is not the identifier 0.
    fn is_valid(&self) -> (r: bool)
        ensures
            r == (self.id_value() != 0),
    {
        self.get() != 0
    }

    /// The identifier 0.
    fn invalid() -> (r: Self)
        ensures
            r.id_value() == 0,
    {
        Self::create(0)
    }
}

/// A request received from the peer, to be answered.
#[derive(PartialEq, Eq, Structural, PartialOrd, Ord, Hash, Clone, Copy, Debug)]
pub struct RequestId {
    inner: u64,
}

impl ArachneId for RequestId {
    closed spec fn id_value(&self) -> u64 {
        self.inner
    }

    fn create(x: u64) -> (r: Self) {
        RequestId { inner: x }
    }

    fn get(&self) -> (r: u64) {
        self.inner
    }
}

/// A request sent to the peer, whose answer is awaited.
#[derive(PartialEq, Eq, Structural, PartialOrd, Ord, Hash, Clone, Copy, Debug)]
pub struct ResponseId {
    inner: u64,
}

impl ArachneId for ResponseId {
    closed spec fn id_value(&self) -> u64 {
        self.inner
    }

    fn create(x: u64) -> (r: Self) {
        ResponseId { inner: x }
    }

    fn get(&self) -> (r: u64) {
        self.inner
    }
}

} // verus!
