//! System-wide unique identifiers of ports.
use vstd::prelude::*;

verus! {

/// Identifies a client port uniquely across all processes of the system.
#[derive(Debug, Clone, Copy, PartialEq, Eq, Structural)]
pub struct UniqueClientId {
    pub value: u128,
}

/// Identifies a server port uniquely across all processes of the system.
#[derive(Debug, Clone, Copy, PartialEq, Eq, Structural)]
pub struct UniqueServerId {
    pub value: u128,
}

/// Identifies a publisher port uniquely across all processes of the system.
#[derive(Debug, Clone, Copy, PartialEq, Eq, Structural)]
pub struct UniquePublisherId {
    pub value: u128,
}

/// Identifies a subscriber port uniquely across all processes of the system.
#[derive(Debug, Clone, Copy, PartialEq, Eq, Structural)]
pub struct UniqueSubscriberId {
    pub value: u128,
}

impl UniqueClientId {
    /// Wraps a raw 128-bit identifier.
    pub fn new(value: u128) -> (r: Self)
        ensures
            r.value == value,
    {
        UniqueClientId { value }
    }
}

impl UniqueServerId {
    /// Wraps a raw 128-bit identifier.
    pub fn new(value: u128) -> (r: Self)
        ensures
            r.value == value,
    {
        UniqueServerId { value }
    }
}

impl UniquePublisherId {
    /// Wraps a raw 128-bit identifier.
    pub fn new(value: u128) -> (r: Self)
        ensures
            r.value == value,
    {
        UniquePublisherId { value }
    }
}

impl UniqueSubscriberId {
    /// Wraps a raw 128-bit identifier.
    pub fn new(value: u128) -> (r: Self)
        ensures
            r.value == value,
    {
        UniqueSubscriberId { value }
    }
}

} // verus!
