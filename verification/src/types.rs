//! Plain kernel-facing value types: handles, services and events.

use vstd::prelude::*;

verus! {

/// A kernel object handle.
#[derive(Default, Debug, Copy, Clone, PartialEq, Eq, Structural, Hash)]
pub struct Handle(pub u32);

/// A session to an operating-system service.
#[derive(Default, Debug, Clone, PartialEq, Eq, Structural, Hash)]
pub struct Service {
    /// The session handle.
    pub session: Handle,
    /// Whether this session owns its handle.
    pub own_handle: u32,
    /// The object id within a shared session.
    pub object_id: u32,
    /// The size of the pointer buffer of the session.
    pub pointer_buffer_size: u16,
}

/// A pair of read/write event handles with an auto-clear flag.
#[derive(Default, Debug, Copy, Clone, PartialEq, Eq, Structural, Hash)]
pub struct Event {
    /// The receiving handle.
    pub revent: Handle,
    /// The signalling handle.
    pub wevent: Handle,
    /// Whether waiting clears the event by itself.
    pub autoclear: bool,
}

} // verus!
