//! Error values returned by the verified core.  They carry no message
//! text: callers know which entity they asked about and compose their own
//! diagnostics around these values.

use vstd::prelude::*;

verus! {

/// Faults of a single device, raised by path or command computations.
#[derive(Debug, Clone, Copy, PartialEq, Eq, Structural)]
pub enum DeviceError {
    /// The cable has no packet filter, so it has no management channel.
    NotWirefilter,
    /// The namespace has no interface of the requested name.
    NoSuchInterface,
    /// A namespace endpoint needs an interface name and none was given.
    PortRequired,
}

/// Faults of the topology aggregate.
#[derive(Debug, Clone, Copy, PartialEq, Eq, Structural)]
pub enum TopologyError {
    /// Another device of any kind already has this name.
    NameAlreadyUsed,
    /// A cable endpoint still references the device being removed.
    DeviceInUse,
}

} // verus!
