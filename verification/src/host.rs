//! What the host has that is opaque here.
use vstd::prelude::*;

verus! {

/// The types of a host: its error, and the states that it records and loads.
pub trait Host {
    /// An error of the file system or of the state file.
    type Error;
    /// The state of a virtio transport.
    type Transport;
    /// The state of the device behind a transport.
    type Device;
    /// The state of the interrupt distributor.
    type Distributor;
    /// The pending interrupts.
    type Pending;
}

} // verus!
