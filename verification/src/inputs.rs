//! What capture and restore know of the machine.
use vstd::prelude::*;

verus! {

/// The parts of a virtual machine that a snapshot is made of.
#[derive(Clone, Debug, PartialEq, Eq)]
pub struct CaptureInputs {
    pub vcpu_count: usize,
    /// The hypervisor handles of the vCPUs.
    pub vcpu_ids: Vec<u64>,
    /// The MMIO base addresses of the virtio transports, in registration order.
    pub virtio_bases: Vec<u64>,
    /// Whether the machine has an interrupt controller that keeps a state of
    /// its own.
    pub has_irqchip: bool,
    /// Whether the machine has an emulated interrupt distributor.
    pub has_gic: bool,
    pub nested_enabled: bool,
}

} // verus!
