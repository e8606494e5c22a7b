//! Capture and restore of virtual machine snapshots: the decisions, the layout
//! arithmetic and the protocols, each with a contract that Verus checks.
pub mod capture;
pub mod capture_laws;
pub mod capture_step_laws;
pub mod capture_trace_laws;
pub mod device_laws;
pub mod error;
pub mod guest_memory;
pub mod host;
pub mod inputs;
pub mod message_laws;
pub mod ram;
pub mod ram_laws;
pub mod restore;
pub mod restore_laws;
pub mod restore_step_laws;
pub mod restore_trace_laws;
pub mod round_trip_laws;
pub mod run_laws;
pub mod section_laws;
pub mod sections;
pub mod text;
pub mod text_laws;
pub mod tracking;
pub mod tracking_laws;
pub mod vcpu;
pub mod vcpu_laws;
