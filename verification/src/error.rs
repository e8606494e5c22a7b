//! What can go wrong while a snapshot is captured or restored.
use vstd::prelude::*;

verus! {

/// An error that this library raises. Each variant carries the message.
#[derive(Clone, Debug, PartialEq, Eq)]
pub enum SnapshotError {
    /// A vCPU, the guest memory or the dirty tracking failed.
    Io(String),
    /// A device or the interrupt controller refused an operation.
    DeviceRefused(String),
    /// The snapshot does not fit the machine that it is restored into.
    ConfigMismatch(String),
}

/// A `SnapshotError` with its message as a sequence of characters.
pub enum SnapshotErrorView {
    Io(Seq<char>),
    DeviceRefused(Seq<char>),
    ConfigMismatch(Seq<char>),
}

impl View for SnapshotError {
    type V = SnapshotErrorView;

    open spec fn view(&self) -> SnapshotErrorView {
        match *self {
            SnapshotError::Io(text) => SnapshotErrorView::Io(text@),
            SnapshotError::DeviceRefused(text) => SnapshotErrorView::DeviceRefused(text@),
            SnapshotError::ConfigMismatch(text) => SnapshotErrorView::ConfigMismatch(text@),
        }
    }
}

/// Why a procedure stopped: an error of this library, or an error `E` of the
/// host (the file system, the container file) that is handed on unchanged.
#[derive(Clone, Debug, PartialEq, Eq)]
pub enum Failure<E> {
    Snapshot(SnapshotError),
    Host(E),
}

/// A `Failure` with its message as a sequence of characters.
pub enum FailureView<E> {
    Snapshot(SnapshotErrorView),
    Host(E),
}

impl<E> View for Failure<E> {
    type V = FailureView<E>;

    open spec fn view(&self) -> FailureView<E> {
        match *self {
            Failure::Snapshot(error) => FailureView::Snapshot(error@),
            Failure::Host(error) => FailureView::Host(error),
        }
    }
}

} // verus!
