//! The capture of a snapshot as a machine that says which step comes next.
//!
//! The steps themselves (messages to vCPU threads, calls into devices, file
//! system work) are done by the caller, who hands back what came of each. The
//! machine decides what follows, what is undone after a failure, and what the
//! whole procedure returns; and it keeps what was recorded.
use crate::capture_laws;
use crate::error::{Failure, FailureView, SnapshotError, SnapshotErrorView};
use crate::host::Host;
use crate::inputs::CaptureInputs;
use crate::ram::{copy_layout, DirtyBlock, RamExtent, RamLayout};
use crate::sections;
use crate::sections::{
    assemble, meta_section, virtio_section, Container, MetaSection, Recorded, RecordedView,
    VirtioMmioSection,
};
use crate::text;
use crate::tracking;
use crate::tracking::{
    choose_source, next_image, Base, ImageSource, LastImage, Backlog, BacklogView, Tracker,
};
use crate::vcpu;
use crate::vcpu::{Expected, Reply, VcpuEvent, VcpuResponse, VcpuStep};
use vstd::prelude::*;

verus! {

/// What was recorded on a host.
pub type RecordedOf<H> = Recorded<
    <H as Host>::Distributor,
    <H as Host>::Pending,
    <H as Host>::Transport,
    <H as Host>::Device,
>;

/// The view of what was recorded on a host.
pub type RecordedViewOf<H> = RecordedView<
    <H as Host>::Distributor,
    <H as Host>::Pending,
    <H as Host>::Transport,
    <H as Host>::Device,
>;

/// What the machine was started for.
#[derive(Clone, Copy, Debug, PartialEq, Eq)]
pub enum Task {
    /// Capture a snapshot and publish it.
    Capture,
    /// Only start to track which memory the guest writes.
    ArmDirtyTracking,
}

/// One step of a capture. Devices are given by their position in
/// `CaptureInputs::virtio_bases`.
#[derive(Clone, Debug, PartialEq, Eq)]
pub enum CaptureStep {
    Vcpu(VcpuStep),
    PauseDevice { device: usize },
    SerializeDevice { device: usize },
    /// Read the device type and the transport state.
    ReadTransport { device: usize },
    SnapshotIrqchip,
    /// Read the distributor, if there is one, and the pending interrupts.
    ReadInterruptState,
    /// See whether the staging directory exists.
    LookForStage,
    RemoveStage,
    CreateStage,
    /// Collect the memory blocks that were written, and protect them again.
    TakeDirtyBlocks,
    /// See whether the directory to publish to holds a memory image.
    LookForPages,
    /// Write the memory image into the staging directory, with the blocks that
    /// the run holds.
    WriteImage { source: ImageSource },
    /// Read the virtual counter.
    ReadClock,
    /// Write the state sections that the run holds into the staging directory.
    WriteContainer,
    /// See whether the directory to publish to exists.
    LookForTarget,
    /// Rename the directory to publish to into the staging directory, which is new and
    /// holds nothing of that name.
    SetTargetAside,
    /// Rename the staging directory to the directory to publish to. `replacing`
    /// says whether one was set aside for it.
    RenameStage { replacing: bool },
    /// Remove the directory that was set aside, which was renamed along.
    RemoveOld,
    EnableTracking,
    /// Rename the directory that was set aside back, out of the staging directory.
    PutTargetBack,
    /// Remove the staging directory after a failure. Whether that succeeds does
    /// not matter.
    DiscardStage,
    ResumeDevice { device: usize },
}

/// What came of a step.
pub enum Outcome<H: Host> {
    Done,
    /// It failed, for this reason.
    Failed(String),
    /// It failed with an error that is handed on unchanged.
    Raised(H::Error),
    Reply(Reply),
    /// Whether what was looked for is there.
    Found(bool),
    /// The state of a device.
    Serialized(H::Device),
    Transport { device_type: u32, state: H::Transport },
    /// The state that the interrupt controller keeps itself, if it does.
    Irqchip(Option<Vec<u8>>),
    Interrupts { gic: Option<H::Distributor>, vcpu_list: H::Pending },
    Blocks(Vec<DirtyBlock>),
    /// The image is written; its layout.
    Image(RamLayout),
    /// What the virtual counter stands at.
    Clock(u64),
}

/// Whether `outcome` is of the kind that `step` has.
pub open spec fn fits<H: Host>(step: CaptureStep, outcome: Outcome<H>) -> bool {
    match step {
        CaptureStep::Vcpu(VcpuStep::Send { .. })
        | CaptureStep::PauseDevice { .. }
        | CaptureStep::EnableTracking
        | CaptureStep::ResumeDevice { .. } => outcome is Done || outcome is Failed,
        CaptureStep::SerializeDevice { .. } => outcome is Serialized || outcome is Failed,
        CaptureStep::SnapshotIrqchip => outcome is Irqchip || outcome is Failed,
        CaptureStep::TakeDirtyBlocks => outcome is Blocks || outcome is Failed,
        CaptureStep::Vcpu(VcpuStep::Receive { .. }) => outcome is Reply,
        CaptureStep::Vcpu(VcpuStep::RequestExit { .. })
        | CaptureStep::DiscardStage => outcome is Done,
        CaptureStep::ReadTransport { .. } => outcome is Transport,
        CaptureStep::ReadInterruptState => outcome is Interrupts,
        CaptureStep::ReadClock => outcome is Clock,
        CaptureStep::LookForStage
        | CaptureStep::LookForPages
        | CaptureStep::LookForTarget => outcome is Found,
        CaptureStep::WriteImage { .. } => outcome is Image || outcome is Raised,
        CaptureStep::RemoveStage
        | CaptureStep::CreateStage
        | CaptureStep::WriteContainer
        | CaptureStep::SetTargetAside
        | CaptureStep::RenameStage { .. }
        | CaptureStep::RemoveOld
        | CaptureStep::PutTargetBack => outcome is Done || outcome is Raised,
    }
}

/// The error of a device that refused to be paused or serialized.
pub open spec fn device_error_view(base: u64, cause: Seq<char>) -> SnapshotErrorView {
    SnapshotErrorView::DeviceRefused(
        "base=0x"@ + text::hexadecimal(base as nat) + ": "@ + cause,
    )
}

/// The failure that the outcome of a step amounts to, if it is one.
pub open spec fn refusal<H: Host>(
    inputs: CaptureInputs,
    step: CaptureStep,
    outcome: Outcome<H>,
) -> Option<FailureView<H::Error>> {
    match (step, outcome) {
        (_, Outcome::Raised(error)) => Some(FailureView::Host(error)),
        (CaptureStep::Vcpu(VcpuStep::Send { vcpu, event }), Outcome::Failed(cause)) => Some(
            FailureView::Snapshot(vcpu::send_error_view(event, cause@)),
        ),
        (CaptureStep::Vcpu(VcpuStep::Receive { vcpu, expected }), Outcome::Reply(reply)) =>
            if vcpu::answers(expected, reply) {
                None
            } else {
                Some(FailureView::Snapshot(vcpu::reply_error_view(vcpu, expected, reply)))
            },
        (CaptureStep::PauseDevice { device }, Outcome::Failed(cause)) => Some(
            FailureView::Snapshot(
                device_error_view(inputs.virtio_bases@[device as int], cause@),
            ),
        ),
        (CaptureStep::SerializeDevice { device }, Outcome::Failed(cause)) => Some(
            FailureView::Snapshot(
                device_error_view(inputs.virtio_bases@[device as int], cause@),
            ),
        ),
        (CaptureStep::SnapshotIrqchip, Outcome::Failed(cause)) => Some(
            FailureView::Snapshot(
                SnapshotErrorView::DeviceRefused("irqchip snapshot: "@ + cause@),
            ),
        ),
        (CaptureStep::TakeDirtyBlocks, Outcome::Failed(cause)) => Some(
            FailureView::Snapshot(SnapshotErrorView::Io("dirty RAM: "@ + cause@)),
        ),
        (CaptureStep::EnableTracking, Outcome::Failed(cause)) => Some(
            FailureView::Snapshot(SnapshotErrorView::Io("enable dirty RAM: "@ + cause@)),
        ),
        (CaptureStep::ResumeDevice { .. }, Outcome::Failed(cause)) => Some(
            FailureView::Snapshot(SnapshotErrorView::DeviceRefused("resume: "@ + cause@)),
        ),
        _ => None,
    }
}

/// Whether the run goes on as planned even if this step is refused: the other devices
/// are resumed all the same, and a new snapshot is not undone because the old one stays.
pub open spec fn goes_on(step: CaptureStep) -> bool {
    step is RemoveOld || step is ResumeDevice
}

/// Whether the outcome of a step puts an end to what was planned.
pub open spec fn diverts<H: Host>(
    inputs: CaptureInputs,
    step: CaptureStep,
    outcome: Outcome<H>,
) -> bool {
    refusal(inputs, step, outcome) is Some && !goes_on(step)
}

/// What has to be done at once because of what a step found, with the last image where
/// `base` says.
pub open spec fn follow_up<H: Host>(
    base: Base,
    step: CaptureStep,
    outcome: Outcome<H>,
) -> Seq<CaptureStep> {
    match (step, outcome) {
        (CaptureStep::LookForStage, Outcome::Found(true)) => seq![CaptureStep::RemoveStage],
        (CaptureStep::LookForPages, Outcome::Found(there)) => seq![
            CaptureStep::WriteImage { source: tracking::image_source(base, there) },
        ],
        (CaptureStep::LookForTarget, Outcome::Found(true)) => seq![
            CaptureStep::SetTargetAside,
            CaptureStep::RenameStage { replacing: true },
            CaptureStep::RemoveOld,
        ],
        (CaptureStep::LookForTarget, Outcome::Found(false)) => seq![
            CaptureStep::RenameStage { replacing: false },
        ],
        _ => Seq::empty(),
    }
}

/// The same steps as steps of a capture.
pub open spec fn on_vcpus(steps: Seq<VcpuStep>) -> Seq<CaptureStep> {
    Seq::new(steps.len(), |i: int| CaptureStep::Vcpu(steps[i]))
}

/// Every vCPU is brought to a standstill.
pub open spec fn pause_script(inputs: CaptureInputs) -> Seq<CaptureStep> {
    on_vcpus(vcpu::pause_exchange(inputs.vcpu_count as nat, inputs.vcpu_ids@))
}

/// Every vCPU is let run on.
pub open spec fn resume_script(inputs: CaptureInputs) -> Seq<CaptureStep> {
    on_vcpus(vcpu::resume_exchange(inputs.vcpu_count as nat))
}

/// The vCPUs from position `from` on are told to run on.
pub open spec fn later_resumes(inputs: CaptureInputs, from: int) -> Seq<CaptureStep> {
    Seq::new(
        if from <= inputs.vcpu_count {
            (inputs.vcpu_count - from) as nat
        } else {
            0
        },
        |i: int|
            CaptureStep::Vcpu(
                VcpuStep::Send { vcpu: (from + i) as usize, event: VcpuEvent::Resume },
            ),
    )
}

/// Every device is paused, serialized and recorded, one after the other.
pub open spec fn device_script(inputs: CaptureInputs) -> Seq<CaptureStep> {
    Seq::new(
        3 * inputs.virtio_bases@.len(),
        |i: int|
            {
                let device = (i / 3) as usize;
                if i % 3 == 0 {
                    CaptureStep::PauseDevice { device }
                } else if i % 3 == 1 {
                    CaptureStep::SerializeDevice { device }
                } else {
                    CaptureStep::ReadTransport { device }
                }
            },
    )
}

/// Every device is let run on.
pub open spec fn resume_device_script(inputs: CaptureInputs) -> Seq<CaptureStep> {
    Seq::new(
        inputs.virtio_bases@.len(),
        |i: int| CaptureStep::ResumeDevice { device: i as usize },
    )
}

/// The staged snapshot takes the place of the published one. What that takes depends
/// on whether there is one.
pub open spec fn publish_script() -> Seq<CaptureStep> {
    seq![CaptureStep::LookForTarget]
}

/// All that is done while the vCPUs stand still, up to the resumption of the
/// devices.
pub open spec fn paused_script(inputs: CaptureInputs) -> Seq<CaptureStep> {
    device_script(inputs) + (if inputs.has_irqchip {
        seq![CaptureStep::SnapshotIrqchip]
    } else {
        Seq::empty()
    }) + seq![
        CaptureStep::ReadInterruptState,
        CaptureStep::LookForStage,
        CaptureStep::CreateStage,
        CaptureStep::TakeDirtyBlocks,
        CaptureStep::LookForPages,
        CaptureStep::ReadClock,
        CaptureStep::WriteContainer,
    ] + publish_script() + seq![CaptureStep::EnableTracking]
}

/// The whole of a task, before it is known what will be found.
pub open spec fn task_script(task: Task, inputs: CaptureInputs) -> Seq<CaptureStep> {
    match task {
        Task::Capture => pause_script(inputs) + paused_script(inputs) + resume_device_script(inputs)
            + resume_script(inputs),
        Task::ArmDirtyTracking => pause_script(inputs) + seq![CaptureStep::EnableTracking]
            + resume_script(inputs),
    }
}

/// The order in which the steps of a capture come.
pub open spec fn phase(step: CaptureStep) -> int {
    match step {
        CaptureStep::Vcpu(VcpuStep::Send { event: VcpuEvent::Resume, .. }) => 12,
        CaptureStep::Vcpu(VcpuStep::Send { .. }) => 0,
        CaptureStep::Vcpu(VcpuStep::RequestExit { .. }) => 1,
        CaptureStep::Vcpu(VcpuStep::Receive { expected: Expected::Resumed, .. }) => 13,
        CaptureStep::Vcpu(VcpuStep::Receive { .. }) => 2,
        CaptureStep::PauseDevice { .. }
        | CaptureStep::SerializeDevice { .. }
        | CaptureStep::ReadTransport { .. } => 3,
        CaptureStep::SnapshotIrqchip | CaptureStep::ReadInterruptState => 4,
        CaptureStep::LookForStage | CaptureStep::RemoveStage | CaptureStep::CreateStage => 5,
        CaptureStep::TakeDirtyBlocks
        | CaptureStep::LookForPages
        | CaptureStep::WriteImage { .. } => 6,
        CaptureStep::ReadClock | CaptureStep::WriteContainer => 7,
        CaptureStep::LookForTarget
        | CaptureStep::SetTargetAside
        | CaptureStep::RenameStage { .. }
        | CaptureStep::RemoveOld => 8,
        CaptureStep::EnableTracking => 9,
        CaptureStep::PutTargetBack | CaptureStep::DiscardStage => 10,
        CaptureStep::ResumeDevice { .. } => 11,
    }
}

/// What is left to be done once `step` has put an end to what was planned. A capture
/// tells every vCPU to run on, even if one cannot be told; but no answer is awaited any
/// more once one could not be told or has not answered as it should.
pub open spec fn recovery(
    task: Task,
    inputs: CaptureInputs,
    step: CaptureStep,
) -> Seq<CaptureStep> {
    let rank = phase(step);
    match step {
        CaptureStep::Vcpu(VcpuStep::Send { vcpu, event: VcpuEvent::Resume }) => match task {
            Task::Capture => later_resumes(inputs, vcpu + 1),
            Task::ArmDirtyTracking => Seq::empty(),
        },
        CaptureStep::Vcpu(VcpuStep::Receive { expected: Expected::Resumed, .. }) => Seq::empty(),
        _ => (if step == (CaptureStep::RenameStage { replacing: true }) {
            seq![CaptureStep::PutTargetBack]
        } else {
            Seq::empty()
        }) + (if task is ArmDirtyTracking || rank <= 2 {
            resume_script(inputs)
        } else if rank <= 5 || step is PutTargetBack {
            resume_device_script(inputs) + resume_script(inputs)
        } else {
            seq![CaptureStep::DiscardStage] + resume_device_script(inputs) + resume_script(inputs)
        }),
    }
}

/// The step that brings this step about, if it depends on what is found.
pub open spec fn origin(step: CaptureStep) -> Option<CaptureStep> {
    match step {
        CaptureStep::RemoveStage => Some(CaptureStep::LookForStage),
        CaptureStep::WriteImage { .. } => Some(CaptureStep::LookForPages),
        CaptureStep::SetTargetAside
        | CaptureStep::RenameStage { .. }
        | CaptureStep::RemoveOld => Some(CaptureStep::LookForTarget),
        _ => None,
    }
}

/// Whether the step is one that a task comes to whatever is found, before anything is
/// resumed.
pub open spec fn planned(step: CaptureStep) -> bool {
    match step {
        CaptureStep::Vcpu(VcpuStep::Send { event, .. }) => !(event is Resume),
        CaptureStep::Vcpu(VcpuStep::RequestExit { .. }) => true,
        CaptureStep::Vcpu(VcpuStep::Receive { expected, .. }) => !(expected is Resumed),
        CaptureStep::RemoveStage
        | CaptureStep::WriteImage { .. }
        | CaptureStep::SetTargetAside
        | CaptureStep::RenameStage { .. }
        | CaptureStep::RemoveOld
        | CaptureStep::PutTargetBack
        | CaptureStep::DiscardStage
        | CaptureStep::ResumeDevice { .. } => false,
        _ => true,
    }
}

/// The planned ones of these steps.
pub open spec fn plan_of(steps: Seq<CaptureStep>) -> Seq<CaptureStep> {
    steps.filter(|step: CaptureStep| planned(step))
}

/// Whether two steps do the same. To force a vCPU out of the guest does not count.
pub open spec fn same_work(x: CaptureStep, y: CaptureStep) -> bool {
    match (x, y) {
        (CaptureStep::Vcpu(VcpuStep::RequestExit { .. }), _) => false,
        (CaptureStep::WriteImage { .. }, CaptureStep::WriteImage { .. })
        | (CaptureStep::RenameStage { .. }, CaptureStep::RenameStage { .. }) => true,
        _ => x == y,
    }
}

/// A step that was done, and what came of it.
pub struct Performed<H: Host> {
    pub step: CaptureStep,
    pub outcome: Outcome<H>,
}

/// What is recorded once a step was done.
pub open spec fn record<H: Host>(
    inputs: CaptureInputs,
    recorded: RecordedViewOf<H>,
    step: CaptureStep,
    outcome: Outcome<H>,
) -> RecordedViewOf<H> {
    match (step, outcome) {
        (
            CaptureStep::Vcpu(VcpuStep::Receive { expected: Expected::Paused, .. }),
            Outcome::Reply(Ok(VcpuResponse::Paused(state))),
        ) => RecordedView { vcpu_states: recorded.vcpu_states.push(state), ..recorded },
        (CaptureStep::SerializeDevice { .. }, Outcome::Serialized(state)) => RecordedView {
            device: Some(state),
            ..recorded
        },
        (
            CaptureStep::ReadTransport { device },
            Outcome::Transport { device_type, state },
        ) => RecordedView {
            virtio: recorded.virtio.push(
                VirtioMmioSection {
                    mmio_base: inputs.virtio_bases@[device as int],
                    device_type,
                    transport: state,
                    device: recorded.device,
                },
            ),
            device: None,
            ..recorded
        },
        (CaptureStep::SnapshotIrqchip, Outcome::Irqchip(state)) => RecordedView {
            hvf_gic: state,
            ..recorded
        },
        (
            CaptureStep::ReadInterruptState,
            Outcome::Interrupts { gic, vcpu_list },
        ) => RecordedView { gic, vcpu_list: Some(vcpu_list), ..recorded },
        (CaptureStep::WriteImage { .. }, Outcome::Image(layout)) => RecordedView {
            ram: Some(layout),
            ..recorded
        },
        (CaptureStep::ReadClock, Outcome::Clock(now)) => RecordedView { counter: now, ..recorded },
        _ => recorded,
    }
}

/// What is recorded after these steps.
pub open spec fn recorded_after<H: Host>(
    inputs: CaptureInputs,
    history: Seq<Performed<H>>,
) -> RecordedViewOf<H>
    decreases history.len(),
{
    if history.len() == 0 {
        RecordedView::empty()
    } else {
        record(
            inputs,
            recorded_after(inputs, history.drop_last()),
            history.last().step,
            history.last().outcome,
        )
    }
}

/// What is known of the tracking once a step was done. Blocks that were handed out are
/// kept until an image with them is published. If they could not be had, or the
/// tracking could not be started, it cannot be told what was written.
pub open spec fn track<H: Host>(
    backlog: BacklogView,
    step: CaptureStep,
    outcome: Outcome<H>,
) -> BacklogView {
    match (step, outcome) {
        (CaptureStep::TakeDirtyBlocks, Outcome::Blocks(blocks)) => BacklogView {
            blocks: backlog.blocks + blocks@,
            ..backlog
        },
        (CaptureStep::TakeDirtyBlocks, Outcome::Failed(_)) => BacklogView {
            base: Base::Unknown,
            ..backlog
        },
        (CaptureStep::RenameStage { .. }, Outcome::Done) => BacklogView {
            base: Base::Target,
            blocks: Seq::empty(),
        },
        (CaptureStep::EnableTracking, Outcome::Failed(_)) => BacklogView {
            base: Base::Unknown,
            ..backlog
        },
        _ => backlog,
    }
}

/// What is known of the tracking after these steps.
pub open spec fn backlog_after<H: Host>(
    initial: BacklogView,
    history: Seq<Performed<H>>,
) -> BacklogView
    decreases history.len(),
{
    if history.len() == 0 {
        initial
    } else {
        track(
            backlog_after(initial, history.drop_last()),
            history.last().step,
            history.last().outcome,
        )
    }
}

/// What stands in the directory to publish to.
pub enum Published {
    /// What stood there before, if anything.
    Before,
    /// Nothing: what stood there before is set aside.
    Aside,
    /// The new snapshot.
    New,
}

/// What stands in the directory to publish to after these steps.
pub open spec fn published_after<H: Host>(history: Seq<Performed<H>>) -> Published
    decreases history.len(),
{
    if history.len() == 0 {
        Published::Before
    } else {
        match (history.last().step, history.last().outcome) {
            (CaptureStep::SetTargetAside, Outcome::Done) => Published::Aside,
            (CaptureStep::RenameStage { .. }, Outcome::Done) => Published::New,
            (CaptureStep::PutTargetBack, Outcome::Done) => Published::Before,
            _ => published_after(history.drop_last()),
        }
    }
}

/// The state of a capture.
pub struct CaptureState<H: Host> {
    pub task: Task,
    pub inputs: CaptureInputs,
    /// What was known of the tracking at the start.
    pub initial: BacklogView,
    /// What is to be done, in order, unless something is found or fails.
    pub pending: Seq<CaptureStep>,
    pub failure: Option<FailureView<H::Error>>,
    /// What was done so far.
    pub history: Seq<Performed<H>>,
}

impl<H: Host> CaptureState<H> {
    /// Nothing has been done yet.
    pub open spec fn start(task: Task, inputs: CaptureInputs, initial: BacklogView) -> Self {
        CaptureState {
            task,
            inputs,
            initial,
            pending: task_script(task, inputs),
            failure: None,
            history: Seq::empty(),
        }
    }

    /// The first pending step has been done, with this outcome.
    pub open spec fn accept(self, outcome: Outcome<H>) -> Self {
        let step = self.pending[0];
        CaptureState {
            task: self.task,
            inputs: self.inputs,
            initial: self.initial,
            pending: if diverts(self.inputs, step, outcome) {
                recovery(self.task, self.inputs, step)
            } else {
                follow_up(self.backlog().base, step, outcome) + self.pending.drop_first()
            },
            failure: if self.failure is None {
                refusal(self.inputs, step, outcome)
            } else {
                self.failure
            },
            history: self.history.push(Performed { step, outcome }),
        }
    }

    /// Nothing is left to be done.
    pub open spec fn finished(self) -> bool {
        self.pending.len() == 0
    }

    /// What is recorded.
    pub open spec fn recorded(self) -> RecordedViewOf<H> {
        recorded_after(self.inputs, self.history)
    }

    /// What is known of the tracking once `n` steps are done.
    pub open spec fn backlog_at(self, n: int) -> BacklogView {
        backlog_after(self.initial, self.history.take(n))
    }

    /// What is known of the tracking.
    pub open spec fn backlog(self) -> BacklogView {
        backlog_after(self.initial, self.history)
    }

    /// What stands in the directory to publish to.
    pub open spec fn published(self) -> Published {
        published_after(self.history)
    }

    /// The failure that the `k`-th step done amounts to, if it is one.
    pub open spec fn refused(self, k: int) -> Option<FailureView<H::Error>> {
        refusal(self.inputs, self.history[k].step, self.history[k].outcome)
    }

    /// The `k`-th step done has put an end to what was planned.
    pub open spec fn diverted(self, k: int) -> bool {
        diverts(self.inputs, self.history[k].step, self.history[k].outcome)
    }

    /// The steps that were done, then those that are to be done.
    pub open spec fn steps(self) -> Seq<CaptureStep> {
        Seq::new(self.history.len(), |k: int| self.history[k].step) + self.pending
    }

    /// Each step names a device, or a vCPU, that is there.
    pub open spec fn indexed(self) -> bool {
        forall|k: int|
            0 <= k < self.pending.len() ==> step_indexed(self.inputs, #[trigger] self.pending[k])
    }

    /// The steps come in the order of their phases, and each outcome is of the kind
    /// that its step has.
    pub open spec fn ordered(self) -> bool {
        &&& forall|i: int, j: int|
            0 <= i < j < self.steps().len() ==> phase(#[trigger] self.steps()[i]) <= phase(
                #[trigger] self.steps()[j],
            )
        &&& forall|k: int|
            0 <= k < self.history.len() ==> fits(
                (#[trigger] self.history[k]).step,
                self.history[k].outcome,
            )
    }

    /// `failure` is what the first step that was refused amounts to.
    pub open spec fn reports_first_failure(self) -> bool {
        match self.failure {
            None => forall|k: int|
                0 <= k < self.history.len() ==> #[trigger] self.refused(k) is None,
            Some(failure) => exists|k: int|
                0 <= k < self.history.len() && #[trigger] self.refused(k) == Some(failure) && (
                forall|j: int| 0 <= j < k ==> #[trigger] self.refused(j) is None),
        }
    }

    /// Once what was planned has come to an end, only clean-up and resumption are left;
    /// and no clean-up if the old snapshot could not be put back.
    pub open spec fn winds_down(self) -> bool {
        forall|k: int, j: int|
            0 <= k < self.history.len() && #[trigger] self.diverted(k) && k < j
                < self.steps().len() ==> {
                &&& phase(#[trigger] self.steps()[j]) >= 10
                &&& self.history[k].step is PutTargetBack ==> phase(self.steps()[j]) >= 11
            }
    }

    /// The run has, or will have, a step of one of these phases.
    pub open spec fn reaches(self, low: int, high: int) -> bool {
        exists|k: int|
            0 <= k < self.steps().len() && low <= phase(#[trigger] self.steps()[k]) <= high
    }

    /// The run starts with `script`, and as far as that was done, nothing in it
    /// was refused.
    pub open spec fn starts_with(self, script: Seq<CaptureStep>) -> bool {
        &&& script.len() <= self.steps().len()
        &&& forall|k: int| 0 <= k < script.len() ==> #[trigger] self.steps()[k] == script[k]
        &&& forall|k: int|
            0 <= k < script.len() && k < self.history.len() ==> #[trigger] self.refused(k) is None
    }

    /// `script` stands in the run from position `at` on; what stands before is of a
    /// phase before `low`.
    pub open spec fn holds_at(self, script: Seq<CaptureStep>, low: int, at: int) -> bool {
        &&& 0 <= at
        &&& at + script.len() <= self.steps().len()
        &&& forall|k: int| 0 <= k < at ==> phase(#[trigger] self.steps()[k]) < low
        &&& forall|c: int|
            0 <= c < script.len() ==> self.steps()[at + c] == #[trigger] script[c]
    }

    /// `script` stands in the run.
    pub open spec fn holds(self, script: Seq<CaptureStep>, low: int) -> bool {
        exists|at: int| self.holds_at(script, low, at)
    }

    /// The vCPUs are paused before anything else is touched.
    pub open spec fn pauses_first(self) -> bool {
        (self.failure is None || self.reaches(3, 11)) ==> self.starts_with(
            pause_script(self.inputs),
        )
    }

    /// In a capture, the devices are paused and serialized before memory is
    /// copied and anything is written.
    pub open spec fn quiesces_first(self) -> bool {
        self.task is Capture && (self.failure is None || self.reaches(4, 10)) ==> self.starts_with(
            pause_script(self.inputs) + device_script(self.inputs),
        )
    }

    /// How many of the vCPUs have reported their state by the time that `done`
    /// steps are done.
    pub open spec fn reported(self, done: int) -> int {
        let before = self.inputs.vcpu_count + self.inputs.vcpu_ids@.len();
        if done <= before {
            0
        } else if done <= before + self.inputs.vcpu_count {
            done - before
        } else {
            self.inputs.vcpu_count as int
        }
    }

    /// The states kept are those that the vCPUs have reported, each at the
    /// position of its vCPU, and none is asked for a second time.
    pub open spec fn keeps_states(self) -> bool {
        self.starts_with(pause_script(self.inputs)) ==> {
            let states = self.recorded().vcpu_states;
            &&& forall|k: int|
                pause_script(self.inputs).len() <= k < self.steps().len() ==> phase(
                    #[trigger] self.steps()[k],
                ) >= 3
            &&& states.len() == self.reported(self.history.len() as int)
            &&& forall|i: int|
                0 <= i < states.len() ==> self.history[self.inputs.vcpu_count
                    + self.inputs.vcpu_ids@.len() + i].outcome == Outcome::<H>::Reply(
                    Ok(VcpuResponse::Paused(#[trigger] states[i])),
                )
        }
    }

    /// How many devices have been recorded by the time that `done` steps are done.
    pub open spec fn devices_recorded(self, done: int) -> int {
        let before = pause_script(self.inputs).len();
        let count = self.inputs.virtio_bases@.len() as int;
        if done <= before {
            0
        } else if done <= before + 3 * count {
            (done - before) / 3
        } else {
            count
        }
    }

    /// The `i`-th section is what the `i`-th device has given.
    pub open spec fn keeps_device(self, i: int) -> bool {
        let at = pause_script(self.inputs).len() + 3 * i;
        let section = self.recorded().virtio[i];
        &&& section.mmio_base == self.inputs.virtio_bases@[i]
        &&& section.device matches Some(state) && self.history[at + 1].outcome == Outcome::<
            H,
        >::Serialized(state)
        &&& self.history[at + 2].outcome == Outcome::<H>::Transport {
            device_type: section.device_type,
            state: section.transport,
        }
    }

    /// The sections kept are those of the devices, each at the position of its device.
    pub open spec fn keeps_devices(self) -> bool {
        let done = self.history.len() as int;
        let before = pause_script(self.inputs).len();
        let script = pause_script(self.inputs) + device_script(self.inputs);
        self.task is Capture && self.starts_with(script) ==> {
            &&& forall|k: int|
                script.len() <= k < self.steps().len() ==> phase(#[trigger] self.steps()[k]) >= 4
            &&& self.recorded().virtio.len() == self.devices_recorded(done)
            &&& forall|i: int|
                0 <= i < self.recorded().virtio.len() ==> #[trigger] self.keeps_device(i)
            &&& before < done <= script.len() && (done - before) % 3 == 2
                ==> (self.recorded().device matches Some(state) && self.history[done - 1].outcome
                == Outcome::<H>::Serialized(state))
        }
    }

    /// The run ends, from position `at` on, with the exchange that lets the vCPUs run on,
    /// and nothing in it was refused so far.
    pub open spec fn resumes_fully(self, at: int) -> bool {
        let script = resume_script(self.inputs);
        &&& self.steps().len() == at + script.len()
        &&& forall|k: int| at <= k < self.history.len() ==> #[trigger] self.refused(k) is None
        &&& forall|c: int| 0 <= c < script.len() ==> self.steps()[at + c] == #[trigger] script[c]
    }

    /// The run ends, from position `at` on, with that exchange up to its `b`-th step, the
    /// first that was refused; in a capture, the vCPUs are all told to run on even so.
    pub open spec fn resumes_in_part(self, at: int, b: int) -> bool {
        let script = resume_script(self.inputs);
        let count = self.inputs.vcpu_count as int;
        let placed = if self.task is Capture && b < count {
            count
        } else {
            b + 1
        };
        &&& 0 <= b < script.len()
        &&& at + b < self.history.len()
        &&& self.refused(at + b) is Some
        &&& forall|k: int| at <= k < at + b ==> #[trigger] self.refused(k) is None
        &&& self.steps().len() == at + placed
        &&& forall|c: int| 0 <= c < placed ==> self.steps()[at + c] == #[trigger] script[c]
    }

    /// The exchange that lets the vCPUs run on starts at position `at`.
    pub open spec fn resumes_at(self, at: int) -> bool {
        &&& 0 <= at <= self.steps().len()
        &&& forall|k: int| 0 <= k < at ==> phase(#[trigger] self.steps()[k]) < 12
        &&& self.resumes_fully(at) || exists|b: int| self.resumes_in_part(at, b)
    }

    /// The vCPUs are let run on, whatever happens.
    pub open spec fn resumes_vcpus(self) -> bool {
        exists|at: int| self.resumes_at(at)
    }

    /// In a capture, the devices are let run on once the vCPUs were paused.
    pub open spec fn resumes_devices(self) -> bool {
        self.task is Capture && (self.failure is None || self.reaches(3, 11)) ==> self.holds(
            resume_device_script(self.inputs),
            11,
        )
    }

    /// In a capture, the staging directory is discarded when a step that fills
    /// or publishes it fails, unless the old snapshot could not be put back out of it.
    pub open spec fn discards_stage(self) -> bool {
        self.task is Capture ==> forall|k: int|
            0 <= k < self.history.len() && 6 <= phase(self.history[k].step) <= 9
                && #[trigger] self.diverted(k) ==> {
                ||| k + 1 < self.steps().len() && self.steps()[k + 1] == CaptureStep::DiscardStage
                ||| k + 1 < self.steps().len() && self.steps()[k + 1] == CaptureStep::PutTargetBack
                    && (k + 1 < self.history.len() && self.diverted(k + 1) || k + 2
                    < self.steps().len() && self.steps()[k + 2] == CaptureStep::DiscardStage)
            }
    }

    /// Unless something fails, nothing is undone and the tracking starts afresh; and in
    /// a capture the memory image and the container are written and published.
    pub open spec fn writes_all(self) -> bool {
        self.failure is None ==> {
            &&& forall|k: int|
                0 <= k < self.steps().len() ==> phase(#[trigger] self.steps()[k]) != 10
            &&& self.steps().contains(CaptureStep::EnableTracking)
            &&& self.task is Capture ==> {
                &&& self.pending.contains(CaptureStep::LookForPages) || exists|k: int|
                    0 <= k < self.steps().len() && #[trigger] self.steps()[k] is WriteImage
                &&& self.steps().contains(CaptureStep::WriteContainer)
                &&& self.pending.contains(CaptureStep::LookForTarget) || exists|k: int|
                    0 <= k < self.steps().len() && #[trigger] self.steps()[k] is RenameStage
            }
        }
    }

    /// What is set aside is to be replaced right then, and what is removed was.
    pub open spec fn pairs_target(self) -> bool {
        &&& forall|i: int|
            0 <= i < self.pending.len() ==> (#[trigger] self.pending[i] is SetTargetAside ==> i + 1
                < self.pending.len() && self.pending[i + 1] == CaptureStep::RenameStage {
                replacing: true,
            })
        &&& forall|i: int|
            0 < i < self.pending.len() ==> (#[trigger] self.pending[i] is RemoveOld
                ==> self.pending[i - 1] is RenameStage)
    }

    /// Once the stage is renamed, only the old snapshot is left to be removed before the
    /// tracking starts.
    pub open spec fn closes_publication(self) -> bool {
        &&& forall|i: int, j: int|
            0 <= i < j < self.pending.len() && #[trigger] self.pending[i] is LookForTarget
                ==> phase(#[trigger] self.pending[j]) >= 9
        &&& forall|i: int, j: int|
            0 <= i < j < self.steps().len() && #[trigger] self.steps()[i] is RenameStage ==> {
                ||| #[trigger] self.steps()[j] is RemoveOld
                ||| phase(self.steps()[j]) >= 9
            }
        &&& forall|i: int, j: int|
            0 <= i < j < self.steps().len() && #[trigger] self.steps()[i] is RemoveOld ==> phase(
                #[trigger] self.steps()[j],
            ) >= 9
    }

    /// What was set aside is put back, or replaced, at once; and it is removed only
    /// once it is replaced.
    pub open spec fn keeps_target(self) -> bool {
        &&& self.pending.len() > 0 && self.pending[0] is RemoveOld ==> self.published() is New
        &&& self.published() is Aside ==> {
            ||| self.pending.len() > 0 && (self.pending[0] is PutTargetBack || self.pending[0] == (
            CaptureStep::RenameStage { replacing: true }))
            ||| exists|k: int|
                0 <= k < self.history.len() && self.history[k].step is PutTargetBack
                    && #[trigger] self.refused(k) is Some
        }
    }

    /// If the `k`-th step puts the old snapshot back, the one before it could not
    /// replace it.
    pub open spec fn undoes_at(self, k: int) -> bool {
        self.steps()[k] is PutTargetBack ==> {
            &&& 0 < k <= self.history.len()
            &&& self.history[k - 1].step == (CaptureStep::RenameStage { replacing: true })
            &&& self.diverted(k - 1)
        }
    }

    /// The old snapshot is put back only right after it could not be replaced.
    pub open spec fn puts_back(self) -> bool {
        forall|k: int| 0 <= k < self.steps().len() ==> #[trigger] self.undoes_at(k)
    }

    /// If the `k`-th step replaces the old snapshot, the one before it sets that aside; and
    /// if it removes it, the one before it replaces it.
    pub open spec fn replaces_at(self, k: int) -> bool {
        &&& self.steps()[k] == (CaptureStep::RenameStage { replacing: true }) ==> 0 < k
            && self.steps()[k - 1] is SetTargetAside
        &&& self.steps()[k] is RemoveOld ==> 0 < k && self.steps()[k - 1] == (
        CaptureStep::RenameStage { replacing: true })
    }

    /// The old snapshot is set aside, replaced and removed in a row.
    pub open spec fn replaces(self) -> bool {
        forall|k: int| 0 <= k < self.steps().len() ==> #[trigger] self.replaces_at(k)
    }

    /// If the `k`-th step follows from what a step found, that step was done before.
    pub open spec fn originates_at(self, k: int) -> bool {
        origin(self.steps()[k]) matches Some(source) ==> exists|j: int|
            0 <= j < k && j < self.history.len() && (#[trigger] self.history[j]).step == source
    }

    /// What follows from what a step found comes after that step.
    pub open spec fn originates(self) -> bool {
        forall|k: int| 0 <= k < self.steps().len() ==> #[trigger] self.originates_at(k)
    }

    /// The `i`-th and the `j`-th step do the same.
    pub open spec fn repeats(self, i: int, j: int) -> bool {
        same_work(self.steps()[i], self.steps()[j])
    }

    /// If the `k`-th step sends a message to a vCPU, that is `Pause` or `Resume`.
    pub open spec fn sends_at(self, k: int) -> bool {
        self.steps()[k] matches CaptureStep::Vcpu(VcpuStep::Send { event, .. }) ==> event is Pause
            || event is Resume
    }

    /// Nothing is done twice, but that a vCPU is forced out of the guest as often as it
    /// is listed; and the vCPUs are sent nothing but `Pause` and `Resume`.
    pub open spec fn does_once(self) -> bool {
        &&& forall|i: int, j: int|
            0 <= i < j < self.steps().len() ==> !#[trigger] self.repeats(i, j)
        &&& forall|k: int| 0 <= k < self.steps().len() ==> #[trigger] self.sends_at(k)
    }

    /// What is planned is done in order, and nothing of it is left out, until what was
    /// planned comes to an end.
    pub open spec fn keeps_to_plan(self) -> bool {
        let plan = plan_of(task_script(self.task, self.inputs));
        &&& plan_of(self.steps()).is_prefix_of(plan)
        &&& (forall|k: int| 0 <= k < self.history.len() ==> !#[trigger] self.diverted(k))
            ==> plan_of(self.steps()) == plan
    }

    /// What follows from the `k`-th step done.
    pub open spec fn consequence(self, k: int) -> Seq<CaptureStep> {
        follow_up(self.backlog_at(k).base, self.history[k].step, self.history[k].outcome)
    }

    /// The `j`-th of the steps that follow from the `k`-th step done comes that far behind
    /// it, unless what was planned comes to an end before.
    pub open spec fn follows_at(self, k: int, j: int) -> bool {
        (forall|i: int|
            k < i < k + 1 + j && i < self.history.len() ==> !#[trigger] self.diverted(i)) ==> k + 1
            + j < self.steps().len() && self.steps()[k + 1 + j] == self.consequence(k)[j]
    }

    /// What follows from a step comes right after it.
    pub open spec fn follows(self) -> bool {
        forall|k: int, j: int|
            0 <= k < self.history.len() && 0 <= j < self.consequence(k).len()
                ==> #[trigger] self.follows_at(k, j)
    }

    /// An image is written right after it was looked for one, in the way that goes with
    /// what was found.
    pub open spec fn sources_image(self) -> bool {
        &&& forall|i: int|
            0 < i < self.pending.len() ==> !(#[trigger] self.pending[i] is WriteImage)
        &&& forall|k: int|
            0 <= k < self.steps().len() && k <= self.history.len()
                && #[trigger] self.steps()[k] is WriteImage ==> self.sourced_at(k)
    }

    /// The `k`-th step writes an image in the way that goes with what the step before it
    /// found.
    pub open spec fn sourced_at(self, k: int) -> bool {
        &&& 0 < k <= self.history.len()
        &&& self.history[k - 1].step is LookForPages
        &&& self.history[k - 1].outcome matches Outcome::Found(there)
        &&& self.steps()[k] == CaptureStep::WriteImage {
            source: tracking::image_source(self.backlog_at(k - 1).base, there),
        }
    }

    /// What holds of a capture at every point.
    pub open spec fn valid(self) -> bool {
        &&& self.indexed()
        &&& self.ordered()
        &&& self.reports_first_failure()
        &&& self.winds_down()
        &&& self.pauses_first()
        &&& self.quiesces_first()
        &&& self.keeps_states()
        &&& self.keeps_devices()
        &&& self.resumes_vcpus()
        &&& self.resumes_devices()
        &&& self.discards_stage()
        &&& self.writes_all()
        &&& self.pairs_target()
        &&& self.closes_publication()
        &&& self.puts_back()
        &&& self.replaces()
        &&& self.keeps_target()
        &&& self.originates()
        &&& self.does_once()
        &&& self.keeps_to_plan()
        &&& self.follows()
        &&& self.sources_image()
    }
}

fn device_error(base: u64, cause: &str) -> (error: SnapshotError)
    ensures
        error@ == device_error_view(base, cause@),
{
    let mut message = "base=0x".to_owned();
    text::append_hexadecimal(&mut message, base);
    message.append(": ");
    message.append(cause);
    SnapshotError::DeviceRefused(message)
}

fn prefixed(prefix: &str, cause: &str) -> (message: String)
    ensures
        message@ == prefix@ + cause@,
{
    let mut message = prefix.to_owned();
    message.append(cause);
    message
}

fn refuse<X>(error: SnapshotError) -> (judged: Result<Vec<CaptureStep>, Failure<X>>)
    ensures
        judged matches Err(failure) && failure@ == FailureView::<X>::Snapshot(error@),
{
    Err(Failure::Snapshot(error))
}

/// The error of a step that failed for the reason `cause`.
fn failure_of(inputs: &CaptureInputs, step: &CaptureStep, cause: &str) -> (error: SnapshotError)
    requires
        step_indexed(*inputs, *step),
    ensures
        match *step {
            CaptureStep::Vcpu(VcpuStep::Send { event, .. }) => error@ == vcpu::send_error_view(
                event,
                cause@,
            ),
            CaptureStep::PauseDevice { device }
            | CaptureStep::SerializeDevice { device } => error@ == device_error_view(
                inputs.virtio_bases@[device as int],
                cause@,
            ),
            CaptureStep::SnapshotIrqchip => error@ == SnapshotErrorView::DeviceRefused(
                "irqchip snapshot: "@ + cause@,
            ),
            CaptureStep::TakeDirtyBlocks => error@ == SnapshotErrorView::Io("dirty RAM: "@ + cause@),
            CaptureStep::EnableTracking => error@ == SnapshotErrorView::Io(
                "enable dirty RAM: "@ + cause@,
            ),
            _ => error@ == SnapshotErrorView::DeviceRefused("resume: "@ + cause@),
        },
{
    match step {
        CaptureStep::Vcpu(VcpuStep::Send { vcpu: _, event }) => vcpu::send_error(event, cause),
        CaptureStep::PauseDevice { device } => device_error(inputs.virtio_bases[*device], cause),
        CaptureStep::SerializeDevice { device } => device_error(
            inputs.virtio_bases[*device],
            cause,
        ),
        CaptureStep::SnapshotIrqchip => SnapshotError::DeviceRefused(
            prefixed("irqchip snapshot: ", cause),
        ),
        CaptureStep::TakeDirtyBlocks => SnapshotError::Io(prefixed("dirty RAM: ", cause)),
        CaptureStep::EnableTracking => SnapshotError::Io(prefixed("enable dirty RAM: ", cause)),
        _ => SnapshotError::DeviceRefused(prefixed("resume: ", cause)),
    }
}

/// The step names a device, or a vCPU, that is there.
pub open spec fn step_indexed(inputs: CaptureInputs, step: CaptureStep) -> bool {
    match step {
        CaptureStep::Vcpu(VcpuStep::Send { vcpu, .. }) => vcpu < inputs.vcpu_count,
        CaptureStep::PauseDevice { device }
        | CaptureStep::SerializeDevice { device }
        | CaptureStep::ReadTransport { device } => device < inputs.virtio_bases@.len(),
        _ => true,
    }
}

/// Holds the outcome of a step against what the step is for, and keeps what it
/// brought.
fn judge<H: Host>(
    inputs: &CaptureInputs,
    recorded: &mut RecordedOf<H>,
    backlog: &mut Backlog,
    step: &CaptureStep,
    outcome: Outcome<H>,
) -> (judged: Result<Vec<CaptureStep>, Failure<H::Error>>)
    requires
        fits(*step, outcome),
        step_indexed(*inputs, *step),
    ensures
        final(recorded)@ == record::<H>(*inputs, old(recorded)@, *step, outcome),
        final(backlog)@ == track::<H>(old(backlog)@, *step, outcome),
        match judged {
            Ok(steps) => refusal(*inputs, *step, outcome) is None && steps@ == follow_up(
                old(backlog)@.base,
                *step,
                outcome,
            ),
            Err(failure) => refusal(*inputs, *step, outcome) == Some(failure@),
        },
{
    let ghost before = backlog@;
    let mut steps: Vec<CaptureStep> = Vec::new();
    match outcome {
        Outcome::Done => {
            if let CaptureStep::RenameStage { .. } = step {
                backlog.base = Base::Target;
                backlog.blocks = Vec::new();
                assert(backlog@.blocks =~= Seq::empty());
            }
        },
        Outcome::Raised(error) => {
            return Err(Failure::Host(error));
        },
        Outcome::Failed(cause) => {
            match step {
                CaptureStep::TakeDirtyBlocks | CaptureStep::EnableTracking => {
                    backlog.base = Base::Unknown;
                },
                _ => {},
            }
            return refuse(failure_of(inputs, step, cause.as_str()));
        },
        Outcome::Reply(reply) => {
            if let CaptureStep::Vcpu(VcpuStep::Receive { vcpu, expected }) = step {
                let checked = vcpu::check_reply(*vcpu, *expected, &reply);
                if let Expected::Paused = expected {
                    if let Ok(VcpuResponse::Paused(state)) = reply {
                        recorded.vcpu_states.push(state);
                    }
                }
                if let Err(error) = checked {
                    return refuse(error);
                }
            }
        },
        Outcome::Found(there) => {
            match step {
                CaptureStep::LookForStage => {
                    if there {
                        steps.push(CaptureStep::RemoveStage);
                    }
                },
                CaptureStep::LookForPages => {
                    let source = choose_source(backlog.base, there);
                    steps.push(CaptureStep::WriteImage { source });
                },
                _ => {
                    if there {
                        steps.push(CaptureStep::SetTargetAside);
                        steps.push(CaptureStep::RenameStage { replacing: true });
                        steps.push(CaptureStep::RemoveOld);
                    } else {
                        steps.push(CaptureStep::RenameStage { replacing: false });
                    }
                },
            }
        },
        Outcome::Serialized(state) => {
            recorded.device = Some(state);
        },
        Outcome::Transport { device_type, state } => {
            if let CaptureStep::ReadTransport { device } = step {
                let section = virtio_section(
                    inputs,
                    *device,
                    device_type,
                    state,
                    recorded.device.take(),
                );
                recorded.virtio.push(section);
            }
        },
        Outcome::Irqchip(state) => {
            recorded.hvf_gic = state;
        },
        Outcome::Interrupts { gic, vcpu_list } => {
            recorded.gic = gic;
            recorded.vcpu_list = Some(vcpu_list);
        },
        Outcome::Blocks(blocks) => {
            let mut blocks = blocks;
            backlog.blocks.append(&mut blocks);
        },
        Outcome::Image(layout) => {
            recorded.ram = Some(layout);
        },
        Outcome::Clock(now) => {
            recorded.counter = now;
        },
    }
    assert(steps@ =~= follow_up(before.base, *step, outcome));
    Ok(steps)
}

fn vcpu_steps(steps: Vec<VcpuStep>) -> (wrapped: Vec<CaptureStep>)
    ensures
        wrapped@ == on_vcpus(steps@),
{
    let ghost whole = steps@;
    let mut rest = steps;
    let mut wrapped: Vec<CaptureStep> = Vec::new();
    while rest.len() > 0
        invariant
            wrapped@.len() + rest@.len() == whole.len(),
            rest@ =~= whole.skip(wrapped@.len() as int),
            wrapped@ =~= on_vcpus(whole).take(wrapped@.len() as int),
        decreases rest@.len(),
    {
        let step = rest.remove(0);
        wrapped.push(CaptureStep::Vcpu(step));
    }
    assert(wrapped@ =~= on_vcpus(whole));
    wrapped
}

/// The steps that let the devices run on.
pub fn resume_devices(inputs: &CaptureInputs) -> (steps: Vec<CaptureStep>)
    ensures
        steps@ == resume_device_script(*inputs),
{
    let mut steps: Vec<CaptureStep> = Vec::new();
    let mut i: usize = 0;
    while i < inputs.virtio_bases.len()
        invariant
            i <= inputs.virtio_bases@.len(),
            steps@ =~= resume_device_script(*inputs).take(i as int),
        decreases inputs.virtio_bases@.len() - i,
    {
        steps.push(CaptureStep::ResumeDevice { device: i });
        i += 1;
    }
    assert(steps@ =~= resume_device_script(*inputs));
    steps
}

/// The steps that put the staged snapshot in the place of the published one.
pub fn publish_snapshot_dir() -> (steps: Vec<CaptureStep>)
    ensures
        steps@ == publish_script(),
{
    let mut steps: Vec<CaptureStep> = Vec::new();
    steps.push(CaptureStep::LookForTarget);
    assert(steps@ =~= publish_script());
    steps
}

/// The steps that are done while the vCPUs stand still.
pub fn capture_paused(inputs: &CaptureInputs) -> (steps: Vec<CaptureStep>)
    ensures
        steps@ == paused_script(*inputs),
{
    let mut steps: Vec<CaptureStep> = Vec::new();
    let ghost devices = device_script(*inputs);
    let mut i: usize = 0;
    while i < inputs.virtio_bases.len()
        invariant
            i <= inputs.virtio_bases@.len(),
            devices == device_script(*inputs),
            steps@ =~= devices.take(3 * i),
        decreases inputs.virtio_bases@.len() - i,
    {
        steps.push(CaptureStep::PauseDevice { device: i });
        steps.push(CaptureStep::SerializeDevice { device: i });
        steps.push(CaptureStep::ReadTransport { device: i });
        i += 1;
    }
    assert(steps@ =~= devices);
    if inputs.has_irqchip {
        steps.push(CaptureStep::SnapshotIrqchip);
    }
    steps.push(CaptureStep::ReadInterruptState);
    steps.push(CaptureStep::LookForStage);
    steps.push(CaptureStep::CreateStage);
    steps.push(CaptureStep::TakeDirtyBlocks);
    steps.push(CaptureStep::LookForPages);
    steps.push(CaptureStep::ReadClock);
    steps.push(CaptureStep::WriteContainer);
    let mut publish = publish_snapshot_dir();
    steps.append(&mut publish);
    steps.push(CaptureStep::EnableTracking);
    assert(steps@ =~= paused_script(*inputs));
    steps
}

/// What is left to be done once `step` has put an end to what was planned.
fn recover(task: Task, inputs: &CaptureInputs, step: &CaptureStep) -> (steps: Vec<CaptureStep>)
    requires
        !goes_on(*step),
        !(step is DiscardStage),
        step matches CaptureStep::Vcpu(
            VcpuStep::Send { vcpu, event: VcpuEvent::Resume },
        ) ==> vcpu < inputs.vcpu_count,
    ensures
        steps@ == recovery(task, *inputs, *step),
{
    let mut steps: Vec<CaptureStep> = Vec::new();
    let capturing = match task {
        Task::Capture => true,
        Task::ArmDirtyTracking => false,
    };
    let (put_back, discard, devices) = match step {
        CaptureStep::Vcpu(VcpuStep::Send { vcpu, event: VcpuEvent::Resume }) => {
            if capturing {
                steps = vcpu_steps(vcpu::later_resumes(inputs.vcpu_count, *vcpu + 1));
                assert(vcpu + 1 == *vcpu + 1);
            }
            assert(steps@ =~= recovery(task, *inputs, *step));
            return steps;
        },
        CaptureStep::Vcpu(VcpuStep::Receive { vcpu: _, expected: Expected::Resumed }) => {
            assert(steps@ =~= recovery(task, *inputs, *step));
            return steps;
        },
        CaptureStep::Vcpu(_) => (false, false, false),
        CaptureStep::PauseDevice { .. }
        | CaptureStep::SerializeDevice { .. }
        | CaptureStep::ReadTransport { .. }
        | CaptureStep::SnapshotIrqchip
        | CaptureStep::ReadInterruptState
        | CaptureStep::LookForStage
        | CaptureStep::RemoveStage
        | CaptureStep::CreateStage
        | CaptureStep::PutTargetBack => (false, false, true),
        CaptureStep::RenameStage { replacing: true } => (true, true, true),
        _ => (false, true, true),
    };
    if put_back {
        steps.push(CaptureStep::PutTargetBack);
    }
    if discard && capturing {
        steps.push(CaptureStep::DiscardStage);
    }
    if devices && capturing {
        let mut resume = resume_devices(inputs);
        steps.append(&mut resume);
    }
    let mut resume = vcpu_steps(vcpu::resume_vcpus(inputs.vcpu_count));
    steps.append(&mut resume);
    assert(steps@ =~= recovery(task, *inputs, *step));
    steps
}

fn goes_on_anyway(step: &CaptureStep) -> (on: bool)
    ensures
        on == goes_on(*step),
{
    match step {
        CaptureStep::RemoveOld | CaptureStep::ResumeDevice { .. } => true,
        _ => false,
    }
}

/// A capture in progress.
pub struct CaptureRun<H: Host> {
    task: Task,
    inputs: CaptureInputs,
    image: LastImage,
    target: Vec<u8>,
    pending: Vec<CaptureStep>,
    recorded: RecordedOf<H>,
    backlog: Backlog,
    failure: Option<Failure<H::Error>>,
    initial: Ghost<BacklogView>,
    history: Ghost<Seq<Performed<H>>>,
}

impl<H: Host> View for CaptureRun<H> {
    type V = CaptureState<H>;

    closed spec fn view(&self) -> CaptureState<H> {
        CaptureState {
            task: self.task,
            inputs: self.inputs,
            initial: self.initial@,
            pending: self.pending@,
            failure: match self.failure {
                None => None,
                Some(failure) => Some(failure@),
            },
            history: self.history@,
        }
    }
}

impl<H: Host> CaptureRun<H> {
    /// What is kept is what follows from what was done.
    pub closed spec fn kept(self) -> bool {
        &&& self.recorded@ == self@.recorded()
        &&& self.backlog@ == self@.backlog()
    }

    /// The run is one that a capture can be in.
    pub open spec fn wf(self) -> bool {
        self@.valid() && self.kept()
    }

    /// Where the last image was at the start.
    pub closed spec fn image_before(self) -> tracking::LastImageView {
        self.image@
    }

    /// The directory to publish to.
    pub closed spec fn target(self) -> Seq<u8> {
        self.target@
    }

    /// The step that comes next, if anything is left to be done.
    pub fn next(&self) -> (step: Option<&CaptureStep>)
        ensures
            match step {
                None => self@.finished(),
                Some(step) => !self@.finished() && *step == self@.pending[0],
            },
    {
        if self.pending.len() == 0 {
            None
        } else {
            Some(&self.pending[0])
        }
    }

    /// Takes what came of the step that was next.
    pub fn accept(&mut self, outcome: Outcome<H>)
        requires
            old(self).wf(),
            !old(self)@.finished(),
            fits(old(self)@.pending[0], outcome),
        ensures
            final(self).wf(),
            final(self)@ == old(self)@.accept(outcome),
            final(self).image_before() == old(self).image_before(),
            final(self).target() == old(self).target(),
    {
        let ghost before = self@;
        proof {
            capture_laws::accept_keeps_valid(before, outcome);
        }
        let step = self.pending.remove(0);
        assert(step == before.pending[0]);
        assert(before.history.push(Performed { step, outcome }).drop_last() =~= before.history);
        self.history = Ghost(self.history@.push(Performed { step, outcome }));
        match judge::<H>(&self.inputs, &mut self.recorded, &mut self.backlog, &step, outcome) {
            Ok(follow_up) => {
                let mut follow_up = follow_up;
                follow_up.append(&mut self.pending);
                self.pending = follow_up;
                assert(self@.pending =~= before.accept(outcome).pending);
            },
            Err(failure) => {
                if !goes_on_anyway(&step) {
                    self.pending = recover(self.task, &self.inputs, &step);
                } else {
                    assert(self@.pending =~= before.accept(outcome).pending);
                }
                if self.failure.is_none() {
                    self.failure = Some(failure);
                }
            },
        }
        assert(self@ == before.accept(outcome));
    }

    /// What is recorded.
    pub fn recorded(&self) -> (recorded: &RecordedOf<H>)
        requires
            self.wf(),
        ensures
            recorded@ == self@.recorded(),
    {
        &self.recorded
    }

    /// The blocks that an image has to have patched in.
    pub fn dirty_blocks(&self) -> (blocks: &Vec<DirtyBlock>)
        requires
            self.wf(),
        ensures
            blocks@ == self@.backlog().blocks,
    {
        &self.backlog.blocks
    }

    /// The top-level section, once an image is written.
    pub fn meta(&self) -> (meta: Option<MetaSection>)
        requires
            self.wf(),
        ensures
            match self@.recorded().ram {
                None => meta is None,
                Some(ram) => meta matches Some(meta) && {
                    &&& meta.ram.regions@ == ram.regions@
                    &&& meta.virtio_bases@ == sections::bases_of(self@.recorded().virtio)
                    &&& meta.vcpu_count == self@.inputs.vcpu_count as u32
                    &&& meta.nested_enabled == self@.inputs.nested_enabled
                    &&& meta.capture_mach_time == self@.recorded().counter
                },
            },
    {
        match &self.recorded.ram {
            None => None,
            Some(ram) => Some(
                meta_section(
                    &self.inputs,
                    copy_layout(ram),
                    &self.recorded.virtio,
                    self.recorded.counter,
                ),
            ),
        }
    }

    /// The state file, for a machine with this much memory.
    pub fn container<'a>(&'a self, extent: RamExtent, meta: &'a MetaSection) -> (container:
        Container<'a, H::Distributor, H::Pending, H::Transport, H::Device>)
        requires
            self.wf(),
        ensures
            container.total_ram == extent.total_ram,
            container.ram_base == extent.ram_base,
            container.vcpu_count == meta.vcpu_count,
            container.sections@ == sections::section_list(meta, self@.recorded()),
    {
        assemble(extent, meta, &self.recorded)
    }

    /// What the procedure returns, once nothing is left to be done, and what the next
    /// capture has to know.
    pub fn finish(self) -> (ended: (Result<(), Failure<H::Error>>, Tracker))
        requires
            self.wf(),
            self@.finished(),
        ensures
            match self@.failure {
                None => ended.0 is Ok,
                Some(failure) => ended.0 matches Err(error) && error@ == failure,
            },
            ended.1.blocks@ == self@.backlog().blocks,
            ended.1.image@ == tracking::image_after(
                self.image_before(),
                self.target(),
                self@.backlog().base,
            ),
    {
        let image = next_image(self.image, self.target, self.backlog.base);
        let tracker = Tracker { blocks: self.backlog.blocks, image };
        match self.failure {
            None => (Ok(()), tracker),
            Some(failure) => (Err(failure), tracker),
        }
    }
}

fn start<H: Host>(
    task: Task,
    inputs: CaptureInputs,
    tracker: Tracker,
    target: Vec<u8>,
    pending: Vec<CaptureStep>,
) -> (run: CaptureRun<H>)
    requires
        pending@ == task_script(task, inputs),
    ensures
        run@ == CaptureState::<H>::start(
            task,
            inputs,
            (BacklogView {
                base: tracking::base_for(tracker.image@, target@),
                blocks: tracker.blocks@,
            }),
        ),
        run.wf(),
        run.image_before() == tracker.image@,
        run.target() == target@,
{
    let base = tracker.base(&target);
    let backlog = Backlog { base, blocks: tracker.blocks };
    proof {
        capture_laws::start_is_valid::<H>(task, inputs, backlog@);
    }
    CaptureRun {
        task,
        inputs,
        image: tracker.image,
        target,
        pending,
        recorded: Recorded::new(),
        backlog,
        failure: None,
        initial: Ghost(backlog@),
        history: Ghost(Seq::empty()),
    }
}

/// Starts the capture of a complete snapshot into a staging directory, which is
/// then published to the directory of the path `target`.
pub fn capture<H: Host>(inputs: CaptureInputs, tracker: Tracker, target: Vec<u8>) -> (run:
    CaptureRun<H>)
    ensures
        run@ == CaptureState::<H>::start(
            Task::Capture,
            inputs,
            (BacklogView {
                base: tracking::base_for(tracker.image@, target@),
                blocks: tracker.blocks@,
            }),
        ),
        run.wf(),
        run.image_before() == tracker.image@,
        run.target() == target@,
{
    let mut steps = vcpu_steps(vcpu::pause_vcpus(inputs.vcpu_count, &inputs.vcpu_ids));
    let mut paused = capture_paused(&inputs);
    let mut devices = resume_devices(&inputs);
    let mut vcpus = vcpu_steps(vcpu::resume_vcpus(inputs.vcpu_count));
    steps.append(&mut paused);
    steps.append(&mut devices);
    steps.append(&mut vcpus);
    assert(steps@ =~= task_script(Task::Capture, inputs));
    start(Task::Capture, inputs, tracker, target, steps)
}

/// Starts to track which memory the guest writes, with the vCPUs paused
/// meanwhile.
pub fn arm_dirty_tracking<H: Host>(inputs: CaptureInputs, tracker: Tracker) -> (run: CaptureRun<H>)
    ensures
        run@ == CaptureState::<H>::start(
            Task::ArmDirtyTracking,
            inputs,
            (BacklogView {
                base: tracking::base_for(tracker.image@, Seq::empty()),
                blocks: tracker.blocks@,
            }),
        ),
        run.wf(),
        run.image_before() == tracker.image@,
        run.target() == Seq::<u8>::empty(),
{
    let mut steps = vcpu_steps(vcpu::pause_vcpus(inputs.vcpu_count, &inputs.vcpu_ids));
    steps.push(CaptureStep::EnableTracking);
    let mut vcpus = vcpu_steps(vcpu::resume_vcpus(inputs.vcpu_count));
    steps.append(&mut vcpus);
    assert(steps@ =~= task_script(Task::ArmDirtyTracking, inputs));
    let target: Vec<u8> = Vec::new();
    assert(target@ =~= Seq::empty());
    start(Task::ArmDirtyTracking, inputs, tracker, target, steps)
}

} // verus!
