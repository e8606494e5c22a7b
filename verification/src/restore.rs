//! The restore of a snapshot as a machine that says which step comes next.
//!
//! The machine is built already, its memory is in place, and its vCPUs stand still
//! before their first instruction. The caller does the steps and hands back what
//! came of each. The first failure ends the restore.
use crate::error::{Failure, FailureView, SnapshotError, SnapshotErrorView};
use crate::inputs::CaptureInputs;
use crate::restore_laws;
use crate::sections::MetaSection;
use crate::text;
use crate::vcpu;
use crate::vcpu::{Expected, Reply, VcpuEvent, VcpuStep};
use vstd::prelude::*;

verus! {

/// One step of a restore. Devices are given by their position in
/// `CaptureInputs::virtio_bases`.
#[derive(Clone, Debug, PartialEq, Eq)]
pub enum RestoreStep {
    /// Read the top-level section.
    LoadMeta,
    Vcpu(VcpuStep),
    /// See whether the snapshot holds a state that the interrupt controller kept
    /// itself.
    FindIrqchipState,
    RestoreIrqchip,
    /// See whether the snapshot holds the state of the distributor.
    FindGicState,
    RestoreGic,
    /// See whether the snapshot holds the pending interrupts.
    FindPendingInterrupts,
    RestorePendingInterrupts,
    /// Read the section with the registers of the vCPU at this position. `index`
    /// is the index of the section.
    LoadVcpuState { vcpu: usize, index: u32 },
    /// Read the virtio section with this index.
    LoadVirtio { index: u32 },
    /// Load the transport and the queues of the virtio section with this index, and
    /// activate the device.
    ActivateDevice { device: usize, index: u32 },
    PauseDevice { device: usize },
    /// Load the device state of the virtio section with this index.
    RestoreDevice { device: usize, index: u32 },
    ResumeDevice { device: usize },
    /// Load the transport of the virtio section with this index, which has no device
    /// state.
    RestoreTransport { device: usize, index: u32 },
    /// Raise again the interrupt that was pending, if one was.
    ReplayInterrupt { device: usize },
    /// Read the virtual counter, which stood at `captured_at` at capture.
    ReadClock { captured_at: u64 },
    /// Raise pending interrupts again, now that the vCPUs run.
    ReplayAfterResume { device: usize },
}

/// What came of a step.
#[derive(Debug, PartialEq, Eq)]
pub enum RestoreOutcome<E> {
    Done,
    /// It failed, for this reason.
    Failed(String),
    /// It failed with an error that is handed on unchanged.
    Raised(E),
    Reply(Reply),
    /// Whether what was looked for is there.
    Found(bool),
    Meta(MetaSection),
    /// The registers of a vCPU.
    Registers(Vec<u8>),
    /// The base address of a virtio section, and whether it holds a device state.
    Virtio { mmio_base: u64, has_device: bool },
    /// What the virtual counter stands at.
    Clock(u64),
}

/// Whether `outcome` is of the kind that `step` has.
pub open spec fn fits<E>(step: RestoreStep, outcome: RestoreOutcome<E>) -> bool {
    match step {
        RestoreStep::LoadMeta => outcome is Meta || outcome is Raised,
        RestoreStep::Vcpu(VcpuStep::Receive { .. }) => outcome is Reply,
        RestoreStep::Vcpu(VcpuStep::Send { .. })
        | RestoreStep::RestoreIrqchip
        | RestoreStep::ActivateDevice { .. }
        | RestoreStep::PauseDevice { .. }
        | RestoreStep::RestoreDevice { .. }
        | RestoreStep::ResumeDevice { .. } => outcome is Done || outcome is Failed,
        RestoreStep::Vcpu(VcpuStep::RequestExit { .. })
        | RestoreStep::RestoreGic
        | RestoreStep::RestorePendingInterrupts
        | RestoreStep::RestoreTransport { .. }
        | RestoreStep::ReplayInterrupt { .. }
        | RestoreStep::ReplayAfterResume { .. } => outcome is Done,
        RestoreStep::FindIrqchipState
        | RestoreStep::FindGicState
        | RestoreStep::FindPendingInterrupts => outcome is Found,
        RestoreStep::LoadVcpuState { .. } => outcome is Registers || outcome is Raised,
        RestoreStep::LoadVirtio { .. } => outcome is Virtio || outcome is Raised,
        RestoreStep::ReadClock { .. } => outcome is Clock,
    }
}

/// The `i`-th base is the first that equals `base`.
pub open spec fn stands_first(bases: Seq<u64>, base: u64, i: int) -> bool {
    &&& 0 <= i < bases.len()
    &&& bases[i] == base
    &&& forall|j: int| 0 <= j < i ==> #[trigger] bases[j] != base
}

/// The position of the first device with this base address, if there is one.
pub open spec fn device_of(bases: Seq<u64>, base: u64) -> Option<usize> {
    if exists|i: int| stands_first(bases, base, i) {
        Some((choose|i: int| stands_first(bases, base, i)) as usize)
    } else {
        None
    }
}

/// The mismatch between a snapshot and the machine that it is restored into, if
/// there is one.
pub open spec fn mismatch(inputs: CaptureInputs, meta: MetaSection) -> Option<SnapshotErrorView> {
    if meta.vcpu_count != inputs.vcpu_count as u32 {
        Some(
            SnapshotErrorView::ConfigMismatch(
                "snapshot vcpu_count "@ + text::decimal(meta.vcpu_count as nat) + " != configured "@
                    + text::decimal(inputs.vcpu_count as nat),
            ),
        )
    } else if meta.nested_enabled != inputs.nested_enabled {
        Some(
            SnapshotErrorView::ConfigMismatch(
                "nested_enabled differs between snapshot and current ctx"@,
            ),
        )
    } else {
        None
    }
}

/// The error of a section for which the machine has no device.
pub open spec fn no_device_view(base: u64) -> SnapshotErrorView {
    SnapshotErrorView::ConfigMismatch(
        "no virtio device at base 0x"@ + text::hexadecimal(base as nat) + " in current ctx"@,
    )
}

/// The error of a device that refused `action`.
pub open spec fn device_error_view(
    base: u64,
    action: Seq<char>,
    cause: Seq<char>,
) -> SnapshotErrorView {
    SnapshotErrorView::DeviceRefused(
        "base=0x"@ + text::hexadecimal(base as nat) + ": "@ + action + ": "@ + cause,
    )
}

/// The failure that the outcome of a step amounts to, if it is one.
pub open spec fn refusal<E>(
    inputs: CaptureInputs,
    step: RestoreStep,
    outcome: RestoreOutcome<E>,
) -> Option<FailureView<E>> {
    let bases = inputs.virtio_bases@;
    match (step, outcome) {
        (_, RestoreOutcome::Raised(error)) => Some(FailureView::Host(error)),
        (RestoreStep::LoadMeta, RestoreOutcome::Meta(meta)) => match mismatch(inputs, meta) {
            Some(error) => Some(FailureView::Snapshot(error)),
            None => None,
        },
        (RestoreStep::Vcpu(VcpuStep::Send { vcpu, event }), RestoreOutcome::Failed(cause)) => Some(
            FailureView::Snapshot(vcpu::send_error_view(event, cause@)),
        ),
        (
            RestoreStep::Vcpu(VcpuStep::Receive { vcpu, expected }),
            RestoreOutcome::Reply(reply),
        ) => if vcpu::answers(expected, reply) {
            None
        } else {
            Some(FailureView::Snapshot(vcpu::reply_error_view(vcpu, expected, reply)))
        },
        (RestoreStep::RestoreIrqchip, RestoreOutcome::Failed(cause)) => Some(
            FailureView::Snapshot(SnapshotErrorView::DeviceRefused("irqchip restore: "@ + cause@)),
        ),
        (RestoreStep::LoadVirtio { .. }, RestoreOutcome::Virtio { mmio_base, .. }) =>
            if device_of(bases, mmio_base) is None {
                Some(FailureView::Snapshot(no_device_view(mmio_base)))
            } else {
                None
            },
        (RestoreStep::ActivateDevice { device, .. }, RestoreOutcome::Failed(cause)) => Some(
            FailureView::Snapshot(device_error_view(bases[device as int], "activate"@, cause@)),
        ),
        (RestoreStep::PauseDevice { device }, RestoreOutcome::Failed(cause)) => Some(
            FailureView::Snapshot(device_error_view(bases[device as int], "pause"@, cause@)),
        ),
        (RestoreStep::RestoreDevice { device, .. }, RestoreOutcome::Failed(cause)) => Some(
            FailureView::Snapshot(device_error_view(bases[device as int], "restore"@, cause@)),
        ),
        (RestoreStep::ResumeDevice { device }, RestoreOutcome::Failed(cause)) => Some(
            FailureView::Snapshot(device_error_view(bases[device as int], "resume"@, cause@)),
        ),
        _ => None,
    }
}

/// The same steps as steps of a restore.
pub open spec fn on_vcpus(steps: Seq<VcpuStep>) -> Seq<RestoreStep> {
    Seq::new(steps.len(), |i: int| RestoreStep::Vcpu(steps[i]))
}

/// The answers that the vCPUs, built to stand still, give unasked.
pub open spec fn initial_pause_script(vcpu_count: nat) -> Seq<RestoreStep> {
    Seq::new(
        vcpu_count,
        |i: int|
            RestoreStep::Vcpu(
                VcpuStep::Receive { vcpu: i as usize, expected: Expected::InitialPaused },
            ),
    )
}

/// The interrupt state is looked for, as far as the machine has a place for it.
pub open spec fn interrupt_script(inputs: CaptureInputs) -> Seq<RestoreStep> {
    (if inputs.has_irqchip {
        seq![RestoreStep::FindIrqchipState]
    } else {
        Seq::empty()
    }) + (if inputs.has_gic {
        seq![RestoreStep::FindGicState]
    } else {
        Seq::empty()
    }) + seq![RestoreStep::FindPendingInterrupts]
}

/// The registers of every vCPU are read.
pub open spec fn register_script(vcpu_count: nat) -> Seq<RestoreStep> {
    Seq::new(
        vcpu_count,
        |i: int| RestoreStep::LoadVcpuState { vcpu: i as usize, index: i as u32 },
    )
}

/// Every virtio section is read.
pub open spec fn virtio_script(section_count: nat) -> Seq<RestoreStep> {
    Seq::new(section_count, |i: int| RestoreStep::LoadVirtio { index: i as u32 })
}

/// Every device raises its pending interrupts again.
pub open spec fn replay_script(device_count: nat) -> Seq<RestoreStep> {
    Seq::new(device_count, |i: int| RestoreStep::ReplayAfterResume { device: i as usize })
}

/// All that follows from a top-level section, before it is known what the other
/// sections hold.
pub open spec fn restore_script(inputs: CaptureInputs, meta: MetaSection) -> Seq<RestoreStep> {
    initial_pause_script(inputs.vcpu_count as nat) + interrupt_script(inputs) + register_script(
        inputs.vcpu_count as nat,
    ) + virtio_script(meta.virtio_bases@.len()) + seq![
        RestoreStep::ReadClock { captured_at: meta.capture_mach_time },
    ] + on_vcpus(vcpu::resume_exchange(inputs.vcpu_count as nat)) + replay_script(
        inputs.virtio_bases@.len(),
    )
}

/// A vCPU is given its registers.
pub open spec fn vcpu_script(vcpu: usize, registers: Vec<u8>) -> Seq<RestoreStep> {
    seq![
        RestoreStep::Vcpu(VcpuStep::Send { vcpu, event: VcpuEvent::RestoreState(registers) }),
        RestoreStep::Vcpu(VcpuStep::Receive { vcpu, expected: Expected::Restored }),
    ]
}

/// A device is given what the section with this index holds.
pub open spec fn device_script(device: usize, has_device: bool, index: u32) -> Seq<RestoreStep> {
    if has_device {
        seq![
            RestoreStep::ActivateDevice { device, index },
            RestoreStep::PauseDevice { device },
            RestoreStep::RestoreDevice { device, index },
            RestoreStep::ResumeDevice { device },
            RestoreStep::ReplayInterrupt { device },
        ]
    } else {
        seq![
            RestoreStep::RestoreTransport { device, index },
            RestoreStep::ReplayInterrupt { device },
        ]
    }
}

/// How far a counter of 64 bits has moved from `then` to `now`, past its end if
/// need be.
pub open spec fn ticks_between(then: u64, now: u64) -> u64 {
    if then <= now {
        (now - then) as u64
    } else {
        (now - then + 0x1_0000_0000_0000_0000) as u64
    }
}

/// The virtual timer of every vCPU is moved on.
pub open spec fn timer_script(vcpu_count: nat, ticks: u64) -> Seq<RestoreStep> {
    Seq::new(
        2 * vcpu_count,
        |i: int|
            {
                let vcpu = (i / 2) as usize;
                if i % 2 == 0 {
                    RestoreStep::Vcpu(VcpuStep::Send { vcpu, event: VcpuEvent::RebaseTimer(ticks) })
                } else {
                    RestoreStep::Vcpu(VcpuStep::Receive { vcpu, expected: Expected::TimerRebased })
                }
            },
    )
}

/// What has to be done at once because of what a step brought.
pub open spec fn follow_up<E>(
    inputs: CaptureInputs,
    step: RestoreStep,
    outcome: RestoreOutcome<E>,
) -> Seq<RestoreStep> {
    match (step, outcome) {
        (RestoreStep::LoadMeta, RestoreOutcome::Meta(meta)) => restore_script(inputs, meta),
        (RestoreStep::FindIrqchipState, RestoreOutcome::Found(true)) => seq![
            RestoreStep::RestoreIrqchip,
        ],
        (RestoreStep::FindGicState, RestoreOutcome::Found(true)) => seq![RestoreStep::RestoreGic],
        (RestoreStep::FindPendingInterrupts, RestoreOutcome::Found(true)) => seq![
            RestoreStep::RestorePendingInterrupts,
        ],
        (RestoreStep::LoadVcpuState { vcpu, .. }, RestoreOutcome::Registers(registers)) =>
            vcpu_script(vcpu, registers),
        (RestoreStep::LoadVirtio { index }, RestoreOutcome::Virtio { mmio_base, has_device }) =>
            match device_of(inputs.virtio_bases@, mmio_base) {
                Some(device) => device_script(device, has_device, index),
                None => Seq::empty(),
            },
        (RestoreStep::ReadClock { captured_at }, RestoreOutcome::Clock(now)) => timer_script(
            inputs.vcpu_count as nat,
            ticks_between(captured_at, now),
        ),
        _ => Seq::empty(),
    }
}

/// The order in which the steps of a restore come.
pub open spec fn phase(step: RestoreStep) -> int {
    match step {
        RestoreStep::LoadMeta => 0,
        RestoreStep::Vcpu(VcpuStep::Send { event: VcpuEvent::RestoreState(_), .. }) => 3,
        RestoreStep::Vcpu(VcpuStep::Send { event: VcpuEvent::RebaseTimer(_), .. }) => 5,
        RestoreStep::Vcpu(VcpuStep::Send { .. }) => 6,
        RestoreStep::Vcpu(VcpuStep::Receive { expected: Expected::Restored, .. }) => 3,
        RestoreStep::Vcpu(VcpuStep::Receive { expected: Expected::TimerRebased, .. }) => 5,
        RestoreStep::Vcpu(VcpuStep::Receive { expected: Expected::Resumed, .. }) => 7,
        RestoreStep::Vcpu(_) => 1,
        RestoreStep::FindIrqchipState
        | RestoreStep::RestoreIrqchip
        | RestoreStep::FindGicState
        | RestoreStep::RestoreGic
        | RestoreStep::FindPendingInterrupts
        | RestoreStep::RestorePendingInterrupts => 2,
        RestoreStep::LoadVcpuState { .. } => 3,
        RestoreStep::LoadVirtio { .. }
        | RestoreStep::ActivateDevice { .. }
        | RestoreStep::PauseDevice { .. }
        | RestoreStep::RestoreDevice { .. }
        | RestoreStep::ResumeDevice { .. }
        | RestoreStep::RestoreTransport { .. }
        | RestoreStep::ReplayInterrupt { .. } => 4,
        RestoreStep::ReadClock { .. } => 5,
        RestoreStep::ReplayAfterResume { .. } => 8,
    }
}

/// Whether the step is one that `restore_script` holds, rather than one that
/// follows from what a section holds.
pub open spec fn scheduled(step: RestoreStep) -> bool {
    match step {
        RestoreStep::Vcpu(VcpuStep::Receive { expected, .. }) => expected is InitialPaused
            || expected is Resumed,
        RestoreStep::Vcpu(VcpuStep::Send { event, .. }) => event is Resume,
        RestoreStep::FindIrqchipState
        | RestoreStep::FindGicState
        | RestoreStep::FindPendingInterrupts
        | RestoreStep::LoadVcpuState { .. }
        | RestoreStep::LoadVirtio { .. }
        | RestoreStep::ReadClock { .. }
        | RestoreStep::ReplayAfterResume { .. } => true,
        _ => false,
    }
}

/// The steps among these that `restore_script` can hold.
pub open spec fn backbone(steps: Seq<RestoreStep>) -> Seq<RestoreStep> {
    steps.filter(|step: RestoreStep| scheduled(step))
}

/// The device that a step is about, if it is about one.
pub open spec fn device_in(step: RestoreStep) -> Option<usize> {
    match step {
        RestoreStep::ActivateDevice { device, .. }
        | RestoreStep::PauseDevice { device }
        | RestoreStep::RestoreDevice { device, .. }
        | RestoreStep::ResumeDevice { device }
        | RestoreStep::RestoreTransport { device, .. }
        | RestoreStep::ReplayInterrupt { device }
        | RestoreStep::ReplayAfterResume { device } => Some(device),
        _ => None,
    }
}

/// Whether two steps do the same. What a device goes through again for another section
/// that names it does not count.
pub open spec fn same_work(x: RestoreStep, y: RestoreStep) -> bool {
    match (x, y) {
        (
            RestoreStep::Vcpu(VcpuStep::Send { vcpu: a, event: VcpuEvent::RestoreState(_) }),
            RestoreStep::Vcpu(VcpuStep::Send { vcpu: b, event: VcpuEvent::RestoreState(_) }),
        ) => a == b,
        (
            RestoreStep::Vcpu(VcpuStep::Send { vcpu: a, event: VcpuEvent::RebaseTimer(_) }),
            RestoreStep::Vcpu(VcpuStep::Send { vcpu: b, event: VcpuEvent::RebaseTimer(_) }),
        ) => a == b,
        (
            RestoreStep::LoadVcpuState { vcpu: a, .. },
            RestoreStep::LoadVcpuState { vcpu: b, .. },
        ) => a == b,
        (RestoreStep::ReadClock { .. }, RestoreStep::ReadClock { .. }) => true,
        (RestoreStep::PauseDevice { .. }, _)
        | (RestoreStep::ResumeDevice { .. }, _)
        | (RestoreStep::ReplayInterrupt { .. }, _) => false,
        _ => x == y,
    }
}

/// A step that was done, and what came of it.
pub struct Performed<E> {
    pub step: RestoreStep,
    pub outcome: RestoreOutcome<E>,
}

/// The state of a restore.
pub struct RestoreState<E> {
    pub inputs: CaptureInputs,
    /// What is to be done, in order, unless something fails.
    pub pending: Seq<RestoreStep>,
    pub failure: Option<FailureView<E>>,
    /// What was done so far.
    pub history: Seq<Performed<E>>,
}

impl<E> RestoreState<E> {
    /// Nothing has been done yet.
    pub open spec fn start(inputs: CaptureInputs) -> Self {
        RestoreState {
            inputs,
            pending: seq![RestoreStep::LoadMeta],
            failure: None,
            history: Seq::empty(),
        }
    }

    /// The first pending step has been done, with this outcome.
    pub open spec fn accept(self, outcome: RestoreOutcome<E>) -> Self {
        let step = self.pending[0];
        let refused = refusal(self.inputs, step, outcome);
        RestoreState {
            inputs: self.inputs,
            pending: if refused is None {
                follow_up(self.inputs, step, outcome) + self.pending.drop_first()
            } else {
                Seq::empty()
            },
            failure: refused,
            history: self.history.push(Performed { step, outcome }),
        }
    }

    /// Nothing is left to be done.
    pub open spec fn finished(self) -> bool {
        self.pending.len() == 0
    }

    /// The failure that the `k`-th step done amounts to, if it is one.
    pub open spec fn refused(self, k: int) -> Option<FailureView<E>> {
        refusal(self.inputs, self.history[k].step, self.history[k].outcome)
    }

    /// The steps that were done, then those that are to be done.
    pub open spec fn steps(self) -> Seq<RestoreStep> {
        Seq::new(self.history.len(), |k: int| self.history[k].step) + self.pending
    }

    /// What follows from the `k`-th step done.
    pub open spec fn consequence(self, k: int) -> Seq<RestoreStep> {
        follow_up(self.inputs, self.history[k].step, self.history[k].outcome)
    }

    /// Each step names a device that is there.
    pub open spec fn indexed(self) -> bool {
        forall|k: int|
            0 <= k < self.pending.len() ==> match #[trigger] self.pending[k] {
                RestoreStep::ActivateDevice { device, .. }
                | RestoreStep::PauseDevice { device }
                | RestoreStep::RestoreDevice { device, .. }
                | RestoreStep::ResumeDevice { device } => device < self.inputs.virtio_bases@.len(),
                _ => true,
            }
    }

    /// The steps come in the order of their phases.
    pub open spec fn ordered(self) -> bool {
        forall|i: int, j: int|
            0 <= i < j < self.steps().len() ==> phase(#[trigger] self.steps()[i]) <= phase(
                #[trigger] self.steps()[j],
            )
    }

    /// The top-level section is read first, and only then; and every outcome so far
    /// is of the kind that its step has.
    pub open spec fn headed(self) -> bool {
        &&& self.steps().len() > 0
        &&& self.history.len() == 0 ==> self.pending.len() == 1
        &&& forall|k: int|
            0 <= k < self.steps().len() ==> (#[trigger] self.steps()[k] is LoadMeta <==> k == 0)
        &&& forall|k: int|
            0 <= k < self.history.len() ==> fits(
                (#[trigger] self.history[k]).step,
                self.history[k].outcome,
            )
    }

    /// Only the last step done can have been refused, and then nothing is left to
    /// be done.
    pub open spec fn stops(self) -> bool {
        &&& forall|k: int|
            0 <= k < self.history.len() - 1 ==> #[trigger] self.refused(k) is None
        &&& self.history.len() == 0 ==> self.failure is None
        &&& self.history.len() > 0 ==> self.failure == self.refused(self.history.len() - 1)
        &&& self.failure is Some ==> self.finished()
    }

    /// The `j`-th of the steps that follow from the `k`-th step done comes that far
    /// behind it, unless the run fails before.
    pub open spec fn follows_at(self, k: int, j: int) -> bool {
        &&& self.failure is None ==> k + 1 + j < self.steps().len()
        &&& k + 1 + j < self.steps().len() ==> self.steps()[k + 1 + j] == self.consequence(k)[j]
    }

    /// What follows from a step comes right after it, as far as the run gets.
    pub open spec fn follows(self) -> bool {
        forall|k: int, j: int|
            0 < k < self.history.len() && 0 <= j < self.consequence(k).len()
                ==> #[trigger] self.follows_at(k, j)
    }

    /// One of the virtio sections that were read has this base address.
    pub open spec fn reads_base(self, base: u64) -> bool {
        exists|j: int|
            0 <= j < self.history.len() && ((#[trigger] self.history[j]).outcome matches
            RestoreOutcome::Virtio { mmio_base, .. } && mmio_base == base)
    }

    /// Up to the resumption, a device is touched only if a section has its base address.
    pub open spec fn touches_named(self) -> bool {
        forall|k: int|
            0 <= k < self.steps().len() && !(#[trigger] self.steps()[k] is ReplayAfterResume)
                ==> (device_in(self.steps()[k]) matches Some(device) ==> device
                < self.inputs.virtio_bases@.len() && self.reads_base(
                self.inputs.virtio_bases@[device as int],
            ))
    }

    /// As long as nothing fails, the script of the top-level section is kept to.
    pub open spec fn keeps_script(self) -> bool {
        self.failure is None && self.history.len() > 0 ==> {
            &&& self.history[0].outcome is Meta
            &&& backbone(self.steps().drop_first()) == restore_script(
                self.inputs,
                self.history[0].outcome->Meta_0,
            )
        }
    }

    /// If the `k`-th step is not one of the script, it follows from a step done before.
    pub open spec fn derives_at(self, k: int) -> bool {
        !scheduled(self.steps()[k]) ==> exists|j: int|
            #![trigger self.consequence(j)]
            {
                &&& 0 < j < k
                &&& j < self.history.len()
                &&& k - j - 1 < self.consequence(j).len()
                &&& self.steps()[k] == self.consequence(j)[k - j - 1]
            }
    }

    /// Behind the first step, nothing is done that is neither in the script nor follows
    /// from a step done before.
    pub open spec fn derives(self) -> bool {
        forall|k: int| 0 < k < self.steps().len() ==> #[trigger] self.derives_at(k)
    }

    /// There are no more virtio sections than can be told apart.
    pub open spec fn countable(self) -> bool {
        self.history.len() > 0 && self.history[0].outcome is Meta
            && self.history[0].outcome->Meta_0.virtio_bases@.len() <= 0x1_0000_0000
    }

    /// The `i`-th and the `j`-th step are of the script and do the same.
    pub open spec fn repeats(self, i: int, j: int) -> bool {
        &&& scheduled(self.steps()[i])
        &&& scheduled(self.steps()[j])
        &&& same_work(self.steps()[i], self.steps()[j])
        &&& self.steps()[i] is LoadVirtio ==> self.countable()
    }

    /// The script holds nothing twice.
    pub open spec fn does_once(self) -> bool {
        forall|i: int, j: int|
            0 < i < j < self.steps().len() ==> !#[trigger] self.repeats(i, j)
    }

    /// What holds of a restore at every point.
    pub open spec fn valid(self) -> bool {
        &&& self.indexed()
        &&& self.ordered()
        &&& self.headed()
        &&& self.stops()
        &&& self.follows()
        &&& self.touches_named()
        &&& self.keeps_script()
        &&& self.derives()
        &&& self.does_once()
    }
}

/// The position of the first virtio device with this base address.
pub fn device_at(inputs: &CaptureInputs, base: u64) -> (device: Option<usize>)
    ensures
        device == device_of(inputs.virtio_bases@, base),
        match device {
            Some(device) => stands_first(inputs.virtio_bases@, base, device as int),
            None => forall|i: int|
                0 <= i < inputs.virtio_bases@.len() ==> #[trigger] inputs.virtio_bases@[i] != base,
        },
{
    let mut i: usize = 0;
    while i < inputs.virtio_bases.len()
        invariant
            i <= inputs.virtio_bases@.len(),
            forall|j: int| 0 <= j < i ==> #[trigger] inputs.virtio_bases@[j] != base,
        decreases inputs.virtio_bases@.len() - i,
    {
        if inputs.virtio_bases[i] == base {
            proof {
                restore_laws::lemma_stands_first(inputs.virtio_bases@, base, i as int);
            }
            return Some(i);
        }
        i += 1;
    }
    None
}

/// Holds the summary of a snapshot against the machine that it is restored into.
pub fn check_meta(inputs: &CaptureInputs, meta: &MetaSection) -> (checked: Result<
    (),
    SnapshotError,
>)
    ensures
        match checked {
            Ok(()) => mismatch(*inputs, *meta) is None,
            Err(error) => mismatch(*inputs, *meta) == Some(error@),
        },
{
    if meta.vcpu_count != inputs.vcpu_count as u32 {
        let mut message = "snapshot vcpu_count ".to_owned();
        text::append_decimal(&mut message, meta.vcpu_count as u64);
        message.append(" != configured ");
        text::append_decimal(&mut message, inputs.vcpu_count as u64);
        return Err(SnapshotError::ConfigMismatch(message));
    }
    if meta.nested_enabled != inputs.nested_enabled {
        return Err(
            SnapshotError::ConfigMismatch(
                "nested_enabled differs between snapshot and current ctx".to_owned(),
            ),
        );
    }
    Ok(())
}

fn no_device(base: u64) -> (error: SnapshotError)
    ensures
        error@ == no_device_view(base),
{
    let mut message = "no virtio device at base 0x".to_owned();
    text::append_hexadecimal(&mut message, base);
    message.append(" in current ctx");
    SnapshotError::ConfigMismatch(message)
}

fn device_error(base: u64, action: &str, cause: &str) -> (error: SnapshotError)
    ensures
        error@ == device_error_view(base, action@, cause@),
{
    let mut message = "base=0x".to_owned();
    text::append_hexadecimal(&mut message, base);
    message.append(": ");
    message.append(action);
    message.append(": ");
    message.append(cause);
    SnapshotError::DeviceRefused(message)
}

/// The steps that follow from the summary of a snapshot.
fn script_for(inputs: &CaptureInputs, meta: &MetaSection) -> (steps: Vec<RestoreStep>)
    ensures
        steps@ == restore_script(*inputs, *meta),
{
    let count = inputs.vcpu_count;
    let mut steps: Vec<RestoreStep> = Vec::new();
    let mut i: usize = 0;
    while i < count
        invariant
            i <= count,
            steps@ =~= initial_pause_script(count as nat).take(i as int),
        decreases count - i,
    {
        steps.push(
            RestoreStep::Vcpu(VcpuStep::Receive { vcpu: i, expected: Expected::InitialPaused }),
        );
        i += 1;
    }
    assert(steps@ =~= initial_pause_script(count as nat));
    if inputs.has_irqchip {
        steps.push(RestoreStep::FindIrqchipState);
    }
    if inputs.has_gic {
        steps.push(RestoreStep::FindGicState);
    }
    steps.push(RestoreStep::FindPendingInterrupts);
    let ghost interrupts = initial_pause_script(count as nat) + interrupt_script(*inputs);
    assert(steps@ =~= interrupts);
    i = 0;
    while i < count
        invariant
            i <= count,
            steps@ =~= interrupts + register_script(count as nat).take(i as int),
        decreases count - i,
    {
        steps.push(RestoreStep::LoadVcpuState { vcpu: i, index: i as u32 });
        i += 1;
    }
    let ghost registers = interrupts + register_script(count as nat);
    assert(steps@ =~= registers);
    i = 0;
    while i < meta.virtio_bases.len()
        invariant
            i <= meta.virtio_bases@.len(),
            steps@ =~= registers + virtio_script(meta.virtio_bases@.len()).take(i as int),
        decreases meta.virtio_bases@.len() - i,
    {
        steps.push(RestoreStep::LoadVirtio { index: i as u32 });
        i += 1;
    }
    steps.push(RestoreStep::ReadClock { captured_at: meta.capture_mach_time });
    let mut rest = vcpu::resume_vcpus(count);
    let ghost resume = rest@;
    let ghost before = steps@;
    assert(before =~= registers + virtio_script(meta.virtio_bases@.len()) + seq![
        RestoreStep::ReadClock { captured_at: meta.capture_mach_time },
    ]);
    while rest.len() > 0
        invariant
            rest@.len() <= resume.len(),
            rest@ =~= resume.skip(resume.len() - rest@.len()),
            steps@ =~= before + on_vcpus(resume).take(resume.len() - rest@.len()),
        decreases rest@.len(),
    {
        let step = rest.remove(0);
        steps.push(RestoreStep::Vcpu(step));
    }
    let ghost resumed = before + on_vcpus(resume);
    assert(steps@ =~= resumed);
    i = 0;
    while i < inputs.virtio_bases.len()
        invariant
            i <= inputs.virtio_bases@.len(),
            steps@ =~= resumed + replay_script(inputs.virtio_bases@.len()).take(i as int),
        decreases inputs.virtio_bases@.len() - i,
    {
        steps.push(RestoreStep::ReplayAfterResume { device: i });
        i += 1;
    }
    assert(steps@ =~= restore_script(*inputs, *meta));
    steps
}

fn rebase_timers(vcpu_count: usize, ticks: u64) -> (steps: Vec<RestoreStep>)
    ensures
        steps@ == timer_script(vcpu_count as nat, ticks),
{
    let mut steps: Vec<RestoreStep> = Vec::new();
    let ghost whole = timer_script(vcpu_count as nat, ticks);
    let mut i: usize = 0;
    while i < vcpu_count
        invariant
            i <= vcpu_count,
            whole == timer_script(vcpu_count as nat, ticks),
            steps@ =~= whole.take(2 * i),
        decreases vcpu_count - i,
    {
        steps.push(
            RestoreStep::Vcpu(VcpuStep::Send { vcpu: i, event: VcpuEvent::RebaseTimer(ticks) }),
        );
        steps.push(
            RestoreStep::Vcpu(VcpuStep::Receive { vcpu: i, expected: Expected::TimerRebased }),
        );
        i += 1;
    }
    assert(steps@ =~= whole);
    steps
}

/// How far the virtual counter has moved since capture.
pub fn timer_delta(captured_at: u64, now: u64) -> (ticks: u64)
    ensures
        ticks == ticks_between(captured_at, now),
{
    now.wrapping_sub(captured_at)
}

fn refuse<E>(error: SnapshotError) -> (judged: Result<Vec<RestoreStep>, Failure<E>>)
    ensures
        judged matches Err(failure) && failure@ == FailureView::<E>::Snapshot(error@),
{
    Err(Failure::Snapshot(error))
}

/// Holds the outcome of a step against what the step is for.
fn judge<E>(inputs: &CaptureInputs, step: &RestoreStep, outcome: RestoreOutcome<E>) -> (judged:
    Result<Vec<RestoreStep>, Failure<E>>)
    requires
        fits(*step, outcome),
        match *step {
            RestoreStep::ActivateDevice { device, .. }
            | RestoreStep::PauseDevice { device }
            | RestoreStep::RestoreDevice { device, .. }
            | RestoreStep::ResumeDevice { device } => device < inputs.virtio_bases@.len(),
            _ => true,
        },
    ensures
        match judged {
            Ok(steps) => refusal(*inputs, *step, outcome) is None && steps@ == follow_up(
                *inputs,
                *step,
                outcome,
            ),
            Err(failure) => refusal(*inputs, *step, outcome) == Some(failure@),
        },
{
    let ghost expected_steps = follow_up(*inputs, *step, outcome);
    let mut steps: Vec<RestoreStep> = Vec::new();
    match outcome {
        RestoreOutcome::Done => {},
        RestoreOutcome::Raised(error) => {
            return Err(Failure::Host(error));
        },
        RestoreOutcome::Failed(cause) => {
            return refuse(
                match step {
                    RestoreStep::Vcpu(VcpuStep::Send { vcpu: _, event }) => vcpu::send_error(
                        event,
                        cause.as_str(),
                    ),
                    RestoreStep::ActivateDevice { device, index: _ } => device_error(
                        inputs.virtio_bases[*device],
                        "activate",
                        cause.as_str(),
                    ),
                    RestoreStep::PauseDevice { device } => device_error(
                        inputs.virtio_bases[*device],
                        "pause",
                        cause.as_str(),
                    ),
                    RestoreStep::RestoreDevice { device, index: _ } => device_error(
                        inputs.virtio_bases[*device],
                        "restore",
                        cause.as_str(),
                    ),
                    RestoreStep::ResumeDevice { device } => device_error(
                        inputs.virtio_bases[*device],
                        "resume",
                        cause.as_str(),
                    ),
                    _ => {
                        let mut message = "irqchip restore: ".to_owned();
                        message.append(cause.as_str());
                        SnapshotError::DeviceRefused(message)
                    },
                },
            );
        },
        RestoreOutcome::Reply(reply) => {
            if let RestoreStep::Vcpu(VcpuStep::Receive { vcpu, expected }) = step {
                if let Err(error) = vcpu::check_reply(*vcpu, *expected, &reply) {
                    return refuse(error);
                }
            }
        },
        RestoreOutcome::Found(there) => {
            if there {
                match step {
                    RestoreStep::FindIrqchipState => steps.push(RestoreStep::RestoreIrqchip),
                    RestoreStep::FindGicState => steps.push(RestoreStep::RestoreGic),
                    _ => steps.push(RestoreStep::RestorePendingInterrupts),
                }
            }
        },
        RestoreOutcome::Meta(meta) => {
            if let Err(error) = check_meta(inputs, &meta) {
                return refuse(error);
            }
            steps = script_for(inputs, &meta);
        },
        RestoreOutcome::Registers(registers) => {
            if let RestoreStep::LoadVcpuState { vcpu, index: _ } = step {
                steps.push(
                    RestoreStep::Vcpu(
                        VcpuStep::Send { vcpu: *vcpu, event: VcpuEvent::RestoreState(registers) },
                    ),
                );
                steps.push(
                    RestoreStep::Vcpu(
                        VcpuStep::Receive { vcpu: *vcpu, expected: Expected::Restored },
                    ),
                );
            }
        },
        RestoreOutcome::Virtio { mmio_base, has_device } => {
            if let RestoreStep::LoadVirtio { index } = step {
                match device_at(inputs, mmio_base) {
                    None => {
                        return refuse(no_device(mmio_base));
                    },
                    Some(device) => {
                        if has_device {
                            steps.push(RestoreStep::ActivateDevice { device, index: *index });
                            steps.push(RestoreStep::PauseDevice { device });
                            steps.push(RestoreStep::RestoreDevice { device, index: *index });
                            steps.push(RestoreStep::ResumeDevice { device });
                        } else {
                            steps.push(RestoreStep::RestoreTransport { device, index: *index });
                        }
                        steps.push(RestoreStep::ReplayInterrupt { device });
                    },
                }
            }
        },
        RestoreOutcome::Clock(now) => {
            if let RestoreStep::ReadClock { captured_at } = step {
                steps = rebase_timers(inputs.vcpu_count, timer_delta(*captured_at, now));
            }
        },
    }
    assert(steps@ =~= expected_steps);
    Ok(steps)
}

/// A restore in progress.
pub struct RestoreRun<E> {
    inputs: CaptureInputs,
    pending: Vec<RestoreStep>,
    failure: Option<Failure<E>>,
    history: Ghost<Seq<Performed<E>>>,
}

impl<E> View for RestoreRun<E> {
    type V = RestoreState<E>;

    closed spec fn view(&self) -> RestoreState<E> {
        RestoreState {
            inputs: self.inputs,
            pending: self.pending@,
            failure: match self.failure {
                None => None,
                Some(failure) => Some(failure@),
            },
            history: self.history@,
        }
    }
}

impl<E> RestoreRun<E> {
    /// The run is one that a restore can be in.
    pub open spec fn wf(self) -> bool {
        self@.valid()
    }

    /// The step that comes next, if anything is left to be done.
    pub fn next(&self) -> (step: Option<&RestoreStep>)
        ensures
            match step {
                None => self@.finished(),
                Some(step) => !self@.finished() && *step == self@.pending[0],
            },
    {
        if self.pending.len() == 0 {
            None
        } else {
            Some(&self.pending[0])
        }
    }

    /// Takes what came of the step that was next.
    pub fn accept(&mut self, outcome: RestoreOutcome<E>)
        requires
            old(self).wf(),
            !old(self)@.finished(),
            fits(old(self)@.pending[0], outcome),
        ensures
            final(self).wf(),
            final(self)@ == old(self)@.accept(outcome),
    {
        let ghost before = self@;
        proof {
            restore_laws::accept_keeps_valid(before, outcome);
        }
        let step = self.pending.remove(0);
        assert(step == before.pending[0]);
        self.history = Ghost(self.history@.push(Performed { step, outcome }));
        match judge(&self.inputs, &step, outcome) {
            Ok(follow_up) => {
                let mut follow_up = follow_up;
                follow_up.append(&mut self.pending);
                self.pending = follow_up;
                assert(self@.pending =~= before.accept(outcome).pending);
            },
            Err(failure) => {
                self.pending = Vec::new();
                self.failure = Some(failure);
                assert(self@.pending =~= Seq::empty());
            },
        }
        assert(self@ == before.accept(outcome));
    }

    /// What the procedure returns, once nothing is left to be done.
    pub fn finish(self) -> (result: Result<(), Failure<E>>)
        requires
            self@.finished(),
        ensures
            match self@.failure {
                None => result is Ok,
                Some(failure) => result matches Err(error) && error@ == failure,
            },
    {
        match self.failure {
            None => Ok(()),
            Some(failure) => Err(failure),
        }
    }
}

/// Starts to push the state of a snapshot into the vCPUs, the interrupt controller
/// and the devices of a machine.
pub fn restore<E>(inputs: CaptureInputs) -> (run: RestoreRun<E>)
    ensures
        run@ == RestoreState::<E>::start(inputs),
        run.wf(),
{
    let mut pending: Vec<RestoreStep> = Vec::new();
    pending.push(RestoreStep::LoadMeta);
    let run = RestoreRun { inputs, pending, failure: None, history: Ghost(Seq::empty()) };
    assert(run@.pending =~= seq![RestoreStep::LoadMeta]);
    proof {
        restore_laws::start_is_valid::<E>(inputs);
    }
    run
}

} // verus!
