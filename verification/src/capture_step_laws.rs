//! What one step of a capture leads to, by what came of it.
use crate::capture;
use crate::capture::{CaptureState, CaptureStep, Outcome, Performed, Task};
use crate::capture_laws;
use crate::host::Host;
use crate::inputs::CaptureInputs;
use crate::sections::VirtioMmioSection;
use crate::tracking::{BacklogView, Base, ImageSource};
use crate::vcpu::{Expected, VcpuEvent, VcpuResponse, VcpuStep};
use crate::vcpu_laws;
use vstd::prelude::*;

verus! {

/// The step failed, or its answer is not the one that was awaited.
pub open spec fn went_wrong<H: Host>(step: CaptureStep, outcome: Outcome<H>) -> bool {
    ||| outcome is Failed
    ||| outcome is Raised
    ||| (step matches CaptureStep::Vcpu(VcpuStep::Receive { expected, .. }) && (
    outcome matches Outcome::Reply(reply) && !vcpu_laws::due(expected, reply)))
}

/// From position `at` on, the steps let every device run on, if `devices`, and then every
/// vCPU: each is told, and then each answer awaited.
pub open spec fn resumes_all(
    inputs: CaptureInputs,
    steps: Seq<CaptureStep>,
    at: int,
    devices: bool,
) -> bool {
    let count = if devices {
        inputs.virtio_bases@.len() as int
    } else {
        0
    };
    let n = inputs.vcpu_count as int;
    &&& steps.len() == at + count + 2 * n
    &&& forall|i: int|
        0 <= i < count ==> #[trigger] steps[at + i] == (CaptureStep::ResumeDevice {
            device: i as usize,
        })
    &&& forall|v: int|
        0 <= v < n ==> #[trigger] steps[at + count + v] == CaptureStep::Vcpu(
            VcpuStep::Send { vcpu: v as usize, event: VcpuEvent::Resume },
        )
    &&& forall|v: int|
        0 <= v < n ==> #[trigger] steps[at + count + n + v] == CaptureStep::Vcpu(
            VcpuStep::Receive { vcpu: v as usize, expected: Expected::Resumed },
        )
}

/// Every step that does outside work can fail, and whatever a vCPU says can be handed on.
pub proof fn failures_can_be_reported<H: Host>(
    step: CaptureStep,
    failed: Outcome<H>,
    raised: Outcome<H>,
    reply: Outcome<H>,
    found: Outcome<H>,
)
    requires
        failed is Failed,
        raised is Raised,
        reply is Reply,
        found is Found,
    ensures
        match step {
            CaptureStep::Vcpu(VcpuStep::Send { .. })
            | CaptureStep::PauseDevice { .. }
            | CaptureStep::SerializeDevice { .. }
            | CaptureStep::SnapshotIrqchip
            | CaptureStep::TakeDirtyBlocks
            | CaptureStep::EnableTracking
            | CaptureStep::ResumeDevice { .. } => capture::fits(step, failed),
            CaptureStep::RemoveStage
            | CaptureStep::CreateStage
            | CaptureStep::WriteImage { .. }
            | CaptureStep::WriteContainer
            | CaptureStep::SetTargetAside
            | CaptureStep::RenameStage { .. }
            | CaptureStep::RemoveOld
            | CaptureStep::PutTargetBack => capture::fits(step, raised),
            CaptureStep::Vcpu(VcpuStep::Receive { .. }) => capture::fits(step, reply),
            CaptureStep::LookForStage
            | CaptureStep::LookForPages
            | CaptureStep::LookForTarget => capture::fits(step, found),
            _ => true,
        },
{
}

/// A capture starts by pausing the vCPUs; arming pauses them too, and then only starts the
/// tracking and resumes them.
pub proof fn runs_start_with_the_pause<H: Host>(
    task: Task,
    inputs: CaptureInputs,
    initial: BacklogView,
)
    ensures
        ({
            let s = CaptureState::<H>::start(task, inputs, initial);
            let n = inputs.vcpu_count as int;
            let m = inputs.vcpu_ids@.len() as int;
            &&& s.history.len() == 0
            &&& s.failure is None
            &&& s.task == task && s.inputs == inputs && s.initial == initial
            &&& s.pending.len() >= 2 * n + m
            &&& forall|v: int|
                0 <= v < n ==> #[trigger] s.pending[v] == CaptureStep::Vcpu(
                    VcpuStep::Send { vcpu: v as usize, event: VcpuEvent::Pause },
                )
            &&& forall|j: int|
                0 <= j < m ==> #[trigger] s.pending[n + j] == CaptureStep::Vcpu(
                    VcpuStep::RequestExit { vcpu_id: inputs.vcpu_ids@[j] },
                )
            &&& forall|v: int|
                0 <= v < n ==> #[trigger] s.pending[n + m + v] == CaptureStep::Vcpu(
                    VcpuStep::Receive { vcpu: v as usize, expected: Expected::Paused },
                )
            &&& task is ArmDirtyTracking ==> {
                &&& s.pending[2 * n + m] == CaptureStep::EnableTracking
                &&& resumes_all(inputs, s.pending, 2 * n + m + 1, false)
            }
        }),
{
}

/// Behind the pause, a capture takes each device in turn, then the interrupt controllers,
/// then the stage, the memory, the counter and the state file, and publishes; last it
/// resumes everything.
pub proof fn captures_take_everything<H: Host>(inputs: CaptureInputs, initial: BacklogView)
    ensures
        ({
            let s = CaptureState::<H>::start(Task::Capture, inputs, initial);
            let p = 2 * inputs.vcpu_count + inputs.vcpu_ids@.len();
            let count = inputs.virtio_bases@.len() as int;
            let f = p + 3 * count;
            let g = if inputs.has_irqchip {
                f + 1
            } else {
                f
            };
            &&& forall|i: int|
                0 <= i < count ==> {
                    &&& #[trigger] s.pending[p + 3 * i] == (CaptureStep::PauseDevice {
                        device: i as usize,
                    })
                    &&& s.pending[p + 3 * i + 1] == (CaptureStep::SerializeDevice {
                        device: i as usize,
                    })
                    &&& s.pending[p + 3 * i + 2] == (CaptureStep::ReadTransport {
                        device: i as usize,
                    })
                }
            &&& inputs.has_irqchip ==> s.pending[f] == CaptureStep::SnapshotIrqchip
            &&& s.pending[g] == CaptureStep::ReadInterruptState
            &&& s.pending[g + 1] == CaptureStep::LookForStage
            &&& s.pending[g + 2] == CaptureStep::CreateStage
            &&& s.pending[g + 3] == CaptureStep::TakeDirtyBlocks
            &&& s.pending[g + 4] == CaptureStep::LookForPages
            &&& s.pending[g + 5] == CaptureStep::ReadClock
            &&& s.pending[g + 6] == CaptureStep::WriteContainer
            &&& s.pending[g + 7] == CaptureStep::LookForTarget
            &&& s.pending[g + 8] == CaptureStep::EnableTracking
            &&& resumes_all(inputs, s.pending, g + 9, true)
        }),
{
    let s = CaptureState::<H>::start(Task::Capture, inputs, initial);
    capture_laws::lemma_scripts(inputs);
    capture_laws::lemma_capture_script(inputs);
    let pause = capture::pause_script(inputs);
    let quiet = capture::device_script(inputs);
    let p = pause.len() as int;
    assert forall|i: int| 0 <= i < inputs.virtio_bases@.len() implies {
        &&& #[trigger] s.pending[p + 3 * i] == (CaptureStep::PauseDevice { device: i as usize })
        &&& s.pending[p + 3 * i + 1] == (CaptureStep::SerializeDevice { device: i as usize })
        &&& s.pending[p + 3 * i + 2] == (CaptureStep::ReadTransport { device: i as usize })
    } by {
        assert(s.pending[p + 3 * i] == quiet[3 * i]);
        assert(s.pending[p + 3 * i + 1] == quiet[3 * i + 1]);
        assert(s.pending[p + 3 * i + 2] == quiet[3 * i + 2]);
    }
}

/// A step that goes well, and looks for nothing, is done with: the next one follows.
pub proof fn what_goes_well_is_done_with<H: Host>(s: CaptureState<H>, outcome: Outcome<H>)
    requires
        s.pending.len() > 0,
        capture::fits(s.pending[0], outcome),
        !went_wrong(s.pending[0], outcome),
        !(outcome is Found),
    ensures
        ({
            let t = s.accept(outcome);
            &&& t.pending == s.pending.drop_first()
            &&& t.failure == s.failure
        }),
{
    let t = s.accept(outcome);
    assert(t.pending =~= s.pending.drop_first());
}

/// What was done is kept in order, and what the run is about does not change.
pub proof fn what_is_done_is_kept<H: Host>(s: CaptureState<H>, outcome: Outcome<H>)
    requires
        s.pending.len() > 0,
    ensures
        ({
            let t = s.accept(outcome);
            &&& t.history == s.history.push(Performed { step: s.pending[0], outcome })
            &&& t.task == s.task
            &&& t.inputs == s.inputs
            &&& t.initial == s.initial
        }),
{
}

/// What is found is dealt with at once: a stage that is there is removed; an image is
/// written, by cloning only if the last image is there; a snapshot that is there is set
/// aside, replaced and removed; and if there is none, the stage takes the place.
pub proof fn what_is_found_is_dealt_with<H: Host>(s: CaptureState<H>, there: bool)
    requires
        s.pending.len() > 0,
        s.pending[0] is LookForStage || s.pending[0] is LookForPages
            || s.pending[0] is LookForTarget,
    ensures
        ({
            let t = s.accept(Outcome::Found(there));
            let rest = s.pending.drop_first();
            &&& t.failure == s.failure
            &&& s.pending[0] is LookForStage ==> t.pending == if there {
                seq![CaptureStep::RemoveStage] + rest
            } else {
                rest
            }
            &&& s.pending[0] is LookForPages ==> t.pending == seq![
                CaptureStep::WriteImage {
                    source: if s.backlog().base is Target && there {
                        ImageSource::Clone
                    } else if s.backlog().base is Nothing && !there {
                        ImageSource::Sparse
                    } else {
                        ImageSource::Whole
                    },
                },
            ] + rest
            &&& s.pending[0] is LookForTarget ==> t.pending == if there {
                seq![
                    CaptureStep::SetTargetAside,
                    CaptureStep::RenameStage { replacing: true },
                    CaptureStep::RemoveOld,
                ] + rest
            } else {
                seq![CaptureStep::RenameStage { replacing: false }] + rest
            }
        }),
{
    let t = s.accept(Outcome::Found(there));
    let rest = s.pending.drop_first();
    assert(s.pending[0] is LookForStage && !there ==> t.pending =~= rest);
}

/// A failure is kept unless there was one before, and nothing but a failure is.
pub proof fn the_first_failure_is_kept<H: Host>(s: CaptureState<H>, outcome: Outcome<H>)
    requires
        s.pending.len() > 0,
        capture::fits(s.pending[0], outcome),
    ensures
        ({
            let t = s.accept(outcome);
            &&& s.failure is Some ==> t.failure == s.failure
            &&& s.failure is None ==> (t.failure is Some <==> went_wrong(s.pending[0], outcome))
        }),
{
}

/// A capture that fails resumes all that it paused, and cleans up what it made: nothing but
/// the vCPUs if it got no further; the devices too; the stage as well, once that is made;
/// and a snapshot that it set aside is put back first. If that cannot be done, the stage
/// stays.
pub proof fn failed_captures_are_wound_up<H: Host>(s: CaptureState<H>, outcome: Outcome<H>)
    requires
        s.pending.len() > 0,
        s.task is Capture,
        capture::fits(s.pending[0], outcome),
        went_wrong(s.pending[0], outcome),
    ensures
        ({
            let left = s.accept(outcome).pending;
            let rest = s.pending.drop_first();
            match s.pending[0] {
                CaptureStep::Vcpu(VcpuStep::Send { vcpu, event }) => if event is Resume {
                    &&& vcpu < s.inputs.vcpu_count ==> left.len() == s.inputs.vcpu_count - vcpu - 1
                    &&& forall|i: int|
                        0 <= i < left.len() ==> #[trigger] left[i] == CaptureStep::Vcpu(
                            VcpuStep::Send {
                                vcpu: (vcpu + 1 + i) as usize,
                                event: VcpuEvent::Resume,
                            },
                        )
                } else {
                    resumes_all(s.inputs, left, 0, false)
                },
                CaptureStep::Vcpu(VcpuStep::Receive { expected, .. }) => if expected is Resumed {
                    left.len() == 0
                } else {
                    resumes_all(s.inputs, left, 0, false)
                },
                CaptureStep::PauseDevice { .. }
                | CaptureStep::SerializeDevice { .. }
                | CaptureStep::SnapshotIrqchip
                | CaptureStep::RemoveStage
                | CaptureStep::CreateStage
                | CaptureStep::PutTargetBack => resumes_all(s.inputs, left, 0, true),
                CaptureStep::TakeDirtyBlocks
                | CaptureStep::WriteImage { .. }
                | CaptureStep::WriteContainer
                | CaptureStep::SetTargetAside
                | CaptureStep::EnableTracking => {
                    &&& resumes_all(s.inputs, left, 1, true)
                    &&& left[0] == CaptureStep::DiscardStage
                },
                CaptureStep::RenameStage { replacing } => if replacing {
                    &&& resumes_all(s.inputs, left, 2, true)
                    &&& left[0] == CaptureStep::PutTargetBack
                    &&& left[1] == CaptureStep::DiscardStage
                } else {
                    &&& resumes_all(s.inputs, left, 1, true)
                    &&& left[0] == CaptureStep::DiscardStage
                },
                CaptureStep::RemoveOld | CaptureStep::ResumeDevice { .. } => left == rest,
                _ => true,
            }
        }),
{
    let left = s.accept(outcome).pending;
    assert(s.pending[0] is RemoveOld || s.pending[0] is ResumeDevice ==> left
        =~= s.pending.drop_first());
}

/// Arming that fails resumes the vCPUs, and ends as soon as that fails.
pub proof fn failed_arming_is_wound_up<H: Host>(s: CaptureState<H>, outcome: Outcome<H>)
    requires
        s.pending.len() > 0,
        s.task is ArmDirtyTracking,
        capture::fits(s.pending[0], outcome),
        went_wrong(s.pending[0], outcome),
    ensures
        ({
            let left = s.accept(outcome).pending;
            match s.pending[0] {
                CaptureStep::Vcpu(VcpuStep::Send { event, .. }) => if event is Resume {
                    left.len() == 0
                } else {
                    resumes_all(s.inputs, left, 0, false)
                },
                CaptureStep::Vcpu(VcpuStep::Receive { expected, .. }) => if expected is Resumed {
                    left.len() == 0
                } else {
                    resumes_all(s.inputs, left, 0, false)
                },
                CaptureStep::EnableTracking => resumes_all(s.inputs, left, 0, false),
                _ => true,
            }
        }),
{
}

/// What a step brings is recorded as it is, and nothing else is changed: the registers of a
/// vCPU behind those before; the state of a device, and then its section; the states of the
/// interrupt controllers; the layout of the image; and the counter.
pub proof fn what_is_brought_is_recorded<H: Host>(s: CaptureState<H>, outcome: Outcome<H>)
    requires
        s.pending.len() > 0,
        capture::fits(s.pending[0], outcome),
    ensures
        ({
            let before = s.recorded();
            let after = s.accept(outcome).recorded();
            &&& after.vcpu_states == match (s.pending[0], outcome) {
                (
                    CaptureStep::Vcpu(VcpuStep::Receive { expected: Expected::Paused, .. }),
                    Outcome::Reply(Ok(VcpuResponse::Paused(state))),
                ) => before.vcpu_states.push(state),
                _ => before.vcpu_states,
            }
            &&& after.device == match outcome {
                Outcome::Serialized(state) => Some(state),
                Outcome::Transport { .. } => None,
                _ => before.device,
            }
            &&& after.virtio == match (s.pending[0], outcome) {
                (
                    CaptureStep::ReadTransport { device },
                    Outcome::Transport { device_type, state },
                ) => before.virtio.push(
                    VirtioMmioSection {
                        mmio_base: s.inputs.virtio_bases@[device as int],
                        device_type,
                        transport: state,
                        device: before.device,
                    },
                ),
                _ => before.virtio,
            }
            &&& after.hvf_gic == match outcome {
                Outcome::Irqchip(state) => state,
                _ => before.hvf_gic,
            }
            &&& after.gic == match outcome {
                Outcome::Interrupts { gic, .. } => gic,
                _ => before.gic,
            }
            &&& after.vcpu_list == match outcome {
                Outcome::Interrupts { vcpu_list, .. } => Some(vcpu_list),
                _ => before.vcpu_list,
            }
            &&& after.ram == match outcome {
                Outcome::Image(layout) => Some(layout),
                _ => before.ram,
            }
            &&& after.counter == match outcome {
                Outcome::Clock(now) => now,
                _ => before.counter,
            }
        }),
{
    capture_laws::lemma_record(s, outcome);
}

/// Nothing is recorded at the start, and what is known of the tracking is what the run was
/// started with.
pub proof fn nothing_is_recorded_at_the_start<H: Host>(
    task: Task,
    inputs: CaptureInputs,
    initial: BacklogView,
)
    ensures
        ({
            let s = CaptureState::<H>::start(task, inputs, initial);
            &&& s.recorded().vcpu_states.len() == 0
            &&& s.recorded().virtio.len() == 0
            &&& s.recorded().device is None
            &&& s.recorded().hvf_gic is None
            &&& s.recorded().gic is None
            &&& s.recorded().vcpu_list is None
            &&& s.recorded().ram is None
            &&& s.backlog() == initial
            &&& s.published() is Before
        }),
{
}

/// What is known of the tracking changes only so: blocks that were handed out are added to
/// those before; once an image is published, it is the last image and no block is left; and
/// if the blocks cannot be had, or the tracking not be started, the last image is unknown.
pub proof fn what_is_known_of_the_tracking<H: Host>(s: CaptureState<H>, outcome: Outcome<H>)
    requires
        s.pending.len() > 0,
        capture::fits(s.pending[0], outcome),
    ensures
        ({
            let before = s.backlog();
            let after = s.accept(outcome).backlog();
            match s.pending[0] {
                CaptureStep::TakeDirtyBlocks => match outcome {
                    Outcome::Blocks(blocks) => after.base == before.base && after.blocks
                        == before.blocks + blocks@,
                    _ => after.base == Base::Unknown && after.blocks == before.blocks,
                },
                CaptureStep::RenameStage { .. } => if outcome is Done {
                    after.base == Base::Target && after.blocks.len() == 0
                } else {
                    after == before
                },
                CaptureStep::EnableTracking => if outcome is Done {
                    after == before
                } else {
                    after.base == Base::Unknown && after.blocks == before.blocks
                },
                _ => after == before,
            }
        }),
{
    capture_laws::lemma_record(s, outcome);
}

/// What stands in the directory to publish to changes only so: it is empty once what stood
/// there is set aside, holds the new snapshot once the stage is renamed, and holds again
/// what stood there once that is put back.
pub proof fn what_is_published_changes_by_renames<H: Host>(s: CaptureState<H>, outcome: Outcome<H>)
    requires
        s.pending.len() > 0,
    ensures
        ({
            let before = s.published();
            let after = s.accept(outcome).published();
            match s.pending[0] {
                CaptureStep::SetTargetAside => if outcome is Done {
                    after is Aside
                } else {
                    after == before
                },
                CaptureStep::RenameStage { .. } => if outcome is Done {
                    after is New
                } else {
                    after == before
                },
                CaptureStep::PutTargetBack => if outcome is Done {
                    after is Before
                } else {
                    after == before
                },
                _ => after == before,
            }
        }),
{
    assert(s.accept(outcome).history.drop_last() =~= s.history);
}

} // verus!
