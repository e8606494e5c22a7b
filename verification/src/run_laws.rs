//! What a run gives back, and how one run follows on another.
use crate::capture;
use crate::capture::{CaptureRun, CaptureStep, Outcome};
use crate::capture_step_laws;
use crate::capture_trace_laws;
use crate::error::Failure;
use crate::host::Host;
use crate::inputs::CaptureInputs;
use crate::restore;
use crate::restore::{RestoreOutcome, RestoreRun, RestoreStep};
use crate::restore_step_laws;
use crate::restore_trace_laws;
use crate::tracking;
use crate::tracking::{Base, Tracker};
use crate::vcpu::VcpuStep;
use vstd::prelude::*;

verus! {

/// A capture returns success exactly if no step of it went wrong.
pub proof fn captures_return_whether_all_went_well<H: Host>(
    run: CaptureRun<H>,
    ended: (Result<(), Failure<H::Error>>, Tracker),
)
    requires
        run.wf(),
        call_ensures(CaptureRun::<H>::finish, (run,), ended),
    ensures
        ended.0 is Ok <==> forall|k: int|
            0 <= k < run@.history.len() ==> !capture_step_laws::went_wrong(
                (#[trigger] run@.history[k]).step,
                run@.history[k].outcome,
            ),
{
    capture_trace_laws::success_is_that_all_went_well(run@);
}

/// A restore returns success exactly if no step of it went wrong.
pub proof fn restores_return_whether_all_went_well<E>(
    run: RestoreRun<E>,
    result: Result<(), Failure<E>>,
)
    requires
        run.wf(),
        call_ensures(RestoreRun::<E>::finish, (run,), result),
    ensures
        result is Ok <==> forall|k: int|
            0 <= k < run@.history.len() ==> !restore_step_laws::went_wrong(
                run@.inputs,
                (#[trigger] run@.history[k]).step,
                run@.history[k].outcome,
            ),
{
    restore_trace_laws::success_is_that_all_went_well(run@);
}

/// A capture goes on from where the one before it ended: it has the blocks that were left, and
/// it takes its own directory for that of the last image exactly if that is where the image
/// was published.
pub proof fn captures_follow_on_one_another<H: Host>(
    run: CaptureRun<H>,
    ended: (Result<(), Failure<H::Error>>, Tracker),
    inputs: CaptureInputs,
    target: Vec<u8>,
    next: CaptureRun<H>,
)
    requires
        call_ensures(CaptureRun::<H>::finish, (run,), ended),
        call_ensures(capture::capture::<H>, (inputs, ended.1, target), next),
    ensures
        next@.backlog().blocks == run@.backlog().blocks,
        next.target() == target@,
        next@.inputs == inputs,
        run@.backlog().base == Base::Target ==> next@.backlog().base == if target@
            == run.target() {
            Base::Target
        } else {
            Base::Elsewhere
        },
        run@.backlog().base == Base::Unknown ==> next@.backlog().base == Base::Unknown,
        run@.backlog().base == Base::Nothing ==> next@.backlog().base == Base::Nothing,
        run@.backlog().base == Base::Elsewhere && run.image_before() == tracking::LastImageView::At(
            target@,
        ) ==> next@.backlog().base == Base::Target,
{
}

/// To start the tracking changes nothing of what is known of the images, unless it fails.
pub proof fn arming_keeps_what_is_known<H: Host>(
    tracker: Tracker,
    inputs: CaptureInputs,
    run: CaptureRun<H>,
)
    requires
        call_ensures(capture::arm_dirty_tracking::<H>, (inputs, tracker), run),
    ensures
        run@.backlog().blocks == tracker.blocks@,
        tracking::image_after(run.image_before(), run.target(), run@.backlog().base)
            == tracker.image@,
        run@.inputs == inputs,
{
}

/// A new machine has no image. A machine that was restored has that of the directory that it
/// was restored from; and nothing of either was written yet.
pub proof fn trackers_start_with_no_blocks(
    fresh: Tracker,
    dir: Vec<u8>,
    restored: Tracker,
    target: Seq<u8>,
)
    requires
        call_ensures(Tracker::new, (), fresh),
        call_ensures(Tracker::restored, (dir,), restored),
    ensures
        fresh.blocks@.len() == 0,
        tracking::base_for(fresh.image@, target) is Nothing,
        restored.blocks@.len() == 0,
        tracking::base_for(restored.image@, target) is Target <==> target == dir@,
        tracking::base_for(restored.image@, target) is Elsewhere <==> target != dir@,
{
}

/// Every step of a capture can succeed.
pub proof fn steps_of_a_capture_can_succeed<H: Host>(step: CaptureStep, outcome: Outcome<H>)
    requires
        match step {
            CaptureStep::SerializeDevice { .. } => outcome is Serialized,
            CaptureStep::SnapshotIrqchip => outcome is Irqchip,
            CaptureStep::TakeDirtyBlocks => outcome is Blocks,
            CaptureStep::Vcpu(VcpuStep::Receive { .. }) => outcome is Reply,
            CaptureStep::ReadTransport { .. } => outcome is Transport,
            CaptureStep::ReadInterruptState => outcome is Interrupts,
            CaptureStep::ReadClock => outcome is Clock,
            CaptureStep::LookForStage
            | CaptureStep::LookForPages
            | CaptureStep::LookForTarget => outcome is Found,
            CaptureStep::WriteImage { .. } => outcome is Image,
            _ => outcome is Done,
        },
    ensures
        capture::fits(step, outcome),
{
}

/// Every step of a restore can succeed.
pub proof fn steps_of_a_restore_can_succeed<E>(step: RestoreStep, outcome: RestoreOutcome<E>)
    requires
        match step {
            RestoreStep::LoadMeta => outcome is Meta,
            RestoreStep::Vcpu(VcpuStep::Receive { .. }) => outcome is Reply,
            RestoreStep::FindIrqchipState
            | RestoreStep::FindGicState
            | RestoreStep::FindPendingInterrupts => outcome is Found,
            RestoreStep::LoadVcpuState { .. } => outcome is Registers,
            RestoreStep::LoadVirtio { .. } => outcome is Virtio,
            RestoreStep::ReadClock { .. } => outcome is Clock,
            _ => outcome is Done,
        },
    ensures
        restore::fits(step, outcome),
{
}

} // verus!
