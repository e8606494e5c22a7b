//! What was done by the time that a capture gets somewhere, and what that brought.
use crate::capture;
use crate::capture::{CaptureState, CaptureStep, Outcome, Performed, Task};
use crate::capture_laws;
use crate::capture_laws::performed;
use crate::capture_step_laws;
use crate::host::Host;
use crate::inputs::CaptureInputs;
use crate::section_laws;
use crate::sections;
use crate::sections::{MetaSection, Payload, SectionId};
use crate::tracking::ImageSource;
use crate::tracking_laws;
use crate::vcpu::{Expected, VcpuEvent, VcpuResponse, VcpuStep};
use crate::vcpu_laws;
use vstd::prelude::*;

verus! {

/// This step comes before the `k`-th.
pub open spec fn comes_before<H: Host>(s: CaptureState<H>, step: CaptureStep, k: int) -> bool {
    exists|i: int| 0 <= i < k && #[trigger] s.steps()[i] == step
}

/// Where the plan of a task ends in its script.
pub open spec fn plan_end(task: Task, inputs: CaptureInputs) -> int {
    let pause = 2 * inputs.vcpu_count + inputs.vcpu_ids@.len();
    match task {
        Task::Capture => pause + 3 * inputs.virtio_bases@.len() + (if inputs.has_irqchip {
            10int
        } else {
            9
        }),
        Task::ArmDirtyTracking => pause + 1,
    }
}

/// What is planned in the script of a capture.
proof fn lemma_planned_capture(inputs: CaptureInputs, k: int)
    requires
        0 <= k < capture::task_script(Task::Capture, inputs).len(),
    ensures
        capture::planned(capture::task_script(Task::Capture, inputs)[k]) <==> k < plan_end(
            Task::Capture,
            inputs,
        ),
{
    capture_laws::lemma_scripts(inputs);
    capture_laws::lemma_capture_script(inputs);
    let script = capture::task_script(Task::Capture, inputs);
    let pause = capture::pause_script(inputs);
    let quiet = capture::device_script(inputs);
    let devices = capture::resume_device_script(inputs);
    let vcpus = capture::resume_script(inputs);
    let p = pause.len() as int;
    let f = p + quiet.len();
    let q = plan_end(Task::Capture, inputs);
    if k < p {
        assert(script[k] == pause[k]);
    } else if k < f {
        assert(script[k] == quiet[k - p]);
    } else if q <= k < q + devices.len() {
        assert(script[k] == devices[k - q]);
    } else if q + devices.len() <= k {
        assert(script[k] == vcpus[k - q - devices.len()]);
    }
}

/// What is planned in the script of arming.
proof fn lemma_planned_arm(inputs: CaptureInputs, k: int)
    requires
        0 <= k < capture::task_script(Task::ArmDirtyTracking, inputs).len(),
    ensures
        capture::planned(capture::task_script(Task::ArmDirtyTracking, inputs)[k]) <==> k
            < plan_end(Task::ArmDirtyTracking, inputs),
{
    capture_laws::lemma_scripts(inputs);
    let script = capture::task_script(Task::ArmDirtyTracking, inputs);
    let pause = capture::pause_script(inputs);
    let vcpus = capture::resume_script(inputs);
    let p = pause.len() as int;
    if k < p {
        assert(script[k] == pause[k]);
    } else if k > p {
        assert(script[k] == vcpus[k - p - 1]);
    }
}

/// The plan of a task is what its script starts with, up to the resumption.
proof fn lemma_plan(task: Task, inputs: CaptureInputs)
    ensures
        ({
            let script = capture::task_script(task, inputs);
            &&& 0 <= plan_end(task, inputs) <= script.len()
            &&& capture::plan_of(script) == script.take(plan_end(task, inputs))
        }),
{
    let script = capture::task_script(task, inputs);
    let q = plan_end(task, inputs);
    assert(0 <= q <= script.len()) by {
        capture_laws::lemma_scripts(inputs);
        capture_laws::lemma_capture_script(inputs);
    }
    let head = script.take(q);
    let tail = script.skip(q);
    assert(script =~= head + tail);
    assert forall|k: int| 0 <= k < head.len() implies capture::planned(#[trigger] head[k]) by {
        assert(head[k] == script[k]);
        match task {
            Task::Capture => lemma_planned_capture(inputs, k),
            Task::ArmDirtyTracking => lemma_planned_arm(inputs, k),
        }
    }
    assert forall|k: int| 0 <= k < tail.len() implies !capture::planned(#[trigger] tail[k]) by {
        assert(tail[k] == script[q + k]);
        match task {
            Task::Capture => lemma_planned_capture(inputs, q + k),
            Task::ArmDirtyTracking => lemma_planned_arm(inputs, q + k),
        }
    }
    capture_laws::lemma_plan_of(head);
    capture_laws::lemma_plan_of(tail);
    capture_laws::lemma_plan_adds(head, tail);
    assert(capture::plan_of(script) =~= head);
}

/// The plan of a task starts with the pause.
proof fn lemma_plan_pauses(task: Task, inputs: CaptureInputs)
    ensures
        ({
            let plan = capture::plan_of(capture::task_script(task, inputs));
            let pause = capture::pause_script(inputs);
            &&& pause.len() <= plan.len()
            &&& forall|k: int| 0 <= k < pause.len() ==> #[trigger] plan[k] == pause[k]
        }),
{
    lemma_plan(task, inputs);
    capture_laws::lemma_scripts(inputs);
    let script = capture::task_script(task, inputs);
    let plan = capture::plan_of(script);
    let pause = capture::pause_script(inputs);
    assert forall|k: int| 0 <= k < pause.len() implies #[trigger] plan[k] == pause[k] by {
        assert(plan[k] == script[k]);
        match task {
            Task::Capture => capture_laws::lemma_capture_script(inputs),
            Task::ArmDirtyTracking => {},
        }
    }
}

/// Where a planned step stands in the plan; what stands before it there came before it.
proof fn lemma_place<H: Host>(s: CaptureState<H>, k: int) -> (r: int)
    requires
        s.keeps_to_plan(),
        0 <= k < s.steps().len(),
        capture::planned(s.steps()[k]),
    ensures
        ({
            let plan = capture::plan_of(capture::task_script(s.task, s.inputs));
            &&& 0 <= r < plan.len()
            &&& plan[r] == s.steps()[k]
            &&& forall|q: int| 0 <= q < r ==> comes_before(s, #[trigger] plan[q], k)
        }),
{
    let plan = capture::plan_of(capture::task_script(s.task, s.inputs));
    let steps = s.steps();
    let head = steps.take(k);
    let one = seq![steps[k]];
    let tail = steps.skip(k + 1);
    assert(steps =~= head + (one + tail));
    capture_laws::lemma_plan_adds(head, one + tail);
    capture_laws::lemma_plan_adds(one, tail);
    capture_laws::lemma_plan_of(one);
    let r = capture::plan_of(head).len() as int;
    assert(capture::plan_of(steps)[r] == steps[k]);
    assert(plan[r] == capture::plan_of(steps)[r]);
    assert forall|q: int| 0 <= q < r implies comes_before(s, #[trigger] plan[q], k) by {
        let x = plan[q];
        assert(capture::plan_of(steps)[q] == x);
        assert(capture::plan_of(head)[q] == x);
        assert(capture::plan_of(head).contains(x));
        head.lemma_filter_contains_rev(|step: CaptureStep| capture::planned(step), x);
        let i = head.index_of(x);
        assert(steps[i] == x);
    }
    r
}

/// The `a`-th step of the script of a capture comes before the `b`-th, wherever that is.
proof fn lemma_before<H: Host>(s: CaptureState<H>, k: int, a: int, b: int)
    requires
        s.keeps_to_plan(),
        s.task is Capture,
        0 <= k < s.steps().len(),
        0 <= a < b < capture::task_script(Task::Capture, s.inputs).len(),
        s.steps()[k] == capture::task_script(Task::Capture, s.inputs)[b],
        capture::planned(s.steps()[k]),
        !(s.steps()[k] matches CaptureStep::Vcpu(VcpuStep::RequestExit { .. })),
    ensures
        comes_before(s, capture::task_script(Task::Capture, s.inputs)[a], k),
{
    let script = capture::task_script(Task::Capture, s.inputs);
    let plan = capture::plan_of(script);
    lemma_plan(Task::Capture, s.inputs);
    let r = lemma_place(s, k);
    assert(script[r] == script[b]);
    if r < b {
        capture_laws::lemma_capture_once(s.inputs, r, b);
    } else if b < r {
        capture_laws::lemma_capture_once(s.inputs, b, r);
    }
    assert(plan[a] == script[a]);
}

/// This step was done, and went well, before the `k`-th.
pub open spec fn done_before<H: Host>(s: CaptureState<H>, step: CaptureStep, k: int) -> bool {
    exists|i: int|
        #![trigger s.history[i]]
        0 <= i < k && i < s.history.len() && s.history[i].step == step
            && !capture_step_laws::went_wrong(step, s.history[i].outcome)
}

/// What comes before a planned step that is next, or was done, was done and went well.
proof fn lemma_done<H: Host>(s: CaptureState<H>, step: CaptureStep, k: int)
    requires
        s.valid(),
        0 <= k <= s.history.len(),
        k < s.steps().len(),
        comes_before(s, step, k),
        capture::planned(s.steps()[k]),
        capture::planned(step),
    ensures
        done_before(s, step, k),
{
    let i = choose|i: int| 0 <= i < k && #[trigger] s.steps()[i] == step;
    assert(s.history[i].step == step);
    assert(capture::fits(s.history[i].step, s.history[i].outcome));
    if s.diverted(i) {
        assert(capture::phase(s.steps()[k]) >= 10);
    }
    assert(s.refused(i) is None);
}

/// Before the answer of a vCPU to `Pause` is awaited, every vCPU was sent `Pause`, and then
/// every handle was asked to leave the guest, in a capture as in arming.
pub proof fn every_vcpu_is_forced_out_before_an_answer<H: Host>(
    s: CaptureState<H>,
    k: int,
    vcpu: usize,
    j: int,
)
    requires
        s.valid(),
        0 <= k <= s.history.len(),
        k < s.steps().len(),
        s.steps()[k] == CaptureStep::Vcpu(VcpuStep::Receive { vcpu, expected: Expected::Paused }),
        0 <= j < s.inputs.vcpu_ids@.len(),
    ensures
        exists|i: int|
            #![trigger s.history[i]]
            {
                &&& 0 <= i < k
                &&& s.history[i].step == CaptureStep::Vcpu(
                    VcpuStep::RequestExit { vcpu_id: s.inputs.vcpu_ids@[j] },
                )
                &&& forall|v: usize|
                    v < s.inputs.vcpu_count ==> #[trigger] done_before(
                        s,
                        CaptureStep::Vcpu(VcpuStep::Send { vcpu: v, event: VcpuEvent::Pause }),
                        i,
                    )
            },
{
    let n = s.inputs.vcpu_count as int;
    let m = s.inputs.vcpu_ids@.len() as int;
    let plan = capture::plan_of(capture::task_script(s.task, s.inputs));
    let pause = capture::pause_script(s.inputs);
    let exit = CaptureStep::Vcpu(VcpuStep::RequestExit { vcpu_id: s.inputs.vcpu_ids@[j] });
    lemma_plan_pauses(s.task, s.inputs);
    capture_laws::lemma_scripts(s.inputs);
    let r = lemma_place(s, k);
    assert(r >= n + m) by {
        if r < n + m {
            assert(plan[r] == pause[r]);
        }
    }
    assert(plan[n + j] == pause[n + j]);
    assert(pause[n + j] == exit);
    assert(comes_before(s, plan[n + j], k));
    let i = choose|i: int| 0 <= i < k && #[trigger] s.steps()[i] == exit;
    assert(s.history[i].step == exit);
    let e = lemma_place(s, i);
    assert(e >= n) by {
        if e < n {
            assert(plan[e] == pause[e]);
        }
    }
    assert forall|v: usize| v < s.inputs.vcpu_count implies #[trigger] done_before(
        s,
        CaptureStep::Vcpu(VcpuStep::Send { vcpu: v, event: VcpuEvent::Pause }),
        i,
    ) by {
        let send = CaptureStep::Vcpu(VcpuStep::Send { vcpu: v, event: VcpuEvent::Pause });
        assert(plan[v as int] == pause[v as int]);
        assert(pause[v as int] == send);
        assert(comes_before(s, plan[v as int], i));
        lemma_done(s, send, i);
    }
}

/// Before a capture or arming does anything but the exchange with the vCPUs, every vCPU has
/// answered `Pause`.
pub proof fn every_vcpu_answers_before_anything_else<H: Host>(
    s: CaptureState<H>,
    k: int,
    vcpu: usize,
)
    requires
        s.valid(),
        0 <= k <= s.history.len(),
        k < s.steps().len(),
        !(s.steps()[k] is Vcpu),
        vcpu < s.inputs.vcpu_count,
    ensures
        exists|i: int|
            #![trigger s.history[i]]
            {
                &&& 0 <= i < k
                &&& s.history[i].step == CaptureStep::Vcpu(
                    VcpuStep::Receive { vcpu, expected: Expected::Paused },
                )
                &&& s.history[i].outcome matches Outcome::Reply(Ok(VcpuResponse::Paused(_)))
            },
{
    let n = s.inputs.vcpu_count as int;
    let m = s.inputs.vcpu_ids@.len() as int;
    let pause = capture::pause_script(s.inputs);
    capture_laws::lemma_scripts(s.inputs);
    assert(3 <= capture::phase(s.steps()[k]) <= 11);
    assert(s.reaches(3, 11));
    assert(s.starts_with(pause));
    let i = n + m + vcpu;
    assert(s.steps()[i] == pause[i]);
    assert(i < k) by {
        if k < pause.len() {
            assert(s.steps()[k] == pause[k]);
        }
    }
    assert(s.history[i].step == pause[i]);
    assert(s.refused(i) is None);
    assert(capture::fits(s.history[i].step, s.history[i].outcome));
}

/// The steps of a capture come in order: whichever is next, or was done, what it rests on was
/// done before, and went well.
pub proof fn each_step_rests_on_those_before<H: Host>(s: CaptureState<H>, k: int)
    requires
        s.valid(),
        s.task is Capture,
        0 <= k <= s.history.len(),
        k < s.steps().len(),
    ensures
        match s.steps()[k] {
            CaptureStep::PauseDevice { device } => device < s.inputs.virtio_bases@.len() && (device
                > 0 ==> done_before(
                s,
                CaptureStep::ReadTransport { device: (device - 1) as usize },
                k,
            )),
            CaptureStep::SerializeDevice { device } => done_before(
                s,
                CaptureStep::PauseDevice { device },
                k,
            ),
            CaptureStep::ReadTransport { device } => done_before(
                s,
                CaptureStep::SerializeDevice { device },
                k,
            ),
            CaptureStep::SnapshotIrqchip => s.inputs.has_irqchip && all_devices_before(s, k),
            CaptureStep::ReadInterruptState => all_devices_before(s, k) && (s.inputs.has_irqchip
                ==> done_before(s, CaptureStep::SnapshotIrqchip, k)),
            CaptureStep::LookForStage => done_before(s, CaptureStep::ReadInterruptState, k),
            CaptureStep::CreateStage => done_before(s, CaptureStep::LookForStage, k),
            CaptureStep::TakeDirtyBlocks => done_before(s, CaptureStep::CreateStage, k),
            CaptureStep::LookForPages => done_before(s, CaptureStep::TakeDirtyBlocks, k),
            CaptureStep::ReadClock => done_before(s, CaptureStep::LookForPages, k),
            CaptureStep::WriteContainer => done_before(s, CaptureStep::ReadClock, k),
            CaptureStep::LookForTarget => done_before(s, CaptureStep::WriteContainer, k),
            CaptureStep::EnableTracking => done_before(s, CaptureStep::LookForTarget, k),
            _ => true,
        },
{
    let step = s.steps()[k];
    if capture::planned(step) && !(step is Vcpu) {
        let r = lemma_rested(s, k);
        lemma_rests_on(s, k, r);
    }
}

/// The `k`-th step is the `r`-th of the script of a capture, and all that stand before it
/// there were done before it.
spec fn rested<H: Host>(s: CaptureState<H>, k: int, r: int) -> bool {
    let script = capture::task_script(Task::Capture, s.inputs);
    &&& 0 <= r < plan_end(Task::Capture, s.inputs)
    &&& s.steps()[k] == script[r]
    &&& forall|a: int| 0 <= a < r ==> done_before(s, #[trigger] script[a], k)
}

proof fn lemma_rested<H: Host>(s: CaptureState<H>, k: int) -> (r: int)
    requires
        s.valid(),
        s.task is Capture,
        0 <= k <= s.history.len(),
        k < s.steps().len(),
        capture::planned(s.steps()[k]),
    ensures
        rested(s, k, r),
{
    let script = capture::task_script(Task::Capture, s.inputs);
    let plan = capture::plan_of(script);
    lemma_plan(Task::Capture, s.inputs);
    let r = lemma_place(s, k);
    assert forall|a: int| 0 <= a < r implies done_before(s, #[trigger] script[a], k) by {
        assert(plan[a] == script[a]);
        lemma_planned_capture(s.inputs, a);
        lemma_done(s, script[a], k);
    }
    assert(plan[r] == script[r]);
    r
}

/// What the steps of a capture rest on, by their place in its script.
proof fn lemma_rests_on<H: Host>(s: CaptureState<H>, k: int, r: int)
    requires
        rested(s, k, r),
        !(s.steps()[k] is Vcpu),
    ensures
        match s.steps()[k] {
            CaptureStep::PauseDevice { device } => device < s.inputs.virtio_bases@.len() && (device
                > 0 ==> done_before(
                s,
                CaptureStep::ReadTransport { device: (device - 1) as usize },
                k,
            )),
            CaptureStep::SerializeDevice { device } => done_before(
                s,
                CaptureStep::PauseDevice { device },
                k,
            ),
            CaptureStep::ReadTransport { device } => done_before(
                s,
                CaptureStep::SerializeDevice { device },
                k,
            ),
            CaptureStep::SnapshotIrqchip => s.inputs.has_irqchip && all_devices_before(s, k),
            CaptureStep::ReadInterruptState => all_devices_before(s, k) && (s.inputs.has_irqchip
                ==> done_before(s, CaptureStep::SnapshotIrqchip, k)),
            CaptureStep::LookForStage => done_before(s, CaptureStep::ReadInterruptState, k),
            CaptureStep::CreateStage => done_before(s, CaptureStep::LookForStage, k),
            CaptureStep::TakeDirtyBlocks => done_before(s, CaptureStep::CreateStage, k),
            CaptureStep::LookForPages => done_before(s, CaptureStep::TakeDirtyBlocks, k),
            CaptureStep::ReadClock => done_before(s, CaptureStep::LookForPages, k),
            CaptureStep::WriteContainer => done_before(s, CaptureStep::ReadClock, k),
            CaptureStep::LookForTarget => done_before(s, CaptureStep::WriteContainer, k),
            CaptureStep::EnableTracking => done_before(s, CaptureStep::LookForTarget, k),
            _ => true,
        },
{
    let inputs = s.inputs;
    let script = capture::task_script(Task::Capture, inputs);
    capture_laws::lemma_scripts(inputs);
    capture_laws::lemma_capture_script(inputs);
    let pause = capture::pause_script(inputs);
    let quiet = capture::device_script(inputs);
    let p = pause.len() as int;
    let f = p + quiet.len();
    assert(inputs.virtio_bases.len() == inputs.virtio_bases@.len());
    if r > 0 {
        assert(done_before(s, script[r - 1], k));
    }
    if r < p {
        assert(script[r] == pause[r]);
        assert(capture::phase(script[r]) <= 2);
    } else if r < f {
        assert(script[r] == quiet[r - p]);
        if r > p {
            assert(script[r - 1] == quiet[r - 1 - p]);
        }
    } else if s.steps()[k] is SnapshotIrqchip || s.steps()[k] is ReadInterruptState {
        assert forall|device: usize|
            device < inputs.virtio_bases@.len() implies #[trigger] done_before(
            s,
            CaptureStep::ReadTransport { device },
            k,
        ) by {
            let a = p + 3 * device + 2;
            assert(script[a] == quiet[3 * device + 2]);
            assert(quiet[3 * device + 2] == CaptureStep::ReadTransport { device });
            assert(done_before(s, script[a], k));
        }
    }
}

/// Every device was paused, serialized and recorded before the `k`-th step.
pub open spec fn all_devices_before<H: Host>(s: CaptureState<H>, k: int) -> bool {
    forall|device: usize|
        device < s.inputs.virtio_bases@.len() ==> #[trigger] done_before(
            s,
            CaptureStep::ReadTransport { device },
            k,
        )
}

/// What is looked for is dealt with right behind the look, in the history as in what is to
/// be done: the stage is removed if it is there, and made; the image is written; and the
/// snapshot that is there is set aside, or else the stage takes the place.
pub proof fn looks_have_consequences<H: Host>(s: CaptureState<H>, k: int)
    requires
        s.valid(),
        0 <= k < s.history.len(),
    ensures
        match (s.history[k].step, s.history[k].outcome) {
            (CaptureStep::LookForStage, Outcome::Found(there)) => there ==> k + 1 < s.steps().len()
                && s.steps()[k + 1] is RemoveStage,
            (CaptureStep::LookForPages, Outcome::Found(there)) => {
                &&& k + 1 < s.steps().len()
                &&& s.steps()[k + 1] == (CaptureStep::WriteImage {
                    source: if s.initial.base is Target && there {
                        ImageSource::Clone
                    } else if s.initial.base is Nothing && !there {
                        ImageSource::Sparse
                    } else {
                        ImageSource::Whole
                    },
                })
            },
            (CaptureStep::LookForTarget, Outcome::Found(there)) => {
                &&& k + 1 < s.steps().len()
                &&& s.steps()[k + 1] == if there {
                    CaptureStep::SetTargetAside
                } else {
                    CaptureStep::RenameStage { replacing: false }
                }
            },
            _ => true,
        },
{
    if let CaptureStep::LookForPages = s.history[k].step {
        tracking_laws::lemma_base_kept(s, k);
    }
    lemma_looks(s, k);
}

proof fn lemma_looks<H: Host>(s: CaptureState<H>, k: int)
    requires
        s.follows(),
        0 <= k < s.history.len(),
        s.history[k].step is LookForPages ==> s.backlog_at(k).base == s.initial.base,
    ensures
        match (s.history[k].step, s.history[k].outcome) {
            (CaptureStep::LookForStage, Outcome::Found(there)) => there ==> k + 1 < s.steps().len()
                && s.steps()[k + 1] is RemoveStage,
            (CaptureStep::LookForPages, Outcome::Found(there)) => {
                &&& k + 1 < s.steps().len()
                &&& s.steps()[k + 1] == (CaptureStep::WriteImage {
                    source: if s.initial.base is Target && there {
                        ImageSource::Clone
                    } else if s.initial.base is Nothing && !there {
                        ImageSource::Sparse
                    } else {
                        ImageSource::Whole
                    },
                })
            },
            (CaptureStep::LookForTarget, Outcome::Found(there)) => {
                &&& k + 1 < s.steps().len()
                &&& s.steps()[k + 1] == if there {
                    CaptureStep::SetTargetAside
                } else {
                    CaptureStep::RenameStage { replacing: false }
                }
            },
            _ => true,
        },
{
    if s.consequence(k).len() > 0 {
        assert(s.follows_at(k, 0));
    }
}

/// A snapshot that was set aside is replaced right then, and removed right behind that, as
/// long as this goes well.
pub proof fn set_aside_is_replaced_and_removed<H: Host>(s: CaptureState<H>, k: int)
    requires
        s.valid(),
        0 <= k < s.history.len(),
        s.history[k].step is LookForTarget,
        s.history[k].outcome == Outcome::<H>::Found(true),
    ensures
        k + 1 < s.history.len() && s.history[k + 1].outcome is Done ==> k + 2 < s.steps().len()
            && s.steps()[k + 2] == (CaptureStep::RenameStage { replacing: true }),
        k + 2 < s.history.len() && s.history[k + 1].outcome is Done && s.history[k
            + 2].outcome is Done ==> k + 3 < s.steps().len() && s.steps()[k + 3] is RemoveOld,
{
    lemma_replaced(s, k);
}

proof fn lemma_replaced<H: Host>(s: CaptureState<H>, k: int)
    requires
        s.follows(),
        0 <= k < s.history.len(),
        s.history[k].step is LookForTarget,
        s.history[k].outcome == Outcome::<H>::Found(true),
    ensures
        k + 1 < s.history.len() && s.history[k + 1].outcome is Done ==> k + 2 < s.steps().len()
            && s.steps()[k + 2] == (CaptureStep::RenameStage { replacing: true }),
        k + 2 < s.history.len() && s.history[k + 1].outcome is Done && s.history[k
            + 2].outcome is Done ==> k + 3 < s.steps().len() && s.steps()[k + 3] is RemoveOld,
{
    assert(s.follows_at(k, 1));
    assert(s.follows_at(k, 2));
    if k + 1 < s.history.len() && s.history[k + 1].outcome is Done {
        assert(!s.diverted(k + 1));
        if k + 2 < s.history.len() && s.history[k + 2].outcome is Done {
            assert(!s.diverted(k + 2));
        }
    }
}

/// A run reports success exactly if every step went well: none failed, and every answer was
/// the one awaited.
pub proof fn success_is_that_all_went_well<H: Host>(s: CaptureState<H>)
    requires
        s.valid(),
    ensures
        s.failure is None <==> forall|k: int|
            0 <= k < s.history.len() ==> !capture_step_laws::went_wrong(
                (#[trigger] s.history[k]).step,
                s.history[k].outcome,
            ),
{
    capture_laws::result_is_first_failure(s);
    assert forall|k: int| 0 <= k < s.history.len() implies (#[trigger] s.refused(k) is Some
        <==> capture_step_laws::went_wrong(s.history[k].step, s.history[k].outcome)) by {
        assert(capture::fits(s.history[k].step, s.history[k].outcome));
    }
    if s.failure is None {
        assert forall|k: int| 0 <= k < s.history.len() implies !capture_step_laws::went_wrong(
            (#[trigger] s.history[k]).step,
            s.history[k].outcome,
        ) by {
            assert(s.refused(k) is None);
        }
    } else {
        let k = choose|k: int|
            0 <= k < s.history.len() && #[trigger] s.refused(k) == s.failure && (forall|j: int|
                0 <= j < k ==> #[trigger] s.refused(j) is None);
        assert(s.refused(k) is Some);
        assert(capture_step_laws::went_wrong(s.history[k].step, s.history[k].outcome));
    }
}

/// A planned step of the script was done in a run that ends well.
proof fn lemma_all_done<H: Host>(s: CaptureState<H>, step: CaptureStep)
    requires
        s.valid(),
        s.finished(),
        s.failure is None,
        capture::plan_of(capture::task_script(s.task, s.inputs)).contains(step),
    ensures
        performed(s, step),
{
    assert forall|k: int| 0 <= k < s.history.len() implies !#[trigger] s.diverted(k) by {
        assert(s.refused(k) is None);
    }
    assert(capture::plan_of(s.steps()).contains(step));
    s.steps().lemma_filter_contains_rev(|x: CaptureStep| capture::planned(x), step);
    let k = s.steps().index_of(step);
    assert(s.history[k].step == step);
}

/// A capture that reports success has done all that a capture takes: it has paused every
/// vCPU and asked every handle to leave the guest; paused, serialized and recorded every
/// device; asked the interrupt controllers, the one that keeps a state of its own exactly if
/// there is one; made the stage, taken the written blocks, looked for an image, read the
/// counter, written the state file, looked for a snapshot and started the tracking.
pub proof fn successful_captures_have_taken_everything<H: Host>(s: CaptureState<H>)
    requires
        s.valid(),
        s.finished(),
        s.task is Capture,
        s.failure is None,
    ensures
        forall|v: usize|
            v < s.inputs.vcpu_count ==> #[trigger] performed(
                s,
                CaptureStep::Vcpu(VcpuStep::Send { vcpu: v, event: VcpuEvent::Pause }),
            ),
        forall|j: int|
            0 <= j < s.inputs.vcpu_ids@.len() ==> #[trigger] performed(
                s,
                CaptureStep::Vcpu(VcpuStep::RequestExit { vcpu_id: s.inputs.vcpu_ids@[j] }),
            ),
        forall|v: usize|
            v < s.inputs.vcpu_count ==> #[trigger] performed(
                s,
                CaptureStep::Vcpu(VcpuStep::Receive { vcpu: v, expected: Expected::Paused }),
            ),
        forall|device: usize|
            device < s.inputs.virtio_bases@.len() ==> #[trigger] performed(
                s,
                CaptureStep::PauseDevice { device },
            ),
        forall|device: usize|
            device < s.inputs.virtio_bases@.len() ==> #[trigger] performed(
                s,
                CaptureStep::SerializeDevice { device },
            ),
        forall|device: usize|
            device < s.inputs.virtio_bases@.len() ==> #[trigger] performed(
                s,
                CaptureStep::ReadTransport { device },
            ),
        forall|device: usize|
            device < s.inputs.virtio_bases@.len() ==> #[trigger] performed(
                s,
                CaptureStep::ResumeDevice { device },
            ),
        forall|v: usize|
            v < s.inputs.vcpu_count ==> #[trigger] performed(
                s,
                CaptureStep::Vcpu(VcpuStep::Send { vcpu: v, event: VcpuEvent::Resume }),
            ),
        forall|v: usize|
            v < s.inputs.vcpu_count ==> #[trigger] performed(
                s,
                CaptureStep::Vcpu(VcpuStep::Receive { vcpu: v, expected: Expected::Resumed }),
            ),
        s.inputs.has_irqchip <==> performed(s, CaptureStep::SnapshotIrqchip),
        performed(s, CaptureStep::ReadInterruptState),
        performed(s, CaptureStep::LookForStage),
        performed(s, CaptureStep::CreateStage),
        performed(s, CaptureStep::TakeDirtyBlocks),
        performed(s, CaptureStep::LookForPages),
        performed(s, CaptureStep::ReadClock),
        performed(s, CaptureStep::WriteContainer),
        performed(s, CaptureStep::LookForTarget),
        performed(s, CaptureStep::EnableTracking),
        !performed(s, CaptureStep::PutTargetBack),
        !performed(s, CaptureStep::DiscardStage),
{
    lemma_plan_done(s);
    lemma_vcpus_paused(s);
    lemma_devices_taken(s);
    lemma_rest_taken(s);
    lemma_irqchip_asked(s);
    lemma_resumed(s);
    lemma_nothing_undone(s);
}

/// All that is planned was done.
spec fn plan_is_done<H: Host>(s: CaptureState<H>) -> bool {
    forall|r: int|
        0 <= r < plan_end(Task::Capture, s.inputs) ==> #[trigger] performed(
            s,
            capture::task_script(Task::Capture, s.inputs)[r],
        )
}

proof fn lemma_plan_done<H: Host>(s: CaptureState<H>)
    requires
        s.valid(),
        s.finished(),
        s.task is Capture,
        s.failure is None,
    ensures
        plan_is_done(s),
{
    let script = capture::task_script(Task::Capture, s.inputs);
    let plan = capture::plan_of(script);
    lemma_plan(Task::Capture, s.inputs);
    assert forall|r: int|
        0 <= r < plan_end(Task::Capture, s.inputs) implies #[trigger] performed(s, script[r]) by {
        assert(plan[r] == script[r]);
        assert(plan.contains(script[r]));
        lemma_all_done(s, script[r]);
    }
}

proof fn lemma_vcpus_paused<H: Host>(s: CaptureState<H>)
    requires
        plan_is_done(s),
    ensures
        forall|v: usize|
            v < s.inputs.vcpu_count ==> #[trigger] performed(
                s,
                CaptureStep::Vcpu(VcpuStep::Send { vcpu: v, event: VcpuEvent::Pause }),
            ),
        forall|j: int|
            0 <= j < s.inputs.vcpu_ids@.len() ==> #[trigger] performed(
                s,
                CaptureStep::Vcpu(VcpuStep::RequestExit { vcpu_id: s.inputs.vcpu_ids@[j] }),
            ),
        forall|v: usize|
            v < s.inputs.vcpu_count ==> #[trigger] performed(
                s,
                CaptureStep::Vcpu(VcpuStep::Receive { vcpu: v, expected: Expected::Paused }),
            ),
{
    let inputs = s.inputs;
    let script = capture::task_script(Task::Capture, inputs);
    capture_laws::lemma_scripts(inputs);
    capture_laws::lemma_capture_script(inputs);
    let pause = capture::pause_script(inputs);
    let n = inputs.vcpu_count as int;
    let m = inputs.vcpu_ids@.len() as int;
    assert forall|v: usize| v < inputs.vcpu_count implies #[trigger] performed(
        s,
        CaptureStep::Vcpu(VcpuStep::Send { vcpu: v, event: VcpuEvent::Pause }),
    ) by {
        assert(script[v as int] == pause[v as int]);
        assert(performed(s, script[v as int]));
    }
    assert forall|j: int| 0 <= j < inputs.vcpu_ids@.len() implies #[trigger] performed(
        s,
        CaptureStep::Vcpu(VcpuStep::RequestExit { vcpu_id: inputs.vcpu_ids@[j] }),
    ) by {
        assert(script[n + j] == pause[n + j]);
        assert(performed(s, script[n + j]));
    }
    assert forall|v: usize| v < inputs.vcpu_count implies #[trigger] performed(
        s,
        CaptureStep::Vcpu(VcpuStep::Receive { vcpu: v, expected: Expected::Paused }),
    ) by {
        assert(script[n + m + v] == pause[n + m + v]);
        assert(performed(s, script[n + m + v]));
    }
}

proof fn lemma_devices_taken<H: Host>(s: CaptureState<H>)
    requires
        plan_is_done(s),
    ensures
        forall|device: usize|
            device < s.inputs.virtio_bases@.len() ==> #[trigger] performed(
                s,
                CaptureStep::PauseDevice { device },
            ),
        forall|device: usize|
            device < s.inputs.virtio_bases@.len() ==> #[trigger] performed(
                s,
                CaptureStep::SerializeDevice { device },
            ),
        forall|device: usize|
            device < s.inputs.virtio_bases@.len() ==> #[trigger] performed(
                s,
                CaptureStep::ReadTransport { device },
            ),
{
    let inputs = s.inputs;
    let script = capture::task_script(Task::Capture, inputs);
    capture_laws::lemma_scripts(inputs);
    capture_laws::lemma_capture_script(inputs);
    let quiet = capture::device_script(inputs);
    let p = capture::pause_script(inputs).len() as int;
    assert forall|device: usize| device < inputs.virtio_bases@.len() implies #[trigger] performed(
        s,
        CaptureStep::PauseDevice { device },
    ) by {
        assert(script[p + 3 * device] == quiet[3 * device]);
        assert(performed(s, script[p + 3 * device]));
    }
    assert forall|device: usize| device < inputs.virtio_bases@.len() implies #[trigger] performed(
        s,
        CaptureStep::SerializeDevice { device },
    ) by {
        assert(script[p + 3 * device + 1] == quiet[3 * device + 1]);
        assert(performed(s, script[p + 3 * device + 1]));
    }
    assert forall|device: usize| device < inputs.virtio_bases@.len() implies #[trigger] performed(
        s,
        CaptureStep::ReadTransport { device },
    ) by {
        assert(script[p + 3 * device + 2] == quiet[3 * device + 2]);
        assert(performed(s, script[p + 3 * device + 2]));
    }
}

proof fn lemma_rest_taken<H: Host>(s: CaptureState<H>)
    requires
        plan_is_done(s),
    ensures
        s.inputs.has_irqchip ==> performed(s, CaptureStep::SnapshotIrqchip),
        performed(s, CaptureStep::ReadInterruptState),
        performed(s, CaptureStep::LookForStage),
        performed(s, CaptureStep::CreateStage),
        performed(s, CaptureStep::TakeDirtyBlocks),
        performed(s, CaptureStep::LookForPages),
        performed(s, CaptureStep::ReadClock),
        performed(s, CaptureStep::WriteContainer),
        performed(s, CaptureStep::LookForTarget),
        performed(s, CaptureStep::EnableTracking),
{
    let inputs = s.inputs;
    let script = capture::task_script(Task::Capture, inputs);
    capture_laws::lemma_scripts(inputs);
    capture_laws::lemma_capture_script(inputs);
    let f = capture::pause_script(inputs).len() + capture::device_script(inputs).len();
    let x: int = if inputs.has_irqchip {
        1
    } else {
        0
    };
    assert(inputs.has_irqchip ==> performed(s, script[f as int]));
    assert(performed(s, script[f + x]));
    assert(performed(s, script[f + x + 1]));
    assert(performed(s, script[f + x + 2]));
    assert(performed(s, script[f + x + 3]));
    assert(performed(s, script[f + x + 4]));
    assert(performed(s, script[f + x + 5]));
    assert(performed(s, script[f + x + 6]));
    assert(performed(s, script[f + x + 7]));
    assert(performed(s, script[f + x + 8]));
}

proof fn lemma_irqchip_asked<H: Host>(s: CaptureState<H>)
    requires
        s.valid(),
        s.task is Capture,
    ensures
        performed(s, CaptureStep::SnapshotIrqchip) ==> s.inputs.has_irqchip,
{
    if performed(s, CaptureStep::SnapshotIrqchip) {
        let k = choose|k: int|
            0 <= k < s.history.len() && (#[trigger] s.history[k]).step
                == CaptureStep::SnapshotIrqchip;
        assert(s.steps()[k] == s.history[k].step);
        each_step_rests_on_those_before(s, k);
    }
}

proof fn lemma_resumed<H: Host>(s: CaptureState<H>)
    requires
        s.valid(),
        s.finished(),
        s.task is Capture,
        s.failure is None,
    ensures
        forall|device: usize|
            device < s.inputs.virtio_bases@.len() ==> #[trigger] performed(
                s,
                CaptureStep::ResumeDevice { device },
            ),
        forall|v: usize|
            v < s.inputs.vcpu_count ==> #[trigger] performed(
                s,
                CaptureStep::Vcpu(VcpuStep::Send { vcpu: v, event: VcpuEvent::Resume }),
            ),
        forall|v: usize|
            v < s.inputs.vcpu_count ==> #[trigger] performed(
                s,
                CaptureStep::Vcpu(VcpuStep::Receive { vcpu: v, expected: Expected::Resumed }),
            ),
{
    capture_laws::success_is_complete(s);
    let devices = capture::resume_device_script(s.inputs);
    let vcpus = capture::resume_script(s.inputs);
    let n = s.inputs.vcpu_count as int;
    assert forall|device: usize| device < s.inputs.virtio_bases@.len() implies #[trigger] performed(
        s,
        CaptureStep::ResumeDevice { device },
    ) by {
        assert(performed(s, devices[device as int]));
    }
    assert forall|v: usize| v < s.inputs.vcpu_count implies #[trigger] performed(
        s,
        CaptureStep::Vcpu(VcpuStep::Send { vcpu: v, event: VcpuEvent::Resume }),
    ) by {
        assert(performed(s, vcpus[v as int]));
    }
    assert forall|v: usize| v < s.inputs.vcpu_count implies #[trigger] performed(
        s,
        CaptureStep::Vcpu(VcpuStep::Receive { vcpu: v, expected: Expected::Resumed }),
    ) by {
        assert(performed(s, vcpus[n + v]));
    }
}

proof fn lemma_nothing_undone<H: Host>(s: CaptureState<H>)
    requires
        s.writes_all(),
        s.failure is None,
    ensures
        !performed(s, CaptureStep::PutTargetBack),
        !performed(s, CaptureStep::DiscardStage),
{
    assert forall|k: int| 0 <= k < s.history.len() implies capture::phase(
        (#[trigger] s.history[k]).step,
    ) != 10 by {
        assert(s.steps()[k] == s.history[k].step);
    }
}

/// What is recorded of the interrupt controller with a state of its own: what the last step
/// of that kind brought.
proof fn lemma_irqchip<H: Host>(inputs: CaptureInputs, history: Seq<Performed<H>>, k: int)
    requires
        forall|j: int|
            0 <= j < history.len() ==> capture::fits(
                (#[trigger] history[j]).step,
                history[j].outcome,
            ),
        0 <= k < history.len() ==> history[k].step is SnapshotIrqchip && history[k].outcome is Irqchip,
        forall|j: int|
            0 <= j < history.len() && j > k ==> !((#[trigger] history[j]).step is SnapshotIrqchip),
        k < history.len(),
        k >= -1,
    ensures
        capture::recorded_after(inputs, history).hvf_gic == if k < 0 {
            None
        } else {
            history[k].outcome->Irqchip_0
        },
    decreases history.len(),
{
    if history.len() > 0 && k < history.len() - 1 {
        let before = history.drop_last();
        assert forall|j: int| 0 <= j < before.len() implies #[trigger] before[j] == history[j] by {}
        lemma_irqchip(inputs, before, k);
        let last = history.len() - 1;
        assert(capture::fits(history[last].step, history[last].outcome));
        assert(!(history[last].step is SnapshotIrqchip));
    }
}

/// What is recorded of the other interrupt state: what the last step of that kind brought.
proof fn lemma_interrupts<H: Host>(inputs: CaptureInputs, history: Seq<Performed<H>>, k: int)
    requires
        forall|j: int|
            0 <= j < history.len() ==> capture::fits(
                (#[trigger] history[j]).step,
                history[j].outcome,
            ),
        0 <= k < history.len(),
        history[k].step is ReadInterruptState,
        forall|j: int|
            k < j < history.len() ==> !((#[trigger] history[j]).step is ReadInterruptState),
    ensures
        history[k].outcome matches Outcome::Interrupts { gic, vcpu_list } && {
            let recorded = capture::recorded_after(inputs, history);
            recorded.gic == gic && recorded.vcpu_list == Some(vcpu_list)
        },
    decreases history.len(),
{
    assert(capture::fits(history[k].step, history[k].outcome));
    if k < history.len() - 1 {
        let before = history.drop_last();
        assert forall|j: int| 0 <= j < before.len() implies #[trigger] before[j] == history[j] by {}
        lemma_interrupts(inputs, before, k);
        let last = history.len() - 1;
        assert(capture::fits(history[last].step, history[last].outcome));
        assert(!(history[last].step is ReadInterruptState));
    }
}

/// What is recorded of the memory image: what the last step of that kind brought.
proof fn lemma_image<H: Host>(inputs: CaptureInputs, history: Seq<Performed<H>>, k: int)
    requires
        forall|j: int|
            0 <= j < history.len() ==> capture::fits(
                (#[trigger] history[j]).step,
                history[j].outcome,
            ),
        0 <= k < history.len(),
        history[k].step is WriteImage,
        history[k].outcome is Image,
        forall|j: int| k < j < history.len() ==> !((#[trigger] history[j]).step is WriteImage),
    ensures
        capture::recorded_after(inputs, history).ram == Some(history[k].outcome->Image_0),
    decreases history.len(),
{
    if k < history.len() - 1 {
        let before = history.drop_last();
        assert forall|j: int| 0 <= j < before.len() implies #[trigger] before[j] == history[j] by {}
        lemma_image(inputs, before, k);
        let last = history.len() - 1;
        assert(capture::fits(history[last].step, history[last].outcome));
        assert(!(history[last].step is WriteImage));
    }
}

/// What is recorded of the counter: what it was read as last.
proof fn lemma_counter<H: Host>(inputs: CaptureInputs, history: Seq<Performed<H>>, k: int)
    requires
        forall|j: int|
            0 <= j < history.len() ==> capture::fits(
                (#[trigger] history[j]).step,
                history[j].outcome,
            ),
        0 <= k < history.len(),
        history[k].step is ReadClock,
        forall|j: int| k < j < history.len() ==> !((#[trigger] history[j]).step is ReadClock),
    ensures
        history[k].outcome == Outcome::<H>::Clock(
            capture::recorded_after(inputs, history).counter,
        ),
    decreases history.len(),
{
    assert(capture::fits(history[k].step, history[k].outcome));
    if k < history.len() - 1 {
        let before = history.drop_last();
        assert forall|j: int| 0 <= j < before.len() implies #[trigger] before[j] == history[j] by {}
        lemma_counter(inputs, before, k);
        let last = history.len() - 1;
        assert(capture::fits(history[last].step, history[last].outcome));
        assert(!(history[last].step is ReadClock));
    }
}

/// The one step of a kind that was done.
proof fn lemma_only<H: Host>(s: CaptureState<H>, k: int)
    requires
        s.valid(),
        0 <= k < s.history.len(),
    ensures
        s.history[k].step is SnapshotIrqchip ==> forall|j: int|
            0 <= j < s.history.len() && (#[trigger] s.history[j]).step is SnapshotIrqchip ==> j == k,
        s.history[k].step is ReadInterruptState ==> forall|j: int|
            0 <= j < s.history.len() && (#[trigger] s.history[j]).step is ReadInterruptState ==> j
                == k,
        s.history[k].step is WriteImage ==> forall|j: int|
            0 <= j < s.history.len() && (#[trigger] s.history[j]).step is WriteImage ==> j == k,
        s.history[k].step is ReadClock ==> forall|j: int|
            0 <= j < s.history.len() && (#[trigger] s.history[j]).step is ReadClock ==> j == k,
{
    assert forall|j: int| 0 <= j < s.history.len() && j != k implies !capture::same_work(
        (#[trigger] s.history[j]).step,
        s.history[k].step,
    ) && !capture::same_work(s.history[k].step, s.history[j].step) by {
        if j < k {
            capture_laws::nothing_is_done_twice(s, j, k);
        } else {
            capture_laws::nothing_is_done_twice(s, k, j);
        }
    }
}

/// When a capture is about to write its state file, it holds what this run was brought,
/// whatever else the machine has: of the interrupt controller with a state of its own,
/// exactly what asking it brought, and nothing if there is none; of the other interrupt
/// state what reading it brought; the layout of the image that was written; and what the
/// counter was read as.
pub proof fn state_file_holds_what_was_brought<H: Host>(s: CaptureState<H>)
    requires
        s.valid(),
        !s.finished(),
        s.task is Capture,
        s.pending[0] is WriteContainer,
    ensures
        s.inputs.has_irqchip ==> exists|k: int|
            0 <= k < s.history.len() && (#[trigger] s.history[k]).step
                == CaptureStep::SnapshotIrqchip && s.history[k].outcome == Outcome::<H>::Irqchip(
                s.recorded().hvf_gic,
            ),
        !s.inputs.has_irqchip ==> s.recorded().hvf_gic is None,
        exists|k: int|
            0 <= k < s.history.len() && (#[trigger] s.history[k]).step
                == CaptureStep::ReadInterruptState && (
            s.history[k].outcome matches Outcome::Interrupts { gic, vcpu_list } && s.recorded().gic
                == gic && s.recorded().vcpu_list == Some(vcpu_list)),
        exists|k: int|
            0 <= k < s.history.len() && (#[trigger] s.history[k]).step is WriteImage && (
            s.history[k].outcome matches Outcome::Image(layout) && s.recorded().ram == Some(layout)),
        exists|k: int|
            0 <= k < s.history.len() && (#[trigger] s.history[k]).step == CaptureStep::ReadClock
                && s.history[k].outcome == Outcome::<H>::Clock(s.recorded().counter),
{
    let d = s.history.len() as int;
    let inputs = s.inputs;
    let script = capture::task_script(Task::Capture, inputs);
    assert(s.steps()[d] == s.pending[0]);
    capture_laws::lemma_scripts(inputs);
    capture_laws::lemma_capture_script(inputs);
    lemma_plan(Task::Capture, inputs);
    let f = capture::pause_script(inputs).len() + capture::device_script(inputs).len();
    let x: int = if inputs.has_irqchip {
        1
    } else {
        0
    };
    let w = f + x + 6;
    lemma_brought_irqchip(s, f as int, w);
    lemma_before(s, d, f + x, w);
    lemma_done(s, CaptureStep::ReadInterruptState, d);
    let i = choose|i: int|
        #![trigger s.history[i]]
        0 <= i < d && i < s.history.len() && s.history[i].step == CaptureStep::ReadInterruptState
            && !capture_step_laws::went_wrong(CaptureStep::ReadInterruptState, s.history[i].outcome);
    lemma_only(s, i);
    lemma_interrupts(inputs, s.history, i);
    lemma_before(s, d, f + x + 5, w);
    lemma_done(s, CaptureStep::ReadClock, d);
    let c = choose|i: int|
        #![trigger s.history[i]]
        0 <= i < d && i < s.history.len() && s.history[i].step == CaptureStep::ReadClock
            && !capture_step_laws::went_wrong(CaptureStep::ReadClock, s.history[i].outcome);
    lemma_only(s, c);
    lemma_counter(inputs, s.history, c);
    lemma_before(s, d, f + x + 4, w);
    lemma_done(s, CaptureStep::LookForPages, d);
    lemma_brought_image(s);
}

proof fn lemma_brought_irqchip<H: Host>(s: CaptureState<H>, f: int, w: int)
    requires
        s.valid(),
        !s.finished(),
        s.task is Capture,
        s.pending[0] is WriteContainer,
        0 <= f < w < capture::task_script(Task::Capture, s.inputs).len(),
        capture::task_script(Task::Capture, s.inputs)[w] == CaptureStep::WriteContainer,
        s.inputs.has_irqchip ==> capture::task_script(Task::Capture, s.inputs)[f]
            == CaptureStep::SnapshotIrqchip,
    ensures
        s.inputs.has_irqchip ==> exists|k: int|
            0 <= k < s.history.len() && (#[trigger] s.history[k]).step
                == CaptureStep::SnapshotIrqchip && s.history[k].outcome == Outcome::<H>::Irqchip(
                s.recorded().hvf_gic,
            ),
        !s.inputs.has_irqchip ==> s.recorded().hvf_gic is None,
{
    let d = s.history.len() as int;
    assert(s.steps()[d] == s.pending[0]);
    if s.inputs.has_irqchip {
        lemma_before(s, d, f, w);
        lemma_done(s, CaptureStep::SnapshotIrqchip, d);
        let k = choose|i: int|
            #![trigger s.history[i]]
            0 <= i < d && i < s.history.len() && s.history[i].step == CaptureStep::SnapshotIrqchip
                && !capture_step_laws::went_wrong(
                CaptureStep::SnapshotIrqchip,
                s.history[i].outcome,
            );
        assert(capture::fits(s.history[k].step, s.history[k].outcome));
        lemma_only(s, k);
        lemma_irqchip(s.inputs, s.history, k);
        assert(s.history[k].outcome == Outcome::<H>::Irqchip(s.recorded().hvf_gic));
    } else {
        assert forall|j: int| 0 <= j < s.history.len() implies !((#[trigger] s.history[
        j]).step is SnapshotIrqchip) by {
            assert(s.steps()[j] == s.history[j].step);
            each_step_rests_on_those_before(s, j);
        }
        lemma_irqchip(s.inputs, s.history, -1);
    }
}

proof fn lemma_brought_image<H: Host>(s: CaptureState<H>)
    requires
        s.valid(),
        !s.finished(),
        s.pending[0] is WriteContainer,
        done_before(s, CaptureStep::LookForPages, s.history.len() as int),
    ensures
        exists|k: int|
            0 <= k < s.history.len() && (#[trigger] s.history[k]).step is WriteImage && (
            s.history[k].outcome matches Outcome::Image(layout) && s.recorded().ram == Some(layout)),
{
    let d = s.history.len() as int;
    assert(s.steps()[d] == s.pending[0]);
    let l = choose|i: int|
        #![trigger s.history[i]]
        0 <= i < d && i < s.history.len() && s.history[i].step == CaptureStep::LookForPages
            && !capture_step_laws::went_wrong(CaptureStep::LookForPages, s.history[i].outcome);
    assert(capture::fits(s.history[l].step, s.history[l].outcome));
    looks_have_consequences(s, l);
    let k = l + 1;
    assert(k < d) by {
        if k == d {
            assert(s.steps()[d] is WriteImage);
        }
    }
    assert(s.history[k].step == s.steps()[k]);
    assert(capture::fits(s.history[k].step, s.history[k].outcome));
    if s.diverted(k) {
        assert(capture::phase(s.steps()[d]) >= 10);
    }
    assert(s.refused(k) is None);
    lemma_only(s, k);
    lemma_image(s.inputs, s.history, k);
}

/// The state file has the section of the interrupt controller exactly if asking it brought a
/// state, with that state; that of the distributor exactly if reading brought one, with it;
/// and that of the pending interrupts always.
pub proof fn interrupt_sections_are_what_was_brought<H: Host>(
    s: CaptureState<H>,
    meta: &MetaSection,
    k: int,
)
    requires
        s.valid(),
        !s.finished(),
        s.task is Capture,
        s.pending[0] is WriteContainer,
        section_laws::countable(s.recorded()),
        0 <= k < s.history.len(),
    ensures
        ({
            let list = sections::section_list(meta, s.recorded());
            match s.history[k].outcome {
                Outcome::Irqchip(state) => section_laws::lookup(list, SectionId::HvfGic, 0)
                    == match state {
                    Some(bytes) => Some(
                        Payload::<H::Distributor, H::Pending, H::Transport, H::Device>::Raw(&bytes),
                    ),
                    None => None,
                },
                Outcome::Interrupts { gic, vcpu_list } => {
                    &&& section_laws::lookup(list, SectionId::GicDist, 0) == match gic {
                        Some(state) => Some(
                            Payload::<
                                H::Distributor,
                                H::Pending,
                                H::Transport,
                                H::Device,
                            >::Distributor(&state),
                        ),
                        None => None,
                    }
                    &&& section_laws::lookup(list, SectionId::GicVcpu, 0) == Some(
                        Payload::<H::Distributor, H::Pending, H::Transport, H::Device>::Pending(
                            &vcpu_list,
                        ),
                    )
                },
                _ => true,
            }
        }),
{
    section_laws::sections_read_back(meta, s.recorded());
    assert(capture::fits(s.history[k].step, s.history[k].outcome));
    lemma_only(s, k);
    if let Outcome::Irqchip(state) = s.history[k].outcome {
        lemma_irqchip(s.inputs, s.history, k);
    }
    if let Outcome::Interrupts { .. } = s.history[k].outcome {
        lemma_interrupts(s.inputs, s.history, k);
    }
}

/// What is recorded of a vCPU is what it answered to `Pause`.
pub proof fn registers_name_their_source<H: Host>(s: CaptureState<H>, vcpu: int)
    requires
        s.valid(),
        !s.finished(),
        s.pending[0] is WriteContainer,
        0 <= vcpu < s.inputs.vcpu_count,
    ensures
        s.recorded().vcpu_states.len() == s.inputs.vcpu_count,
        was_reported(s, vcpu, s.recorded().vcpu_states[vcpu]),
{
    capture_laws::captured_while_frozen(s);
    let state = s.recorded().vcpu_states[vcpu];
    let k = s.inputs.vcpu_count + s.inputs.vcpu_ids@.len() + vcpu;
    lemma_reported(s, vcpu, state, k);
}

proof fn lemma_reported<H: Host>(s: CaptureState<H>, vcpu: int, state: Vec<u8>, k: int)
    requires
        0 <= k < s.history.len(),
        s.history[k].step == CaptureStep::Vcpu(
            VcpuStep::Receive { vcpu: vcpu as usize, expected: Expected::Paused },
        ),
        s.history[k].outcome == Outcome::<H>::Reply(Ok(VcpuResponse::Paused(state))),
    ensures
        was_reported(s, vcpu, state),
{
}

/// What is recorded of a device is its base address, with what serializing it and reading
/// its transport brought.
pub proof fn sections_name_their_sources<H: Host>(s: CaptureState<H>, i: int)
    requires
        s.valid(),
        !s.finished(),
        s.task is Capture,
        s.pending[0] is WriteContainer,
        0 <= i < s.inputs.virtio_bases@.len(),
    ensures
        s.recorded().virtio.len() == s.inputs.virtio_bases@.len(),
        s.recorded().virtio[i].mmio_base == s.inputs.virtio_bases@[i],
        was_serialized(s, i),
        was_read(s, i),
{
    capture_laws::sections_are_what_devices_gave(s);
    capture_laws::lemma_quiet(s);
    assert(s.keeps_device(i));
    lemma_device_sources(s, i);
}

proof fn lemma_device_sources<H: Host>(s: CaptureState<H>, i: int)
    requires
        s.starts_with(capture::pause_script(s.inputs) + capture::device_script(s.inputs)),
        s.history.len() >= (capture::pause_script(s.inputs) + capture::device_script(
            s.inputs,
        )).len(),
        0 <= i < s.inputs.virtio_bases@.len(),
        s.keeps_device(i),
    ensures
        was_serialized(s, i),
        was_read(s, i),
{
    capture_laws::lemma_scripts(s.inputs);
    let pause = capture::pause_script(s.inputs);
    let quiet = capture::device_script(s.inputs);
    let script = pause + quiet;
    let at = pause.len() + 3 * i;
    assert(script[at + 1] == quiet[3 * i + 1]);
    assert(script[at + 2] == quiet[3 * i + 2]);
    assert(s.steps()[at + 1] == script[at + 1]);
    assert(s.steps()[at + 2] == script[at + 2]);
    assert(s.history[at + 1].step == CaptureStep::SerializeDevice { device: i as usize });
    assert(s.history[at + 2].step == CaptureStep::ReadTransport { device: i as usize });
}

/// The vCPU answered `Pause` with this state.
pub open spec fn was_reported<H: Host>(s: CaptureState<H>, vcpu: int, state: Vec<u8>) -> bool {
    exists|k: int|
        0 <= k < s.history.len() && (#[trigger] s.history[k]).step == CaptureStep::Vcpu(
            VcpuStep::Receive { vcpu: vcpu as usize, expected: Expected::Paused },
        ) && s.history[k].outcome == Outcome::<H>::Reply(Ok(VcpuResponse::Paused(state)))
}

/// Serializing the `i`-th device brought the state that its section holds.
pub open spec fn was_serialized<H: Host>(s: CaptureState<H>, i: int) -> bool {
    exists|k: int|
        0 <= k < s.history.len() && (#[trigger] s.history[k]).step
            == (CaptureStep::SerializeDevice { device: i as usize }) && (
        s.recorded().virtio[i].device matches Some(state) && s.history[k].outcome == Outcome::<
            H,
        >::Serialized(state))
}

/// Reading the transport of the `i`-th device brought what its section holds.
pub open spec fn was_read<H: Host>(s: CaptureState<H>, i: int) -> bool {
    exists|k: int|
        0 <= k < s.history.len() && (#[trigger] s.history[k]).step == (CaptureStep::ReadTransport {
            device: i as usize,
        }) && s.history[k].outcome == Outcome::<H>::Transport {
            device_type: s.recorded().virtio[i].device_type,
            state: s.recorded().virtio[i].transport,
        }
}

/// Once a run does anything but the exchange with the vCPUs, every device of a capture is
/// told to run on before it ends.
pub proof fn touched_machines_are_resumed<H: Host>(s: CaptureState<H>, k: int, device: usize)
    requires
        s.valid(),
        s.finished(),
        s.task is Capture,
        0 <= k < s.history.len(),
        !(s.history[k].step is Vcpu),
        device < s.inputs.virtio_bases@.len(),
    ensures
        performed(s, CaptureStep::ResumeDevice { device }),
{
    assert(3 <= capture::phase(s.history[k].step) <= 11);
    capture_laws::devices_are_resumed(s, device as int);
}

/// The stage is discarded only after it was made.
pub proof fn only_a_stage_that_was_made_is_discarded<H: Host>(s: CaptureState<H>, k: int)
    requires
        s.valid(),
        s.task is Capture,
        0 < k <= s.history.len(),
        k < s.steps().len(),
        s.steps()[k - 1] is TakeDirtyBlocks || s.steps()[k - 1] is WriteContainer || s.steps()[k
            - 1] is EnableTracking,
        s.steps()[k] is DiscardStage,
    ensures
        exists|i: int|
            0 <= i < k && (#[trigger] s.history[i]).step == CaptureStep::CreateStage
                && s.history[i].outcome is Done,
{
    let inputs = s.inputs;
    let script = capture::task_script(Task::Capture, inputs);
    capture_laws::lemma_scripts(inputs);
    capture_laws::lemma_capture_script(inputs);
    let f = capture::pause_script(inputs).len() + capture::device_script(inputs).len();
    let x: int = if inputs.has_irqchip {
        1
    } else {
        0
    };
    let b = if s.steps()[k - 1] is TakeDirtyBlocks {
        f + x + 3
    } else if s.steps()[k - 1] is WriteContainer {
        f + x + 6
    } else {
        f + x + 8
    };
    assert(s.steps()[k - 1] == script[b]);
    lemma_before(s, k - 1, f + x + 2, b);
    lemma_done(s, CaptureStep::CreateStage, k - 1);
    let i = choose|i: int|
        #![trigger s.history[i]]
        0 <= i < k - 1 && i < s.history.len() && s.history[i].step == CaptureStep::CreateStage
            && !capture_step_laws::went_wrong(CaptureStep::CreateStage, s.history[i].outcome);
    assert(capture::fits(s.history[i].step, s.history[i].outcome));
}

} // verus!
