//! What every capture keeps to, whatever its steps come to.
use crate::capture;
use crate::capture::{CaptureState, CaptureStep, Outcome, Performed, Task};
use crate::host::Host;
use crate::inputs::CaptureInputs;
use crate::tracking::{BacklogView, Base};
use crate::vcpu::{Expected, VcpuEvent, VcpuResponse, VcpuStep};
use vstd::prelude::*;

verus! {

pub(crate) proof fn lemma_scripts(inputs: CaptureInputs)
    ensures
        capture::pause_script(inputs).len() == 2 * inputs.vcpu_count + inputs.vcpu_ids@.len(),
        capture::resume_script(inputs).len() == 2 * inputs.vcpu_count,
        capture::device_script(inputs).len() == 3 * inputs.virtio_bases@.len(),
        capture::resume_device_script(inputs).len() == inputs.virtio_bases@.len(),
        forall|k: int|
            0 <= k < capture::pause_script(inputs).len() ==> 0 <= capture::phase(
                #[trigger] capture::pause_script(inputs)[k],
            ) <= 2,
        forall|k: int|
            0 <= k < capture::resume_script(inputs).len() ==> 12 <= capture::phase(
                #[trigger] capture::resume_script(inputs)[k],
            ) <= 13,
        forall|k: int|
            0 <= k < capture::device_script(inputs).len() ==> capture::phase(
                #[trigger] capture::device_script(inputs)[k],
            ) == 3,
        forall|k: int|
            0 <= k < capture::resume_device_script(inputs).len() ==> capture::phase(
                #[trigger] capture::resume_device_script(inputs)[k],
            ) == 11,
        forall|i: int, j: int|
            0 <= i < j < capture::pause_script(inputs).len() ==> capture::phase(
                #[trigger] capture::pause_script(inputs)[i],
            ) <= capture::phase(#[trigger] capture::pause_script(inputs)[j]),
        forall|i: int, j: int|
            0 <= i < j < capture::resume_script(inputs).len() ==> capture::phase(
                #[trigger] capture::resume_script(inputs)[i],
            ) <= capture::phase(#[trigger] capture::resume_script(inputs)[j]),
{
}

/// How the steps of a capture change when one more is done.
proof fn lemma_accept<H: Host>(s: CaptureState<H>, outcome: Outcome<H>)
    requires
        s.pending.len() > 0,
    ensures
        ({
            let t = s.accept(outcome);
            let d = s.history.len() as int;
            let step = s.pending[0];
            let diverts = capture::diverts(s.inputs, step, outcome);
            let more = if diverts {
                capture::recovery(s.task, s.inputs, step)
            } else {
                capture::follow_up(s.backlog().base, step, outcome)
            };
            &&& t.history.len() == d + 1
            &&& s.steps()[d] == step
            &&& t.refused(d) == capture::refusal(s.inputs, step, outcome)
            &&& t.diverted(d) == diverts
            &&& forall|k: int| 0 <= k < d ==> #[trigger] t.history[k] == s.history[k]
            &&& forall|k: int| 0 <= k < d ==> #[trigger] t.refused(k) == s.refused(k)
            &&& forall|k: int| 0 <= k < d ==> #[trigger] t.diverted(k) == s.diverted(k)
            &&& forall|k: int| 0 <= k <= d ==> #[trigger] t.steps()[k] == s.steps()[k]
            &&& forall|k: int|
                d < k <= d + more.len() ==> #[trigger] t.steps()[k] == more[k - d - 1]
            &&& !diverts ==> {
                &&& t.steps().len() == s.steps().len() + more.len()
                &&& forall|k: int|
                    d + more.len() < k < t.steps().len() ==> #[trigger] t.steps()[k]
                        == s.steps()[k - more.len()]
            }
            &&& diverts ==> t.steps().len() == d + 1 + more.len()
        }),
{
}

/// What follows a step at once is of the same phase; what is left after the end of
/// what was planned is of a later one, or else tells more vCPUs to run on.
proof fn lemma_more<H: Host>(
    task: Task,
    inputs: CaptureInputs,
    base: Base,
    step: CaptureStep,
    outcome: Outcome<H>,
)
    ensures
        ({
            let more = capture::follow_up(base, step, outcome);
            &&& forall|k: int|
                0 <= k < more.len() ==> capture::phase(#[trigger] more[k]) == capture::phase(step)
            &&& more.len() > 0 ==> 5 <= capture::phase(step) <= 8
        }),
        capture::refusal(inputs, step, outcome) is Some ==> capture::follow_up(
            base,
            step,
            outcome,
        ).len() == 0,
        capture::diverts(inputs, step, outcome) && capture::fits(step, outcome) ==> {
            let more = capture::recovery(task, inputs, step);
            &&& capture::phase(step) <= 10 || capture::phase(step) >= 12
            &&& !(step is DiscardStage)
            &&& forall|k: int| 0 <= k < more.len() ==> 10 <= capture::phase(#[trigger] more[k])
            &&& forall|k: int|
                0 <= k < more.len() ==> capture::phase(step) <= capture::phase(#[trigger] more[k])
            &&& capture::phase(step) <= 10 ==> forall|k: int|
                0 <= k < more.len() ==> capture::phase(step) < capture::phase(#[trigger] more[k])
            &&& forall|i: int, j: int|
                0 <= i < j < more.len() ==> capture::phase(#[trigger] more[i]) <= capture::phase(
                    #[trigger] more[j],
                )
        },
{
    lemma_scripts(inputs);
}

/// What is left to be done tells only vCPUs that are there.
proof fn lemma_recovery_indexed(task: Task, inputs: CaptureInputs, step: CaptureStep, k: int)
    requires
        0 <= k < capture::recovery(task, inputs, step).len(),
    ensures
        capture::recovery(task, inputs, step)[k] matches CaptureStep::Vcpu(
            VcpuStep::Send { vcpu, event },
        ) ==> vcpu < inputs.vcpu_count && event is Resume,
{
    let more = capture::recovery(task, inputs, step);
    let vcpus = capture::resume_script(inputs);
    if capture::phase(step) < 12 {
        lemma_recovery(task, inputs, step);
        let v = more.len() - vcpus.len();
        if k >= v {
            assert(more[v + (k - v)] == vcpus[k - v]);
            lemma_resume_indexed(inputs, k - v);
        } else {
            lemma_recovery_tail(task, inputs, step, k);
        }
    } else if let CaptureStep::Vcpu(VcpuStep::Send { vcpu, .. }) = step {
        if task is Capture {
            assert(more == capture::later_resumes(inputs, vcpu + 1));
        }
    }
}

/// The vCPUs that are told to run on are there.
proof fn lemma_resume_indexed(inputs: CaptureInputs, k: int)
    requires
        0 <= k < capture::resume_script(inputs).len(),
    ensures
        capture::resume_script(inputs)[k] matches CaptureStep::Vcpu(
            VcpuStep::Send { vcpu, event },
        ) ==> vcpu < inputs.vcpu_count && event is Resume,
{
}

/// What is left to be done before the vCPUs are told to run on does not involve them.
proof fn lemma_recovery_tail(task: Task, inputs: CaptureInputs, step: CaptureStep, k: int)
    requires
        capture::phase(step) < 12,
        0 <= k < capture::recovery(task, inputs, step).len() - capture::resume_script(inputs).len(),
    ensures
        ({
            let more = capture::recovery(task, inputs, step);
            &&& !(more[k] is Vcpu)
            &&& more[k] is PutTargetBack ==> k == 0 && step == (CaptureStep::RenameStage {
                replacing: true,
            })
        }),
{
    lemma_scripts(inputs);
}

proof fn lemma_accept_indexed<H: Host>(s: CaptureState<H>, outcome: Outcome<H>)
    requires
        s.pending.len() > 0,
        capture::fits(s.pending[0], outcome),
        s.indexed(),
    ensures
        s.accept(outcome).indexed(),
{
    let t = s.accept(outcome);
    let step = s.pending[0];
    lemma_more(s.task, s.inputs, s.backlog().base, step, outcome);
    let more = capture::follow_up(s.backlog().base, step, outcome);
    lemma_scripts(s.inputs);
    assert forall|k: int| 0 <= k < t.pending.len() implies capture::step_indexed(
        t.inputs,
        #[trigger] t.pending[k],
    ) by {
        if capture::diverts(s.inputs, step, outcome) {
            assert(capture::phase(t.pending[k]) >= 10);
            lemma_recovery_indexed(s.task, s.inputs, step, k);
        } else if k < more.len() {
            assert(t.pending[k] == more[k]);
            assert(capture::phase(t.pending[k]) >= 5);
        } else {
            assert(t.pending[k] == s.pending[k - more.len() + 1]);
        }
    }
}

proof fn lemma_accept_ordered<H: Host>(s: CaptureState<H>, outcome: Outcome<H>)
    requires
        s.pending.len() > 0,
        capture::fits(s.pending[0], outcome),
        s.ordered(),
    ensures
        s.accept(outcome).ordered(),
{
    let t = s.accept(outcome);
    let d = s.history.len() as int;
    lemma_accept(s, outcome);
    lemma_more(s.task, s.inputs, s.backlog().base, s.pending[0], outcome);
    assert forall|k: int| 0 <= k < t.history.len() implies capture::fits(
        (#[trigger] t.history[k]).step,
        t.history[k].outcome,
    ) by {
        if k < d {
            assert(t.history[k] == s.history[k]);
        }
    }
    assert forall|i: int, j: int| 0 <= i < j < t.steps().len() implies capture::phase(
        #[trigger] t.steps()[i],
    ) <= capture::phase(#[trigger] t.steps()[j]) by {
        let head = s.steps()[d];
        if !capture::diverts(s.inputs, s.pending[0], outcome) {
            let n = capture::follow_up(s.backlog().base, s.pending[0], outcome).len();
            let from = |k: int|
                if k <= d {
                    k
                } else if k <= d + n {
                    d
                } else {
                    k - n
                };
            assert(capture::phase(t.steps()[i]) == capture::phase(s.steps()[from(i)]));
            assert(capture::phase(t.steps()[j]) == capture::phase(s.steps()[from(j)]));
        } else {
            if i <= d {
                assert(capture::phase(s.steps()[i]) <= capture::phase(head));
            }
            if j <= d {
                assert(capture::phase(s.steps()[i]) <= capture::phase(s.steps()[j]));
            }
        }
    }
}

proof fn lemma_accept_failure<H: Host>(s: CaptureState<H>, outcome: Outcome<H>)
    requires
        s.pending.len() > 0,
        capture::fits(s.pending[0], outcome),
        s.reports_first_failure(),
        s.winds_down(),
    ensures
        s.accept(outcome).reports_first_failure(),
        s.accept(outcome).winds_down(),
{
    let t = s.accept(outcome);
    let d = s.history.len() as int;
    lemma_accept(s, outcome);
    lemma_more(s.task, s.inputs, s.backlog().base, s.pending[0], outcome);
    let refused = capture::refusal(s.inputs, s.pending[0], outcome);
    match s.failure {
        None => {
            assert forall|k: int| 0 <= k < d implies #[trigger] t.refused(k) is None by {
                assert(s.refused(k) is None);
            }
            assert(t.refused(d) == refused);
        },
        Some(failure) => {
            let k = choose|k: int|
                0 <= k < s.history.len() && #[trigger] s.refused(k) == Some(failure) && (forall|
                    j: int,
                |
                    0 <= j < k ==> #[trigger] s.refused(j) is None);
            assert(t.refused(k) == Some(failure));
            assert forall|j: int| 0 <= j < k implies #[trigger] t.refused(j) is None by {
                assert(s.refused(j) is None);
            }
        },
    }
    assert forall|k: int, j: int|
        0 <= k < t.history.len() && #[trigger] t.diverted(k) && k < j < t.steps().len() implies {
        &&& capture::phase(#[trigger] t.steps()[j]) >= 10
        &&& t.history[k].step is PutTargetBack ==> capture::phase(t.steps()[j]) >= 11
    } by {
        let more = capture::follow_up(s.backlog().base, s.pending[0], outcome).len() as int;
        if k < d {
            assert(t.history[k] == s.history[k]);
            assert(s.diverted(k));
            assert(capture::phase(s.steps()[d]) >= 10);
            if j <= d {
                assert(capture::phase(s.steps()[j]) >= 10);
            } else if !capture::diverts(s.inputs, s.pending[0], outcome) {
                assert(more == 0);
                assert(capture::phase(s.steps()[j]) >= 10);
            }
        }
    }
}

/// A prefix of the run stays one, as long as the step just done is not a refused
/// step of that prefix.
proof fn lemma_accept_starts<H: Host>(s: CaptureState<H>, outcome: Outcome<H>, script: Seq<CaptureStep>)
    requires
        s.pending.len() > 0,
        s.starts_with(script),
        forall|k: int| 0 <= k < script.len() ==> capture::phase(#[trigger] script[k]) <= 3,
        s.history.len() < script.len() ==> capture::refusal(
            s.inputs,
            s.pending[0],
            outcome,
        ) is None,
    ensures
        s.accept(outcome).starts_with(script),
{
    let t = s.accept(outcome);
    let d = s.history.len() as int;
    lemma_accept(s, outcome);
    lemma_more(s.task, s.inputs, s.backlog().base, s.pending[0], outcome);
    if d < script.len() {
        assert(s.steps()[d] == script[d]);
        assert(capture::follow_up(s.backlog().base, s.pending[0], outcome).len() == 0);
    }
    assert forall|k: int| 0 <= k < script.len() implies #[trigger] t.steps()[k] == script[k] by {
        assert(s.steps()[k] == script[k]);
    }
    assert forall|k: int| 0 <= k < script.len() && k < t.history.len() implies #[trigger] t.refused(
        k,
    ) is None by {
        if k < d {
            assert(s.refused(k) is None);
        }
    }
}

/// A run that is not to reach the phases from `low` on up to `high`, and has not,
/// does not come to do so.
proof fn lemma_accept_reaches<H: Host>(s: CaptureState<H>, outcome: Outcome<H>, low: int, high: int)
    requires
        s.pending.len() > 0,
        !capture::diverts(s.inputs, s.pending[0], outcome),
        s.accept(outcome).reaches(low, high),
    ensures
        s.reaches(low, high),
{
    let t = s.accept(outcome);
    let d = s.history.len() as int;
    lemma_accept(s, outcome);
    lemma_more(s.task, s.inputs, s.backlog().base, s.pending[0], outcome);
    let n = capture::follow_up(s.backlog().base, s.pending[0], outcome).len() as int;
    let k = choose|k: int|
        0 <= k < t.steps().len() && low <= capture::phase(#[trigger] t.steps()[k]) <= high;
    let from = if k <= d {
        k
    } else if k <= d + n {
        d
    } else {
        k - n
    };
    assert(low <= capture::phase(s.steps()[from]) <= high);
}

/// What the run starts with, if it is to reach these phases.
proof fn lemma_accept_prefix<H: Host>(
    s: CaptureState<H>,
    outcome: Outcome<H>,
    script: Seq<CaptureStep>,
    low: int,
    high: int,
)
    requires
        s.pending.len() > 0,
        capture::fits(s.pending[0], outcome),
        s.ordered(),
        s.failure is None || s.reaches(low, high) ==> s.starts_with(script),
        3 <= low <= 4,
        10 <= high <= 11,
        forall|k: int| 0 <= k < script.len() ==> capture::phase(#[trigger] script[k]) < low,
        s.accept(outcome).failure is None || s.accept(outcome).reaches(low, high),
        capture::diverts(s.inputs, s.pending[0], outcome) && capture::phase(s.pending[0]) < low
            ==> forall|k: int|
            0 <= k < capture::recovery(s.task, s.inputs, s.pending[0]).len() ==> capture::phase(
                #[trigger] capture::recovery(s.task, s.inputs, s.pending[0])[k],
            ) > high,
    ensures
        s.accept(outcome).starts_with(script),
{
    let t = s.accept(outcome);
    let d = s.history.len() as int;
    let step = s.pending[0];
    lemma_accept(s, outcome);
    lemma_more(s.task, s.inputs, s.backlog().base, step, outcome);
    let rank = capture::phase(step);
    assert(s.steps()[d] == step);
    if !capture::diverts(s.inputs, step, outcome) {
        if s.failure is Some {
            lemma_accept_reaches(s, outcome, low, high);
        }
        if d < script.len() {
            assert(s.steps()[d] == script[d]);
        }
        lemma_accept_starts(s, outcome, script);
    } else {
        let k = choose|k: int|
            0 <= k < t.steps().len() && low <= capture::phase(#[trigger] t.steps()[k]) <= high;
        if rank < low {
            if k <= d {
                assert(capture::phase(s.steps()[k]) <= rank);
            }
            assert(false);
        }
        assert(s.reaches(low, high)) by {
            if rank <= high {
                assert(low <= capture::phase(s.steps()[d]) <= high);
            } else {
                assert(k <= d);
                assert(low <= capture::phase(s.steps()[k]) <= high);
            }
        }
        assert(d >= script.len()) by {
            if d < script.len() {
                assert(s.steps()[d] == script[d]);
            }
        }
        lemma_accept_starts(s, outcome, script);
    }
}

proof fn lemma_accept_pauses<H: Host>(s: CaptureState<H>, outcome: Outcome<H>)
    requires
        s.pending.len() > 0,
        capture::fits(s.pending[0], outcome),
        s.ordered(),
        s.pauses_first(),
        s.quiesces_first(),
    ensures
        s.accept(outcome).pauses_first(),
        s.accept(outcome).quiesces_first(),
{
    let t = s.accept(outcome);
    lemma_scripts(s.inputs);
    let pause = capture::pause_script(s.inputs);
    let quiet = pause + capture::device_script(s.inputs);
    if t.failure is None || t.reaches(3, 11) {
        lemma_accept_prefix(s, outcome, pause, 3, 11);
    }
    if s.task is Capture && (t.failure is None || t.reaches(4, 10)) {
        lemma_accept_prefix(s, outcome, quiet, 4, 10);
    }
}

/// A prefix of the run after a step was one before.
proof fn lemma_started<H: Host>(s: CaptureState<H>, outcome: Outcome<H>, script: Seq<CaptureStep>)
    requires
        s.pending.len() > 0,
        s.accept(outcome).starts_with(script),
        forall|k: int| 0 <= k < script.len() ==> capture::phase(#[trigger] script[k]) <= 3,
    ensures
        s.starts_with(script),
{
    let t = s.accept(outcome);
    let d = s.history.len() as int;
    lemma_accept(s, outcome);
    lemma_more(s.task, s.inputs, s.backlog().base, s.pending[0], outcome);
    if d < script.len() {
        assert(t.steps()[d] == script[d]);
        assert(t.refused(d) is None);
        assert(t.steps().len() == s.steps().len());
    }
    assert forall|k: int| 0 <= k < script.len() implies #[trigger] s.steps()[k] == script[k] by {
        assert(t.steps()[k] == script[k]);
    }
    assert forall|k: int| 0 <= k < script.len() && k < d implies #[trigger] s.refused(k) is None by {
        assert(t.refused(k) is None);
    }
}

/// What is recorded after one more step.
pub(crate) proof fn lemma_record<H: Host>(s: CaptureState<H>, outcome: Outcome<H>)
    requires
        s.pending.len() > 0,
    ensures
        s.accept(outcome).recorded() == capture::record::<H>(
            s.inputs,
            s.recorded(),
            s.pending[0],
            outcome,
        ),
        s.accept(outcome).backlog() == capture::track::<H>(s.backlog(), s.pending[0], outcome),
{
    let history = s.history.push(Performed { step: s.pending[0], outcome });
    assert(history.drop_last() =~= s.history);
}

proof fn lemma_accept_states<H: Host>(s: CaptureState<H>, outcome: Outcome<H>)
    requires
        s.pending.len() > 0,
        capture::fits(s.pending[0], outcome),
        s.keeps_states(),
    ensures
        s.accept(outcome).keeps_states(),
{
    let t = s.accept(outcome);
    let d = s.history.len() as int;
    lemma_accept(s, outcome);
    lemma_record(s, outcome);
    lemma_scripts(s.inputs);
    let pause = capture::pause_script(s.inputs);
    let n = s.inputs.vcpu_count as int;
    let before = n + s.inputs.vcpu_ids@.len();
    if t.starts_with(pause) {
        lemma_started(s, outcome, pause);
        if d < pause.len() {
            assert(s.steps()[d] == pause[d]);
            assert(t.refused(d) is None);
            if before <= d {
                assert(s.pending[0] == CaptureStep::Vcpu(
                    VcpuStep::Receive { vcpu: (d - before) as usize, expected: Expected::Paused },
                ));
            }
        } else {
            assert(capture::phase(s.steps()[d]) >= 3);
        }
        lemma_more(s.task, s.inputs, s.backlog().base, s.pending[0], outcome);
        let more = capture::follow_up(s.backlog().base, s.pending[0], outcome).len() as int;
        assert forall|k: int| pause.len() <= k < t.steps().len() implies capture::phase(
            #[trigger] t.steps()[k],
        ) >= 3 by {
            if k <= d {
                assert(capture::phase(s.steps()[k]) >= 3);
            } else if !t.diverted(d) && k > d + more {
                assert(capture::phase(s.steps()[k - more]) >= 3);
            }
        }
        let states = t.recorded().vcpu_states;
        assert forall|i: int| 0 <= i < states.len() implies t.history[before + i].outcome
            == Outcome::<H>::Reply(Ok(VcpuResponse::Paused(#[trigger] states[i]))) by {
            if i < s.recorded().vcpu_states.len() {
                assert(states[i] == s.recorded().vcpu_states[i]);
            }
        }
    }
}

proof fn lemma_accept_devices<H: Host>(s: CaptureState<H>, outcome: Outcome<H>)
    requires
        s.pending.len() > 0,
        capture::fits(s.pending[0], outcome),
        s.keeps_devices(),
    ensures
        s.accept(outcome).keeps_devices(),
{
    let t = s.accept(outcome);
    let d = s.history.len() as int;
    lemma_accept(s, outcome);
    lemma_record(s, outcome);
    lemma_scripts(s.inputs);
    let pause = capture::pause_script(s.inputs);
    let quiet = capture::device_script(s.inputs);
    let script = pause + quiet;
    let p = pause.len() as int;
    if s.task is Capture && t.starts_with(script) {
        lemma_started(s, outcome, script);
        lemma_more(s.task, s.inputs, s.backlog().base, s.pending[0], outcome);
        let more = capture::follow_up(s.backlog().base, s.pending[0], outcome).len() as int;
        if d < script.len() {
            assert(s.steps()[d] == script[d]);
            assert(t.refused(d) is None);
            if d >= p {
                assert(script[d] == quiet[d - p]);
            } else {
                assert(script[d] == pause[d]);
            }
        } else {
            assert(capture::phase(s.steps()[d]) >= 4);
        }
        assert forall|k: int| script.len() <= k < t.steps().len() implies capture::phase(
            #[trigger] t.steps()[k],
        ) >= 4 by {
            if k <= d {
                assert(capture::phase(s.steps()[k]) >= 4);
            } else if !t.diverted(d) && k > d + more {
                assert(capture::phase(s.steps()[k - more]) >= 4);
            }
        }
        assert forall|i: int| 0 <= i < t.recorded().virtio.len() implies #[trigger] t.keeps_device(
            i,
        ) by {
            if i < s.recorded().virtio.len() {
                assert(s.keeps_device(i));
                assert(t.recorded().virtio[i] == s.recorded().virtio[i]);
                let at = p + 3 * i;
                assert(t.history[at + 1] == s.history[at + 1]);
                assert(t.history[at + 2] == s.history[at + 2]);
            } else {
                assert(p <= d < script.len());
                assert((d - p) % 3 == 2);
                assert(i == (d - p) / 3);
                assert(s.inputs.virtio_bases.len() == s.inputs.virtio_bases@.len());
                assert(s.pending[0] == CaptureStep::ReadTransport { device: i as usize });
                assert(t.history[d - 1] == s.history[d - 1]);
                assert(t.recorded().virtio[i].device == s.recorded().device);
            }
        }
    }
}

/// A script that stands in the run stays there when a step does not put an end to what
/// was planned.
proof fn lemma_accept_holds<H: Host>(
    s: CaptureState<H>,
    outcome: Outcome<H>,
    script: Seq<CaptureStep>,
    low: int,
)
    requires
        s.pending.len() > 0,
        s.ordered(),
        s.holds(script, low),
        low >= 9,
        forall|k: int| 0 <= k < script.len() ==> capture::phase(#[trigger] script[k]) >= low,
        !capture::diverts(s.inputs, s.pending[0], outcome),
    ensures
        s.accept(outcome).holds(script, low),
{
    let t = s.accept(outcome);
    let d = s.history.len() as int;
    lemma_accept(s, outcome);
    lemma_more(s.task, s.inputs, s.backlog().base, s.pending[0], outcome);
    let more = capture::follow_up(s.backlog().base, s.pending[0], outcome).len() as int;
    let at = choose|at: int| s.holds_at(script, low, at);
    assert(s.steps()[d] == s.pending[0]);
    if script.len() == 0 {
        assert(t.holds_at(script, low, 0));
    } else if at > d {
        assert forall|k: int| 0 <= k < at + more implies capture::phase(#[trigger] t.steps()[k])
            < low by {
            if k <= d {
                assert(capture::phase(s.steps()[k]) < low);
            } else if k <= d + more {
                assert(capture::phase(s.steps()[d]) < low);
            } else {
                assert(capture::phase(s.steps()[k - more]) < low);
            }
        }
        assert forall|c: int| 0 <= c < script.len() implies t.steps()[at + more + c]
            == #[trigger] script[c] by {
            assert(s.steps()[at + c] == script[c]);
            assert(t.steps()[at + more + c] == s.steps()[at + c]);
        }
        assert(t.holds_at(script, low, at + more));
    } else {
        assert(more == 0) by {
            assert(s.steps()[at + 0] == script[0]);
            assert(capture::phase(s.steps()[at]) <= capture::phase(s.steps()[d]));
        }
        assert forall|k: int| 0 <= k < at implies capture::phase(#[trigger] t.steps()[k]) < low by {
            assert(capture::phase(s.steps()[k]) < low);
        }
        assert forall|c: int| 0 <= c < script.len() implies t.steps()[at + c]
            == #[trigger] script[c] by {
            assert(s.steps()[at + c] == script[c]);
        }
        assert(t.holds_at(script, low, at));
    }
}

/// A script that is left to be done after the end of what was planned stands in the
/// run.
proof fn lemma_recovery_holds<H: Host>(
    s: CaptureState<H>,
    outcome: Outcome<H>,
    script: Seq<CaptureStep>,
    low: int,
    offset: int,
)
    requires
        s.pending.len() > 0,
        s.ordered(),
        capture::diverts(s.inputs, s.pending[0], outcome),
        capture::phase(s.pending[0]) < low,
        ({
            let more = capture::recovery(s.task, s.inputs, s.pending[0]);
            &&& 0 <= offset
            &&& offset + script.len() <= more.len()
            &&& forall|k: int| 0 <= k < offset ==> capture::phase(#[trigger] more[k]) < low
            &&& forall|c: int| 0 <= c < script.len() ==> more[offset + c] == #[trigger] script[c]
        }),
    ensures
        s.accept(outcome).holds(script, low),
{
    let t = s.accept(outcome);
    let d = s.history.len() as int;
    lemma_accept(s, outcome);
    let at = d + 1 + offset;
    assert(s.steps()[d] == s.pending[0]);
    let more = capture::recovery(s.task, s.inputs, s.pending[0]);
    assert forall|k: int| 0 <= k < at implies capture::phase(#[trigger] t.steps()[k]) < low by {
        if k < d {
            assert(capture::phase(s.steps()[k]) <= capture::phase(s.steps()[d]));
        } else if k > d {
            assert(t.steps()[k] == more[k - d - 1]);
        }
    }
    assert forall|c: int| 0 <= c < script.len() implies t.steps()[at + c] == #[trigger] script[
    c] by {
        assert(script[c] == more[offset + c]);
        assert(t.steps()[at + c] == more[offset + c]);
    }
    assert(t.holds_at(script, low, at));
}

/// What is left to be done ends with the resumption.
proof fn lemma_recovery(task: Task, inputs: CaptureInputs, step: CaptureStep)
    requires
        capture::phase(step) < 12,
    ensures
        ({
            let more = capture::recovery(task, inputs, step);
            let vcpus = capture::resume_script(inputs);
            let devices = capture::resume_device_script(inputs);
            let v = more.len() - vcpus.len();
            let r = v - devices.len();
            &&& 0 <= v
            &&& forall|c: int| 0 <= c < vcpus.len() ==> more[v + c] == #[trigger] vcpus[c]
            &&& forall|k: int| 0 <= k < v ==> capture::phase(#[trigger] more[k]) < 12
            &&& task is Capture && capture::phase(step) >= 3 ==> {
                &&& 0 <= r
                &&& forall|c: int| 0 <= c < devices.len() ==> more[r + c] == #[trigger] devices[c]
                &&& forall|k: int| 0 <= k < r ==> capture::phase(#[trigger] more[k]) < 11
            }
        }),
{
    lemma_scripts(inputs);
}

/// How the exchange that lets the vCPUs run on is cut short.
proof fn lemma_cut<H: Host>(s: CaptureState<H>, outcome: Outcome<H>, at: int)
    requires
        s.pending.len() > 0,
        s.resumes_at(at),
        at <= s.history.len(),
        capture::diverts(s.inputs, s.pending[0], outcome),
    ensures
        ({
            let t = s.accept(outcome);
            let b = s.history.len() - at;
            &&& s.pending[0] == capture::resume_script(s.inputs)[b]
            &&& t.resumes_at(at)
            &&& t.steps().len() <= s.steps().len()
            &&& forall|k: int| 0 <= k < t.steps().len() ==> #[trigger] t.steps()[k] == s.steps()[k]
        }),
{
    let t = s.accept(outcome);
    let d = s.history.len() as int;
    let step = s.pending[0];
    let script = capture::resume_script(s.inputs);
    let n = s.inputs.vcpu_count as int;
    let b = d - at;
    lemma_accept(s, outcome);
    lemma_scripts(s.inputs);
    assert(s.steps()[d] == step);
    assert(s.steps()[at + b] == script[b]);
    let more = capture::recovery(s.task, s.inputs, step);
    assert(t.steps().len() == d + 1 + more.len());
    let first = if s.resumes_fully(at) {
        b
    } else {
        choose|b: int| s.resumes_in_part(at, b)
    };
    assert(first <= b < 2 * n);
    assert(forall|k: int| at <= k < d ==> #[trigger] t.refused(k) == s.refused(k));
    let placed = if s.task is Capture && first < n {
        n
    } else {
        first + 1
    };
    if first < b {
        assert(s.task is Capture && b < n);
    }
    assert(t.steps().len() == at + placed);
    assert forall|k: int| 0 <= k < t.steps().len() implies #[trigger] t.steps()[k]
        == s.steps()[k] by {
        if k > d {
            let c = k - at;
            assert(s.steps()[at + c] == script[c]);
            assert(t.steps()[k] == more[k - d - 1]);
        }
    }
    assert forall|c: int| 0 <= c < placed implies t.steps()[at + c] == #[trigger] script[c] by {
        assert(s.steps()[at + c] == script[c]);
    }
    assert(t.resumes_in_part(at, first));
    assert forall|k: int| 0 <= k < at implies capture::phase(#[trigger] t.steps()[k]) < 12 by {
        assert(capture::phase(s.steps()[k]) < 12);
    }
}

/// The next step is one of the exchange that lets the vCPUs run on exactly if that has
/// begun, and until then nothing of it is left out.
proof fn lemma_begun<H: Host>(s: CaptureState<H>, at: int)
    requires
        s.pending.len() > 0,
        s.resumes_at(at),
    ensures
        at <= s.history.len() <==> capture::phase(s.pending[0]) >= 12,
        at > s.history.len() ==> s.resumes_fully(at),
{
    let d = s.history.len() as int;
    lemma_scripts(s.inputs);
    assert(s.steps()[d] == s.pending[0]);
    if at <= d {
        let script = capture::resume_script(s.inputs);
        assert(s.steps()[at + (d - at)] == script[d - at]);
    }
}

proof fn lemma_accept_vcpus<H: Host>(s: CaptureState<H>, outcome: Outcome<H>)
    requires
        s.pending.len() > 0,
        s.ordered(),
        s.resumes_vcpus(),
    ensures
        s.accept(outcome).resumes_vcpus(),
{
    let t = s.accept(outcome);
    let d = s.history.len() as int;
    let step = s.pending[0];
    lemma_accept(s, outcome);
    lemma_more(s.task, s.inputs, s.backlog().base, step, outcome);
    lemma_scripts(s.inputs);
    let diverts = capture::diverts(s.inputs, step, outcome);
    let vcpus = capture::resume_script(s.inputs);
    assert(s.steps()[d] == step);
    let at = choose|at: int| s.resumes_at(at);
    lemma_begun(s, at);
    if diverts && at <= d {
        lemma_cut(s, outcome, at);
    } else if diverts {
        lemma_recovery(s.task, s.inputs, step);
        let more = capture::recovery(s.task, s.inputs, step);
        let v = more.len() - vcpus.len();
        let from = d + 1 + v;
        assert forall|k: int| 0 <= k < from implies capture::phase(#[trigger] t.steps()[k])
            < 12 by {
            if k <= d {
                assert(capture::phase(s.steps()[k]) < 12);
            } else {
                assert(t.steps()[k] == more[k - d - 1]);
            }
        }
        assert forall|c: int| 0 <= c < vcpus.len() implies t.steps()[from + c] == #[trigger] vcpus[
        c] by {
            assert(more[v + c] == vcpus[c]);
            assert(t.steps()[from + c] == more[v + c]);
        }
        assert(t.resumes_fully(from));
        assert(t.resumes_at(from));
    } else {
        let m = capture::follow_up(s.backlog().base, step, outcome).len() as int;
        let from = if at <= d {
            at
        } else {
            at + m
        };
        assert(at <= d ==> m == 0);
        assert forall|k: int| 0 <= k < from implies capture::phase(#[trigger] t.steps()[k])
            < 12 by {
            if k <= d {
                assert(capture::phase(s.steps()[k]) < 12);
            } else if k > d + m {
                assert(capture::phase(s.steps()[k - m]) < 12);
            }
        }
        assert forall|c: int|
            0 <= c < s.steps().len() - at implies #[trigger] t.steps()[from + c] == s.steps()[at
            + c] by {}
        if s.resumes_fully(at) {
            assert forall|c: int| 0 <= c < vcpus.len() implies t.steps()[from + c]
                == #[trigger] vcpus[c] by {
                assert(s.steps()[at + c] == vcpus[c]);
            }
            assert(t.resumes_fully(from));
        } else {
            let b = choose|b: int| s.resumes_in_part(at, b);
            let placed = s.steps().len() - at;
            assert forall|c: int| 0 <= c < placed implies t.steps()[from + c] == #[trigger] vcpus[
            c] by {
                assert(s.steps()[at + c] == vcpus[c]);
            }
            assert(t.resumes_in_part(from, b));
        }
        assert(t.resumes_at(from));
    }
}

proof fn lemma_accept_resumes<H: Host>(s: CaptureState<H>, outcome: Outcome<H>)
    requires
        s.pending.len() > 0,
        capture::fits(s.pending[0], outcome),
        s.ordered(),
        s.resumes_devices(),
    ensures
        s.accept(outcome).resumes_devices(),
{
    let t = s.accept(outcome);
    let d = s.history.len() as int;
    lemma_accept(s, outcome);
    lemma_more(s.task, s.inputs, s.backlog().base, s.pending[0], outcome);
    lemma_scripts(s.inputs);
    let diverts = capture::diverts(s.inputs, s.pending[0], outcome);
    let more = capture::recovery(s.task, s.inputs, s.pending[0]);
    let vcpus = capture::resume_script(s.inputs);
    let devices = capture::resume_device_script(s.inputs);
    let rank = capture::phase(s.pending[0]);
    assert(s.steps()[d] == s.pending[0]);
    if s.task is Capture && (t.failure is None || t.reaches(3, 11)) {
        if !diverts {
            if s.failure is Some {
                lemma_accept_reaches(s, outcome, 3, 11);
            }
            lemma_accept_holds(s, outcome, devices, 11);
        } else if rank <= 2 {
            let k = choose|k: int|
                0 <= k < t.steps().len() && 3 <= capture::phase(#[trigger] t.steps()[k]) <= 11;
            if k <= d {
                assert(capture::phase(s.steps()[k]) <= rank);
            }
            assert(false);
        } else if rank <= 10 {
            lemma_recovery(s.task, s.inputs, s.pending[0]);
            lemma_recovery_holds(
                s,
                outcome,
                devices,
                11,
                more.len() - vcpus.len() - devices.len(),
            );
        } else {
            lemma_cut_devices(s, outcome);
        }
    }
}

/// The devices were let run on before the vCPUs, and stay so.
proof fn lemma_cut_devices<H: Host>(s: CaptureState<H>, outcome: Outcome<H>)
    requires
        s.pending.len() > 0,
        capture::fits(s.pending[0], outcome),
        s.ordered(),
        s.task is Capture,
        s.resumes_devices(),
        s.accept(outcome).reaches(3, 11),
        capture::diverts(s.inputs, s.pending[0], outcome),
        capture::phase(s.pending[0]) >= 12,
    ensures
        s.accept(outcome).holds(capture::resume_device_script(s.inputs), 11),
{
    let t = s.accept(outcome);
    let d = s.history.len() as int;
    lemma_accept(s, outcome);
    lemma_more(s.task, s.inputs, s.backlog().base, s.pending[0], outcome);
    lemma_scripts(s.inputs);
    let devices = capture::resume_device_script(s.inputs);
    assert(s.steps()[d] == s.pending[0]);
    let k = choose|k: int|
        0 <= k < t.steps().len() && 3 <= capture::phase(#[trigger] t.steps()[k]) <= 11;
    assert(k <= d);
    assert(3 <= capture::phase(s.steps()[k]) <= 11);
    assert(s.reaches(3, 11));
    let at = choose|at: int| s.holds_at(devices, 11, at);
    if devices.len() == 0 {
        assert(t.holds_at(devices, 11, 0));
    } else {
        let last = at + (devices.len() - 1);
        assert(s.steps()[last] == devices[devices.len() - 1]);
        assert(last < d) by {
            if last >= d {
                assert(capture::phase(s.steps()[d]) <= capture::phase(s.steps()[last]));
            }
        }
        assert forall|k: int| 0 <= k < at implies capture::phase(#[trigger] t.steps()[k]) < 11 by {
            assert(capture::phase(s.steps()[k]) < 11);
        }
        assert forall|c: int| 0 <= c < devices.len() implies t.steps()[at + c]
            == #[trigger] devices[c] by {
            assert(s.steps()[at + c] == devices[c]);
        }
        assert(t.holds_at(devices, 11, at));
    }
}

proof fn lemma_accept_discards<H: Host>(s: CaptureState<H>, outcome: Outcome<H>)
    requires
        s.pending.len() > 0,
        capture::fits(s.pending[0], outcome),
        s.discards_stage(),
    ensures
        s.accept(outcome).discards_stage(),
{
    let t = s.accept(outcome);
    let d = s.history.len() as int;
    lemma_accept(s, outcome);
    if s.task is Capture {
        assert forall|k: int|
            0 <= k < t.history.len() && 6 <= capture::phase(t.history[k].step) <= 9
                && #[trigger] t.diverted(k) implies {
            ||| k + 1 < t.steps().len() && t.steps()[k + 1] == CaptureStep::DiscardStage
            ||| k + 1 < t.steps().len() && t.steps()[k + 1] == CaptureStep::PutTargetBack && (k + 1
                < t.history.len() && t.diverted(k + 1) || k + 2 < t.steps().len() && t.steps()[k
                + 2] == CaptureStep::DiscardStage)
        } by {
            if k < d {
                assert(t.history[k] == s.history[k]);
                assert(s.diverted(k));
                assert(s.steps()[k + 1] == t.steps()[k + 1]);
                if s.steps()[k + 1] == CaptureStep::PutTargetBack {
                    if k + 2 > d {
                        assert(s.pending[0] is PutTargetBack);
                        assert(capture::follow_up(s.backlog().base, s.pending[0], outcome).len()
                            == 0);
                        if !t.diverted(d) {
                            assert(t.steps()[k + 2] == s.steps()[k + 2]);
                        }
                    } else if s.diverted(k + 1) {
                        assert(t.diverted(k + 1));
                    } else {
                        assert(t.steps()[k + 2] == s.steps()[k + 2]);
                    }
                }
            } else {
                let more = capture::recovery(s.task, s.inputs, s.pending[0]);
                assert(t.steps()[d + 1] == more[0]);
                if more[0] is PutTargetBack {
                    assert(t.steps()[d + 2] == more[1]);
                }
            }
        }
    }
}

/// A step of the run stays one, unless what was planned comes to an end.
proof fn lemma_kept<H: Host>(s: CaptureState<H>, outcome: Outcome<H>, k: int) -> (moved: int)
    requires
        s.pending.len() > 0,
        !capture::diverts(s.inputs, s.pending[0], outcome),
        0 <= k < s.steps().len(),
    ensures
        0 <= moved < s.accept(outcome).steps().len(),
        s.accept(outcome).steps()[moved] == s.steps()[k],
{
    lemma_accept(s, outcome);
    let d = s.history.len() as int;
    let more = capture::follow_up(s.backlog().base, s.pending[0], outcome);
    if k <= d {
        k
    } else {
        assert(s.accept(outcome).steps()[k + more.len()] == s.steps()[k]);
        k + more.len()
    }
}

/// Nothing is undone as long as nothing fails.
proof fn lemma_accept_undoes<H: Host>(s: CaptureState<H>, outcome: Outcome<H>)
    requires
        s.pending.len() > 0,
        !capture::diverts(s.inputs, s.pending[0], outcome),
        forall|k: int|
            0 <= k < s.steps().len() ==> capture::phase(#[trigger] s.steps()[k]) != 10,
    ensures
        forall|k: int|
            0 <= k < s.accept(outcome).steps().len() ==> capture::phase(
                #[trigger] s.accept(outcome).steps()[k],
            ) != 10,
{
    let t = s.accept(outcome);
    let d = s.history.len() as int;
    lemma_accept(s, outcome);
    lemma_more(s.task, s.inputs, s.backlog().base, s.pending[0], outcome);
    let more = capture::follow_up(s.backlog().base, s.pending[0], outcome);
    assert forall|k: int| 0 <= k < t.steps().len() implies capture::phase(#[trigger] t.steps()[k])
        != 10 by {
        if k <= d {
            assert(capture::phase(s.steps()[k]) != 10);
        } else if k <= d + more.len() {
            assert(t.steps()[k] == more[k - d - 1]);
        } else {
            assert(capture::phase(s.steps()[k - more.len()]) != 10);
        }
    }
}

proof fn lemma_accept_writes<H: Host>(s: CaptureState<H>, outcome: Outcome<H>)
    requires
        s.pending.len() > 0,
        capture::fits(s.pending[0], outcome),
        s.writes_all(),
    ensures
        s.accept(outcome).writes_all(),
{
    let t = s.accept(outcome);
    if t.failure is None {
        lemma_accept_undoes(s, outcome);
        assert forall|x: CaptureStep| #[trigger] s.steps().contains(x) implies t.steps().contains(
            x,
        ) by {
            let k = choose|k: int| 0 <= k < s.steps().len() && s.steps()[k] == x;
            let moved = lemma_kept(s, outcome, k);
        }
        if s.task is Capture {
            lemma_accept_image(s, outcome);
            lemma_accept_rename(s, outcome);
        }
    }
}

proof fn lemma_accept_image<H: Host>(s: CaptureState<H>, outcome: Outcome<H>)
    requires
        s.pending.len() > 0,
        capture::fits(s.pending[0], outcome),
        !capture::diverts(s.inputs, s.pending[0], outcome),
        s.pending.contains(CaptureStep::LookForPages) || exists|k: int|
            0 <= k < s.steps().len() && #[trigger] s.steps()[k] is WriteImage,
    ensures
        ({
            let t = s.accept(outcome);
            ||| t.pending.contains(CaptureStep::LookForPages)
            ||| exists|k: int| 0 <= k < t.steps().len() && #[trigger] t.steps()[k] is WriteImage
        }),
{
    let t = s.accept(outcome);
    let d = s.history.len() as int;
    let more = capture::follow_up(s.backlog().base, s.pending[0], outcome);
    if s.pending.contains(CaptureStep::LookForPages) {
        let k = choose|k: int|
            0 <= k < s.pending.len() && s.pending[k] == CaptureStep::LookForPages;
        if k == 0 {
            assert(t.steps()[d + 1] == more[0]);
        } else {
            assert(t.pending[k - 1 + more.len()] == CaptureStep::LookForPages);
        }
    } else {
        let k = choose|k: int| 0 <= k < s.steps().len() && #[trigger] s.steps()[k] is WriteImage;
        let moved = lemma_kept(s, outcome, k);
        assert(t.steps()[moved] is WriteImage);
    }
}

proof fn lemma_accept_rename<H: Host>(s: CaptureState<H>, outcome: Outcome<H>)
    requires
        s.pending.len() > 0,
        capture::fits(s.pending[0], outcome),
        !capture::diverts(s.inputs, s.pending[0], outcome),
        s.pending.contains(CaptureStep::LookForTarget) || exists|k: int|
            0 <= k < s.steps().len() && #[trigger] s.steps()[k] is RenameStage,
    ensures
        ({
            let t = s.accept(outcome);
            ||| t.pending.contains(CaptureStep::LookForTarget)
            ||| exists|k: int| 0 <= k < t.steps().len() && #[trigger] t.steps()[k] is RenameStage
        }),
{
    let t = s.accept(outcome);
    let d = s.history.len() as int;
    let more = capture::follow_up(s.backlog().base, s.pending[0], outcome);
    if s.pending.contains(CaptureStep::LookForTarget) {
        let k = choose|k: int|
            0 <= k < s.pending.len() && s.pending[k] == CaptureStep::LookForTarget;
        if k == 0 {
            let at = if more.len() == 1 {
                d + 1
            } else {
                d + 2
            };
            assert(t.steps()[at] == more[at - d - 1]);
        } else {
            assert(t.pending[k - 1 + more.len()] == CaptureStep::LookForTarget);
        }
    } else {
        let k = choose|k: int| 0 <= k < s.steps().len() && #[trigger] s.steps()[k] is RenameStage;
        let moved = lemma_kept(s, outcome, k);
        assert(t.steps()[moved] is RenameStage);
    }
}

proof fn lemma_accept_pairs<H: Host>(s: CaptureState<H>, outcome: Outcome<H>)
    requires
        s.pending.len() > 0,
        capture::fits(s.pending[0], outcome),
        s.pairs_target(),
    ensures
        s.accept(outcome).pairs_target(),
{
    let t = s.accept(outcome);
    let step = s.pending[0];
    lemma_more(s.task, s.inputs, s.backlog().base, step, outcome);
    let more = capture::follow_up(s.backlog().base, step, outcome);
    let m = more.len() as int;
    if capture::diverts(s.inputs, step, outcome) {
        assert forall|i: int| 0 <= i < t.pending.len() implies capture::phase(
            #[trigger] t.pending[i],
        ) >= 10 by {}
    } else {
        assert forall|i: int| 0 <= i < t.pending.len() implies (#[trigger] t.pending[
        i] is SetTargetAside ==> i + 1 < t.pending.len() && t.pending[i + 1]
            == CaptureStep::RenameStage { replacing: true }) by {
            if i >= m {
                assert(t.pending[i] == s.pending[i - m + 1]);
                if s.pending[i - m + 1] is SetTargetAside {
                    assert(t.pending[i + 1] == s.pending[i - m + 2]);
                }
            } else {
                assert(t.pending[i] == more[i]);
                if i + 1 < m {
                    assert(t.pending[i + 1] == more[i + 1]);
                }
            }
        }
        assert forall|i: int| 0 < i < t.pending.len() implies (#[trigger] t.pending[i] is RemoveOld
            ==> t.pending[i - 1] is RenameStage) by {
            if i > m {
                assert(t.pending[i] == s.pending[i - m + 1]);
                assert(t.pending[i - 1] == s.pending[i - m]);
            } else if i < m {
                assert(t.pending[i] == more[i]);
                assert(t.pending[i - 1] == more[i - 1]);
            } else {
                assert(t.pending[i] == s.pending[1]);
            }
        }
    }
}

proof fn lemma_accept_closes<H: Host>(s: CaptureState<H>, outcome: Outcome<H>)
    requires
        s.pending.len() > 0,
        capture::fits(s.pending[0], outcome),
        s.closes_publication(),
    ensures
        s.accept(outcome).closes_publication(),
{
    let t = s.accept(outcome);
    let d = s.history.len() as int;
    let step = s.pending[0];
    lemma_accept(s, outcome);
    lemma_more(s.task, s.inputs, s.backlog().base, step, outcome);
    let more = capture::follow_up(s.backlog().base, step, outcome);
    let m = more.len() as int;
    let diverts = capture::diverts(s.inputs, step, outcome);
    assert(s.steps()[d] == step);
    assert forall|i: int, j: int|
        0 <= i < j < t.pending.len() && #[trigger] t.pending[
        i] is LookForTarget implies capture::phase(#[trigger] t.pending[j]) >= 9 by {
        if diverts {
            assert(capture::phase(t.pending[i]) >= 10);
        } else if i < m {
            assert(t.pending[i] == more[i]);
        } else {
            assert(t.pending[i] == s.pending[i - m + 1]);
            assert(t.pending[j] == s.pending[j - m + 1]);
        }
    }
    assert forall|i: int, j: int|
        0 <= i < j < t.steps().len() && (#[trigger] t.steps()[i] is RenameStage
            || t.steps()[i] is RemoveOld) implies {
        ||| #[trigger] t.steps()[j] is RemoveOld && t.steps()[i] is RenameStage
        ||| capture::phase(t.steps()[j]) >= 9
    } by {
        if diverts {
            if j > d {
                assert(capture::phase(t.steps()[j]) >= 10);
            } else {
                assert(t.steps()[i] == s.steps()[i] && t.steps()[j] == s.steps()[j]);
            }
        } else if i <= d {
            assert(t.steps()[i] == s.steps()[i]);
            if j <= d {
                assert(t.steps()[j] == s.steps()[j]);
            } else if j <= d + m {
                if i < d {
                    assert(s.steps()[i] is RenameStage || s.steps()[i] is RemoveOld);
                    assert(s.steps()[d] is RemoveOld || capture::phase(s.steps()[d]) >= 9);
                    assert(m == 0);
                }
            } else {
                assert(t.steps()[j] == s.steps()[j - m]);
                if m > 0 && i < d {
                    assert(s.steps()[d] is RemoveOld || capture::phase(s.steps()[d]) >= 9);
                }
            }
        } else if i <= d + m {
            assert(t.steps()[i] == more[i - d - 1]);
            assert(step is LookForTarget);
            if j <= d + m {
                assert(t.steps()[j] == more[j - d - 1]);
            } else {
                assert(t.steps()[j] == s.steps()[j - m]);
                assert(s.steps()[j - m] == s.pending[j - m - d]);
                assert(s.pending[0] is LookForTarget);
            }
        } else {
            assert(t.steps()[i] == s.steps()[i - m]);
            assert(t.steps()[j] == s.steps()[j - m]);
        }
    }
}

proof fn lemma_accept_target<H: Host>(s: CaptureState<H>, outcome: Outcome<H>)
    requires
        s.pending.len() > 0,
        capture::fits(s.pending[0], outcome),
        s.pairs_target(),
        s.keeps_target(),
    ensures
        s.accept(outcome).keeps_target(),
{
    let t = s.accept(outcome);
    let d = s.history.len() as int;
    let step = s.pending[0];
    lemma_more(s.task, s.inputs, s.backlog().base, step, outcome);
    assert(t.history.drop_last() =~= s.history);
    let more = capture::follow_up(s.backlog().base, step, outcome);
    if capture::diverts(s.inputs, step, outcome) {
        if t.pending.len() > 0 {
            assert(t.pending[0] == capture::recovery(s.task, s.inputs, step)[0]);
        }
    } else if more.len() == 0 && s.pending.len() > 1 {
        assert(t.pending[0] == s.pending[1]);
    } else if more.len() > 0 {
        assert(t.pending[0] == more[0]);
    }
    if t.published() is Aside && !(step is SetTargetAside && outcome is Done) {
        assert(s.published() is Aside);
        if exists|k: int|
            0 <= k < s.history.len() && s.history[k].step is PutTargetBack && #[trigger] s.refused(
                k,
            ) is Some {
            let k = choose|k: int|
                0 <= k < s.history.len() && s.history[k].step is PutTargetBack
                    && #[trigger] s.refused(k) is Some;
            assert(t.history[k] == s.history[k]);
            assert(t.refused(k) is Some);
        } else if step is PutTargetBack {
            assert(t.history[d] == (Performed { step, outcome }));
            assert(t.refused(d) is Some);
        }
    }
}

proof fn lemma_accept_sources<H: Host>(s: CaptureState<H>, outcome: Outcome<H>)
    requires
        s.pending.len() > 0,
        capture::fits(s.pending[0], outcome),
        s.sources_image(),
    ensures
        s.accept(outcome).sources_image(),
{
    let t = s.accept(outcome);
    let d = s.history.len() as int;
    let step = s.pending[0];
    lemma_accept(s, outcome);
    lemma_more(s.task, s.inputs, s.backlog().base, step, outcome);
    let more = capture::follow_up(s.backlog().base, step, outcome);
    let m = more.len() as int;
    assert forall|i: int| 0 <= i < t.pending.len() && #[trigger] t.pending[
    i] is WriteImage implies i == 0 && step is LookForPages && !capture::diverts(
        s.inputs,
        step,
        outcome,
    ) by {
        if capture::diverts(s.inputs, step, outcome) {
            assert(capture::phase(t.pending[i]) >= 10);
        } else if i >= m {
            assert(t.pending[i] == s.pending[i - m + 1]);
        } else {
            assert(t.pending[i] == more[i]);
        }
    }
    assert forall|k: int|
        0 <= k < t.steps().len() && k <= t.history.len() && #[trigger] t.steps()[
        k] is WriteImage implies t.sourced_at(k) by {
        if k <= d {
            assert(s.steps()[k] is WriteImage);
            assert(s.sourced_at(k));
            assert(t.history[k - 1] == s.history[k - 1]);
            assert(t.history.take(k - 1) =~= s.history.take(k - 1));
        } else {
            assert(t.pending[0] is WriteImage);
            assert(t.pending[0] == more[0]);
            assert(t.history.take(d) =~= s.history);
        }
    }
}

proof fn lemma_accept_puts_back<H: Host>(s: CaptureState<H>, outcome: Outcome<H>)
    requires
        s.pending.len() > 0,
        capture::fits(s.pending[0], outcome),
        s.puts_back(),
    ensures
        s.accept(outcome).puts_back(),
{
    let t = s.accept(outcome);
    let d = s.history.len() as int;
    let step = s.pending[0];
    lemma_accept(s, outcome);
    lemma_more(s.task, s.inputs, s.backlog().base, step, outcome);
    lemma_scripts(s.inputs);
    let diverts = capture::diverts(s.inputs, step, outcome);
    let m = capture::follow_up(s.backlog().base, step, outcome).len() as int;
    assert forall|k: int| 0 <= k < t.steps().len() implies #[trigger] t.undoes_at(k) by {
        if k <= d {
            assert(s.undoes_at(k));
            assert(t.steps()[k] == s.steps()[k]);
            if k > 0 {
                assert(t.history[k - 1] == s.history[k - 1]);
                assert(t.diverted(k - 1) == s.diverted(k - 1));
            }
        } else if diverts {
            let more = capture::recovery(s.task, s.inputs, step);
            assert(t.steps()[k] == more[k - d - 1]);
            if more[k - d - 1] is PutTargetBack {
                assert(capture::phase(step) < 12);
                lemma_recovery(s.task, s.inputs, step);
                let v = more.len() - capture::resume_script(s.inputs).len();
                if k - d - 1 >= v {
                    assert(more[v + (k - d - 1 - v)] == capture::resume_script(s.inputs)[k - d - 1
                        - v]);
                }
                lemma_recovery_tail(s.task, s.inputs, step, k - d - 1);
                assert(t.history[d].step == step);
            }
        } else if k > d + m {
            assert(s.undoes_at(k - m));
            assert(t.steps()[k] == s.steps()[k - m]);
        }
    }
}

proof fn lemma_accept_replaces<H: Host>(s: CaptureState<H>, outcome: Outcome<H>)
    requires
        s.pending.len() > 0,
        capture::fits(s.pending[0], outcome),
        s.replaces(),
    ensures
        s.accept(outcome).replaces(),
{
    let t = s.accept(outcome);
    let d = s.history.len() as int;
    let step = s.pending[0];
    lemma_accept(s, outcome);
    lemma_more(s.task, s.inputs, s.backlog().base, step, outcome);
    let diverts = capture::diverts(s.inputs, step, outcome);
    let more = capture::follow_up(s.backlog().base, step, outcome);
    let m = more.len() as int;
    assert(s.steps()[d] == step);
    assert forall|k: int| 0 <= k < t.steps().len() implies #[trigger] t.replaces_at(k) by {
        if k <= d {
            assert(s.replaces_at(k));
            assert(t.steps()[k] == s.steps()[k]);
            if k > 0 {
                assert(t.steps()[k - 1] == s.steps()[k - 1]);
            }
        } else if diverts {
            assert(capture::phase(t.steps()[k]) >= 10);
        } else if k <= d + m {
            assert(t.steps()[k] == more[k - d - 1]);
            if k > d + 1 {
                assert(t.steps()[k - 1] == more[k - d - 2]);
            }
        } else {
            assert(s.replaces_at(k - m));
            assert(t.steps()[k] == s.steps()[k - m]);
            if k > d + m + 1 {
                assert(t.steps()[k - 1] == s.steps()[k - m - 1]);
            } else {
                assert(s.steps()[k - m - 1] == step);
            }
        }
    }
}

proof fn lemma_accept_originates<H: Host>(s: CaptureState<H>, outcome: Outcome<H>)
    requires
        s.pending.len() > 0,
        capture::fits(s.pending[0], outcome),
        s.originates(),
    ensures
        s.accept(outcome).originates(),
{
    let t = s.accept(outcome);
    let d = s.history.len() as int;
    let step = s.pending[0];
    lemma_accept(s, outcome);
    lemma_more(s.task, s.inputs, s.backlog().base, step, outcome);
    let diverts = capture::diverts(s.inputs, step, outcome);
    let more = capture::follow_up(s.backlog().base, step, outcome);
    let m = more.len() as int;
    assert forall|k: int| 0 <= k < t.steps().len() implies #[trigger] t.originates_at(k) by {
        if k > d && diverts {
            assert(capture::phase(t.steps()[k]) >= 10);
        } else if d < k <= d + m {
            assert(t.steps()[k] == more[k - d - 1]);
            assert(t.history[d].step == step);
        } else {
            let from = if k <= d {
                k
            } else {
                k - m
            };
            assert(t.steps()[k] == s.steps()[from]);
            assert(s.originates_at(from));
            if let Some(source) = capture::origin(s.steps()[from]) {
                let j = choose|j: int|
                    0 <= j < from && j < s.history.len() && (#[trigger] s.history[j]).step
                        == source;
                assert(t.history[j] == s.history[j]);
            }
        }
    }
}

/// What follows from a step has not been done, nor is to be done already.
proof fn lemma_new_work<H: Host>(s: CaptureState<H>, base: Base, outcome: Outcome<H>, k: int, c: int)
    requires
        s.pending.len() > 0,
        s.originates(),
        s.does_once(),
        0 <= k < s.steps().len(),
        0 <= c < capture::follow_up(base, s.pending[0], outcome).len(),
    ensures
        !capture::same_work(s.steps()[k], capture::follow_up(base, s.pending[0], outcome)[c]),
        !capture::same_work(capture::follow_up(base, s.pending[0], outcome)[c], s.steps()[k]),
{
    let d = s.history.len() as int;
    let step = s.pending[0];
    let fresh = capture::follow_up(base, step, outcome)[c];
    assert(s.steps()[d] == step);
    assert(capture::origin(fresh) == Some(step));
    if capture::same_work(s.steps()[k], fresh) || capture::same_work(fresh, s.steps()[k]) {
        assert(capture::origin(s.steps()[k]) == Some(step));
        assert(s.originates_at(k));
        let j = choose|j: int|
            0 <= j < k && j < s.history.len() && (#[trigger] s.history[j]).step == step;
        assert(s.steps()[j] == step);
        assert(!s.repeats(j, d));
    }
}

/// What is left to be done holds nothing twice.
proof fn lemma_recovery_once(task: Task, inputs: CaptureInputs, step: CaptureStep, i: int, j: int)
    requires
        capture::phase(step) < 12,
        0 <= i < j < capture::recovery(task, inputs, step).len(),
    ensures
        !capture::same_work(
            capture::recovery(task, inputs, step)[i],
            capture::recovery(task, inputs, step)[j],
        ),
{
    let more = capture::recovery(task, inputs, step);
    let vcpus = capture::resume_script(inputs);
    let devices = capture::resume_device_script(inputs);
    lemma_scripts(inputs);
    lemma_scripts_once(inputs);
    lemma_recovery(task, inputs, step);
    let v = more.len() - vcpus.len();
    if i >= v {
        assert(more[v + (i - v)] == vcpus[i - v]);
        assert(more[v + (j - v)] == vcpus[j - v]);
    } else if j >= v {
        assert(more[v + (j - v)] == vcpus[j - v]);
    } else {
        let r = v - devices.len();
        assert(capture::phase(step) >= 3 || step == CaptureStep::RenameStage { replacing: true });
        if task is Capture && i >= r {
            assert(more[r + (i - r)] == devices[i - r]);
            assert(more[r + (j - r)] == devices[j - r]);
        } else if task is Capture && j >= r {
            assert(more[r + (j - r)] == devices[j - r]);
        }
    }
}

proof fn lemma_accept_once<H: Host>(s: CaptureState<H>, outcome: Outcome<H>)
    requires
        s.pending.len() > 0,
        capture::fits(s.pending[0], outcome),
        s.ordered(),
        s.resumes_vcpus(),
        s.originates(),
        s.does_once(),
    ensures
        s.accept(outcome).does_once(),
{
    let t = s.accept(outcome);
    let d = s.history.len() as int;
    let step = s.pending[0];
    lemma_accept(s, outcome);
    lemma_more(s.task, s.inputs, s.backlog().base, step, outcome);
    let diverts = capture::diverts(s.inputs, step, outcome);
    let base = s.backlog().base;
    let more = if diverts {
        capture::recovery(s.task, s.inputs, step)
    } else {
        capture::follow_up(base, step, outcome)
    };
    let m = more.len() as int;
    assert(s.steps()[d] == step);
    if diverts && capture::phase(step) >= 12 {
        let at = choose|at: int| s.resumes_at(at);
        lemma_begun(s, at);
        lemma_cut(s, outcome, at);
        assert forall|i: int, j: int| 0 <= i < j < t.steps().len() implies !#[trigger] t.repeats(
            i,
            j,
        ) by {
            assert(!s.repeats(i, j));
            assert(t.steps()[i] == s.steps()[i] && t.steps()[j] == s.steps()[j]);
        }
        assert forall|k: int| 0 <= k < t.steps().len() implies #[trigger] t.sends_at(k) by {
            assert(s.sends_at(k));
            assert(t.steps()[k] == s.steps()[k]);
        }
    } else {
        assert forall|i: int, j: int| 0 <= i < j < t.steps().len() implies !#[trigger] t.repeats(
            i,
            j,
        ) by {
            let x = t.steps()[i];
            let y = t.steps()[j];
            let old_i = i <= d || i > d + m;
            let old_j = j <= d || j > d + m;
            let from_i = if i <= d {
                i
            } else {
                i - m
            };
            let from_j = if j <= d {
                j
            } else {
                j - m
            };
            assert(old_i ==> x == s.steps()[from_i]);
            assert(old_j ==> y == s.steps()[from_j]);
            assert(!old_i ==> x == more[i - d - 1]);
            assert(!old_j ==> y == more[j - d - 1]);
            if old_i && old_j {
                assert(!s.repeats(from_i, from_j));
            } else if diverts {
                if i <= d {
                    assert(capture::phase(s.steps()[i]) <= capture::phase(step));
                } else {
                    lemma_recovery_once(s.task, s.inputs, step, i - d - 1, j - d - 1);
                }
            } else if old_i {
                lemma_new_work(s, base, outcome, from_i, j - d - 1);
            } else if old_j {
                lemma_new_work(s, base, outcome, from_j, i - d - 1);
            }
        }
        assert forall|k: int| 0 <= k < t.steps().len() implies #[trigger] t.sends_at(k) by {
            if k <= d {
                assert(s.sends_at(k));
                assert(t.steps()[k] == s.steps()[k]);
            } else if k <= d + m {
                assert(t.steps()[k] == more[k - d - 1]);
                if diverts {
                    lemma_recovery_indexed(s.task, s.inputs, step, k - d - 1);
                }
            } else {
                assert(s.sends_at(k - m));
                assert(t.steps()[k] == s.steps()[k - m]);
            }
        }
    }
}

/// Steps that are all planned, or none of which is.
pub(crate) proof fn lemma_plan_of(steps: Seq<CaptureStep>)
    ensures
        (forall|k: int| 0 <= k < steps.len() ==> capture::planned(#[trigger] steps[k]))
            ==> capture::plan_of(steps) == steps,
        (forall|k: int| 0 <= k < steps.len() ==> !capture::planned(#[trigger] steps[k]))
            ==> capture::plan_of(steps).len() == 0,
    decreases steps.len(),
{
    reveal(Seq::filter);
    if steps.len() > 0 {
        let before = steps.drop_last();
        let last = steps.len() - 1;
        lemma_plan_of(before);
        assert(before.push(steps.last()) =~= steps);
        if forall|k: int| 0 <= k < steps.len() ==> capture::planned(#[trigger] steps[k]) {
            assert forall|k: int| 0 <= k < before.len() implies capture::planned(
                #[trigger] before[k],
            ) by {
                assert(before[k] == steps[k]);
            }
            assert(capture::planned(steps[last]));
        }
        if forall|k: int| 0 <= k < steps.len() ==> !capture::planned(#[trigger] steps[k]) {
            assert forall|k: int| 0 <= k < before.len() implies !capture::planned(
                #[trigger] before[k],
            ) by {
                assert(before[k] == steps[k]);
            }
            assert(!capture::planned(steps[last]));
        }
    }
}

/// The plan of two runs of steps is that of one, then that of the other.
pub(crate) proof fn lemma_plan_adds(a: Seq<CaptureStep>, b: Seq<CaptureStep>)
    ensures
        capture::plan_of(a + b) == capture::plan_of(a) + capture::plan_of(b),
{
    Seq::filter_distributes_over_add(a, b, |step: CaptureStep| capture::planned(step));
}

/// What follows from a step, or is left to be done, is not planned.
proof fn lemma_more_unplanned<H: Host>(
    task: Task,
    inputs: CaptureInputs,
    base: Base,
    step: CaptureStep,
    outcome: Outcome<H>,
)
    requires
        capture::fits(step, outcome),
    ensures
        capture::plan_of(capture::follow_up(base, step, outcome)).len() == 0,
        capture::diverts(inputs, step, outcome) ==> capture::plan_of(
            capture::recovery(task, inputs, step),
        ).len() == 0,
{
    let more = capture::follow_up(base, step, outcome);
    lemma_plan_of(more);
    if capture::diverts(inputs, step, outcome) {
        let left = capture::recovery(task, inputs, step);
        lemma_more(task, inputs, base, step, outcome);
        assert forall|k: int| 0 <= k < left.len() implies !capture::planned(#[trigger] left[k]) by {
            assert(capture::phase(left[k]) >= 10);
        }
        lemma_plan_of(left);
    }
}

proof fn lemma_accept_plan<H: Host>(s: CaptureState<H>, outcome: Outcome<H>)
    requires
        s.pending.len() > 0,
        capture::fits(s.pending[0], outcome),
        s.keeps_to_plan(),
    ensures
        s.accept(outcome).keeps_to_plan(),
{
    let t = s.accept(outcome);
    let d = s.history.len() as int;
    let step = s.pending[0];
    let base = s.backlog().base;
    lemma_accept(s, outcome);
    lemma_more_unplanned(s.task, s.inputs, base, step, outcome);
    let diverts = capture::diverts(s.inputs, step, outcome);
    let more = if diverts {
        capture::recovery(s.task, s.inputs, step)
    } else {
        capture::follow_up(base, step, outcome)
    };
    let before = s.steps().take(d + 1);
    let rest = s.steps().skip(d + 1);
    assert(s.steps() =~= before + rest);
    lemma_plan_adds(before, rest);
    let plan = capture::plan_of(capture::task_script(s.task, s.inputs));
    if diverts {
        assert(t.steps() =~= before + more);
        lemma_plan_adds(before, more);
        assert(capture::plan_of(t.steps()) =~= capture::plan_of(before));
        assert(capture::plan_of(before) =~= plan.take(capture::plan_of(before).len() as int));
        assert(t.diverted(d));
    } else {
        assert(t.steps() =~= before + (more + rest));
        lemma_plan_adds(before, more + rest);
        lemma_plan_adds(more, rest);
        assert(capture::plan_of(t.steps()) =~= capture::plan_of(s.steps()));
        if forall|k: int| 0 <= k < t.history.len() ==> !#[trigger] t.diverted(k) {
            assert forall|k: int| 0 <= k < d implies !#[trigger] s.diverted(k) by {
                assert(!t.diverted(k));
            }
        }
    }
}

proof fn lemma_accept_follows<H: Host>(s: CaptureState<H>, outcome: Outcome<H>)
    requires
        s.pending.len() > 0,
        capture::fits(s.pending[0], outcome),
        s.follows(),
    ensures
        s.accept(outcome).follows(),
{
    let t = s.accept(outcome);
    let d = s.history.len() as int;
    let step = s.pending[0];
    lemma_accept(s, outcome);
    lemma_more(s.task, s.inputs, s.backlog().base, step, outcome);
    assert(s.steps()[d] == step);
    assert(t.history.take(d) =~= s.history);
    assert forall|k: int, j: int|
        0 <= k < t.history.len() && 0 <= j < t.consequence(k).len() implies #[trigger] t.follows_at(
        k,
        j,
    ) by {
        let p = k + 1 + j;
        if k < d {
            assert(t.history.take(k) =~= s.history.take(k));
            assert(t.history[k] == s.history[k]);
            assert(t.consequence(k) == s.consequence(k));
            assert(s.follows_at(k, j));
            if forall|i: int| k < i < p && i < t.history.len() ==> !#[trigger] t.diverted(i) {
                assert forall|i: int| k < i < p && i < d implies !#[trigger] s.diverted(i) by {
                    assert(!t.diverted(i));
                }
                if p <= d {
                    assert(t.steps()[p] == s.steps()[p]);
                } else {
                    let c = d - k - 1;
                    assert(s.follows_at(k, c));
                    assert(step == s.consequence(k)[c]);
                    assert(capture::origin(step) is Some);
                    assert(!t.diverted(d));
                    assert(capture::follow_up(s.backlog().base, step, outcome).len() == 0);
                    assert(t.steps()[p] == s.steps()[p]);
                }
            }
        } else {
            assert(t.history[d] == (Performed { step, outcome }));
        }
    }
}

/// Every outcome leads from a valid state to a valid state.
pub proof fn accept_keeps_valid<H: Host>(s: CaptureState<H>, outcome: Outcome<H>)
    requires
        s.valid(),
        !s.finished(),
        capture::fits(s.pending[0], outcome),
    ensures
        s.accept(outcome).valid(),
{
    lemma_accept_indexed(s, outcome);
    lemma_accept_ordered(s, outcome);
    lemma_accept_failure(s, outcome);
    lemma_accept_pauses(s, outcome);
    lemma_accept_states(s, outcome);
    lemma_accept_devices(s, outcome);
    lemma_accept_vcpus(s, outcome);
    lemma_accept_resumes(s, outcome);
    lemma_accept_discards(s, outcome);
    lemma_accept_writes(s, outcome);
    lemma_accept_pairs(s, outcome);
    lemma_accept_closes(s, outcome);
    lemma_accept_puts_back(s, outcome);
    lemma_accept_replaces(s, outcome);
    lemma_accept_target(s, outcome);
    lemma_accept_originates(s, outcome);
    lemma_accept_once(s, outcome);
    lemma_accept_plan(s, outcome);
    lemma_accept_follows(s, outcome);
    lemma_accept_sources(s, outcome);
}

/// What stands where in the script of a capture.
pub(crate) proof fn lemma_capture_script(inputs: CaptureInputs)
    ensures
        ({
            let script = capture::task_script(Task::Capture, inputs);
            let pause = capture::pause_script(inputs);
            let quiet = capture::device_script(inputs);
            let devices = capture::resume_device_script(inputs);
            let vcpus = capture::resume_script(inputs);
            let f = pause.len() + quiet.len();
            let x: int = if inputs.has_irqchip {
                1
            } else {
                0
            };
            let q = f + x + 9;
            &&& script.len() == q + devices.len() + vcpus.len()
            &&& forall|k: int| 0 <= k < pause.len() ==> #[trigger] script[k] == pause[k]
            &&& forall|k: int|
                pause.len() <= k < f ==> #[trigger] script[k] == quiet[k - pause.len()]
            &&& inputs.has_irqchip ==> script[f as int] == CaptureStep::SnapshotIrqchip
            &&& script[f + x] == CaptureStep::ReadInterruptState
            &&& script[f + x + 1] == CaptureStep::LookForStage
            &&& script[f + x + 2] == CaptureStep::CreateStage
            &&& script[f + x + 3] == CaptureStep::TakeDirtyBlocks
            &&& script[f + x + 4] == CaptureStep::LookForPages
            &&& script[f + x + 5] == CaptureStep::ReadClock
            &&& script[f + x + 6] == CaptureStep::WriteContainer
            &&& script[f + x + 7] == CaptureStep::LookForTarget
            &&& script[f + x + 8] == CaptureStep::EnableTracking
            &&& forall|k: int|
                q <= k < q + devices.len() ==> #[trigger] script[k] == devices[k - q]
            &&& forall|k: int|
                q + devices.len() <= k < script.len() ==> #[trigger] script[k] == vcpus[k - q
                    - devices.len()]
        }),
{
}

/// The phases of the script of a capture.
pub(crate) proof fn lemma_capture_script_phases(inputs: CaptureInputs)
    ensures
        ({
            let script = capture::task_script(Task::Capture, inputs);
            let f = capture::pause_script(inputs).len() + capture::device_script(inputs).len();
            let x: int = if inputs.has_irqchip {
                1
            } else {
                0
            };
            let q = f + x + 9;
            let v = q + capture::resume_device_script(inputs).len();
            &&& forall|i: int, j: int|
                0 <= i < j < script.len() ==> capture::phase(#[trigger] script[i])
                    <= capture::phase(#[trigger] script[j])
            &&& forall|k: int| 0 <= k < q ==> capture::phase(#[trigger] script[k]) <= 9
            &&& forall|k: int| f <= k < q ==> capture::phase(#[trigger] script[k]) >= 4
            &&& forall|k: int| q <= k < v ==> capture::phase(#[trigger] script[k]) == 11
        }),
{
    lemma_scripts(inputs);
    lemma_capture_script(inputs);
    let script = capture::task_script(Task::Capture, inputs);
    let pause = capture::pause_script(inputs);
    let f = pause.len() + capture::device_script(inputs).len();
    let x: int = if inputs.has_irqchip {
        1
    } else {
        0
    };
    let q = f + x + 9;
    assert forall|i: int, j: int| 0 <= i < j < script.len() implies capture::phase(
        #[trigger] script[i],
    ) <= capture::phase(#[trigger] script[j]) by {
        if j < pause.len() {
            assert(capture::phase(pause[i]) <= capture::phase(pause[j]));
        }
    }
}

/// The script of a capture is in order, and holds all that it has to.
proof fn lemma_start_capture<H: Host>(inputs: CaptureInputs, initial: BacklogView)
    ensures
        ({
            let s = CaptureState::<H>::start(Task::Capture, inputs, initial);
            &&& s.ordered()
            &&& s.starts_with(capture::pause_script(inputs))
            &&& s.starts_with(capture::pause_script(inputs) + capture::device_script(inputs))
            &&& s.resumes_devices()
            &&& s.writes_all()
        }),
{
    let s = CaptureState::<H>::start(Task::Capture, inputs, initial);
    lemma_scripts(inputs);
    let pause = capture::pause_script(inputs);
    let p = pause.len() as int;
    assert(s.steps() =~= capture::task_script(Task::Capture, inputs));
    lemma_capture_script(inputs);
    lemma_capture_script_phases(inputs);
    let devices = capture::resume_device_script(inputs);
    let quiet = capture::device_script(inputs);
    let x: int = if inputs.has_irqchip {
        1
    } else {
        0
    };
    let f = p + quiet.len();
    let q = f + x + 9;
    assert(s.starts_with(pause + quiet));
    assert forall|c: int| 0 <= c < devices.len() implies s.steps()[q + c] == #[trigger] devices[c] by {
        assert(s.steps()[q + c] == devices[c]);
    }
    assert(s.holds_at(devices, 11, q));
    assert(s.pending[f + x + 4] == CaptureStep::LookForPages);
    assert(s.steps()[f + x + 6] == CaptureStep::WriteContainer);
    assert(s.pending[f + x + 7] == CaptureStep::LookForTarget);
    assert(s.steps()[f + x + 8] == CaptureStep::EnableTracking);
}

/// The script of arming is in order, and holds all that it has to.
proof fn lemma_start_arm<H: Host>(inputs: CaptureInputs, initial: BacklogView)
    ensures
        ({
            let s = CaptureState::<H>::start(Task::ArmDirtyTracking, inputs, initial);
            &&& s.ordered()
            &&& s.starts_with(capture::pause_script(inputs))
            &&& s.writes_all()
        }),
{
    let s = CaptureState::<H>::start(Task::ArmDirtyTracking, inputs, initial);
    lemma_scripts(inputs);
    let pause = capture::pause_script(inputs);
    let vcpus = capture::resume_script(inputs);
    let p = pause.len() as int;
    assert(s.steps() =~= capture::task_script(Task::ArmDirtyTracking, inputs));
    assert(forall|k: int| 0 <= k < p ==> #[trigger] s.steps()[k] == pause[k]);
    assert(s.steps()[p] == CaptureStep::EnableTracking);
    assert(forall|k: int|
        p + 1 <= k < s.steps().len() ==> #[trigger] s.steps()[k] == vcpus[k - p - 1]);
    assert forall|i: int, j: int| 0 <= i < j < s.steps().len() implies capture::phase(
        #[trigger] s.steps()[i],
    ) <= capture::phase(#[trigger] s.steps()[j]) by {
        if j < p {
            assert(capture::phase(pause[i]) <= capture::phase(pause[j]));
        } else if i > p {
            assert(capture::phase(vcpus[i - p - 1]) <= capture::phase(vcpus[j - p - 1]));
        }
    }
}

/// The script of a task ends with the exchange that lets the vCPUs run on.
proof fn lemma_start_vcpus<H: Host>(task: Task, inputs: CaptureInputs, initial: BacklogView)
    ensures
        CaptureState::<H>::start(task, inputs, initial).resumes_vcpus(),
{
    let s = CaptureState::<H>::start(task, inputs, initial);
    let script = capture::task_script(task, inputs);
    assert(s.steps() =~= script);
    let vcpus = capture::resume_script(inputs);
    lemma_scripts(inputs);
    let at = script.len() - vcpus.len();
    assert forall|k: int| 0 <= k < at implies capture::phase(#[trigger] s.steps()[k]) < 12 by {
        lemma_start_at(task, inputs, k);
    }
    assert forall|c: int| 0 <= c < vcpus.len() implies s.steps()[at + c] == #[trigger] vcpus[c] by {
        lemma_start_at(task, inputs, at + c);
    }
    assert(s.resumes_fully(at));
    assert(s.resumes_at(at));
}

/// What stands at a place of the script of a task.
proof fn lemma_start_at(task: Task, inputs: CaptureInputs, k: int)
    requires
        0 <= k < capture::task_script(task, inputs).len(),
    ensures
        ({
            let script = capture::task_script(task, inputs);
            let vcpus = capture::resume_script(inputs);
            let at = script.len() - vcpus.len();
            &&& at >= 0
            &&& k < at ==> capture::phase(script[k]) < 12
            &&& k >= at ==> script[k] == vcpus[k - at]
            &&& capture::step_indexed(inputs, script[k])
        }),
{
    let script = capture::task_script(task, inputs);
    let pause = capture::pause_script(inputs);
    let quiet = capture::device_script(inputs);
    let p = pause.len() as int;
    lemma_scripts(inputs);
    if k < p {
        assert(script[k] == pause[k]);
    } else if task is Capture {
        lemma_capture_script(inputs);
        lemma_capture_script_phases(inputs);
        if k < p + quiet.len() {
            assert(script[k] == quiet[k - p]);
        } else if k < script.len() - capture::resume_script(inputs).len() {
            assert(4 <= capture::phase(script[k]) <= 11);
        }
    }
}

/// Every step of the script of a task names a device, or a vCPU, that is there.
proof fn lemma_start_indexed<H: Host>(task: Task, inputs: CaptureInputs, initial: BacklogView)
    ensures
        CaptureState::<H>::start(task, inputs, initial).indexed(),
{
    let s = CaptureState::<H>::start(task, inputs, initial);
    assert forall|k: int| 0 <= k < s.pending.len() implies capture::step_indexed(
        s.inputs,
        #[trigger] s.pending[k],
    ) by {
        lemma_start_at(task, inputs, k);
    }
}

/// Where a step that comes once stands among the others like it.
spec fn place(step: CaptureStep) -> int {
    match step {
        CaptureStep::SnapshotIrqchip => 0,
        CaptureStep::ReadInterruptState => 1,
        CaptureStep::LookForStage => 2,
        CaptureStep::CreateStage => 3,
        CaptureStep::TakeDirtyBlocks => 4,
        CaptureStep::LookForPages => 5,
        CaptureStep::ReadClock => 6,
        CaptureStep::WriteContainer => 7,
        CaptureStep::LookForTarget => 8,
        CaptureStep::EnableTracking => 9,
        _ => 10,
    }
}

/// No vCPU is paused twice, and no device is handled twice.
proof fn lemma_scripts_once(inputs: CaptureInputs)
    ensures
        forall|i: int, j: int|
            0 <= i < j < capture::pause_script(inputs).len() ==> !capture::same_work(
                #[trigger] capture::pause_script(inputs)[i],
                #[trigger] capture::pause_script(inputs)[j],
            ),
        forall|i: int, j: int|
            0 <= i < j < capture::device_script(inputs).len() ==> !capture::same_work(
                #[trigger] capture::device_script(inputs)[i],
                #[trigger] capture::device_script(inputs)[j],
            ),
        forall|i: int, j: int|
            0 <= i < j < capture::resume_device_script(inputs).len() ==> !capture::same_work(
                #[trigger] capture::resume_device_script(inputs)[i],
                #[trigger] capture::resume_device_script(inputs)[j],
            ),
        forall|i: int, j: int|
            0 <= i < j < capture::resume_script(inputs).len() ==> !capture::same_work(
                #[trigger] capture::resume_script(inputs)[i],
                #[trigger] capture::resume_script(inputs)[j],
            ),
{
    assert(inputs.virtio_bases.len() == inputs.virtio_bases@.len());
    let quiet = capture::device_script(inputs);
    assert forall|i: int, j: int| 0 <= i < j < quiet.len() implies !capture::same_work(
        #[trigger] quiet[i],
        #[trigger] quiet[j],
    ) by {
        if i / 3 == j / 3 {
            assert(i % 3 != j % 3);
        }
    }
}

/// The script of a capture holds nothing twice.
pub(crate) proof fn lemma_capture_once(inputs: CaptureInputs, i: int, j: int)
    requires
        0 <= i < j < capture::task_script(Task::Capture, inputs).len(),
    ensures
        !capture::same_work(
            capture::task_script(Task::Capture, inputs)[i],
            capture::task_script(Task::Capture, inputs)[j],
        ),
{
    lemma_scripts(inputs);
    lemma_scripts_once(inputs);
    lemma_capture_script(inputs);
    lemma_capture_script_phases(inputs);
    let script = capture::task_script(Task::Capture, inputs);
    let pause = capture::pause_script(inputs);
    let quiet = capture::device_script(inputs);
    let devices = capture::resume_device_script(inputs);
    let vcpus = capture::resume_script(inputs);
    let p = pause.len() as int;
    let f = p + quiet.len();
    let x: int = if inputs.has_irqchip {
        1
    } else {
        0
    };
    let q = f + x + 9;
    let v = q + devices.len();
    if j < p {
        assert(script[i] == pause[i] && script[j] == pause[j]);
    } else if i < p {
        assert(script[i] == pause[i]);
        assert(capture::phase(script[i]) <= 2);
        if j < f {
            assert(script[j] == quiet[j - p]);
        } else if j < v {
            assert(capture::phase(script[j]) >= 4);
        } else {
            assert(script[j] == vcpus[j - v]);
        }
    } else if j < f {
        assert(script[i] == quiet[i - p] && script[j] == quiet[j - p]);
    } else if i < f {
        assert(script[i] == quiet[i - p]);
        if j >= v {
            assert(script[j] == vcpus[j - v]);
        } else {
            assert(capture::phase(script[j]) >= 4);
        }
    } else if j < q {
        assert(place(script[i]) == i - f + 1 - x);
        assert(place(script[j]) == j - f + 1 - x);
    } else if i < q {
        assert(capture::phase(script[i]) <= 9);
        if j >= v {
            assert(script[j] == vcpus[j - v]);
        }
    } else if j < v {
        assert(script[i] == devices[i - q] && script[j] == devices[j - q]);
    } else if i < v {
        assert(script[j] == vcpus[j - v]);
    } else {
        assert(script[i] == vcpus[i - v] && script[j] == vcpus[j - v]);
    }
}

/// Nothing is to be done twice at the start, and nothing depends on what was found.
proof fn lemma_start_once<H: Host>(task: Task, inputs: CaptureInputs, initial: BacklogView)
    ensures
        ({
            let s = CaptureState::<H>::start(task, inputs, initial);
            &&& s.puts_back()
            &&& s.replaces()
            &&& s.originates()
            &&& s.does_once()
            &&& s.keeps_to_plan()
            &&& s.follows()
        }),
{
    let s = CaptureState::<H>::start(task, inputs, initial);
    let script = capture::task_script(task, inputs);
    lemma_scripts(inputs);
    lemma_scripts_once(inputs);
    assert(s.steps() =~= script);
    let pause = capture::pause_script(inputs);
    let vcpus = capture::resume_script(inputs);
    let p = pause.len() as int;
    assert forall|k: int| 0 <= k < script.len() implies s.sends_at(k) && !(#[trigger] script[
    k] is PutTargetBack) && capture::origin(script[k]) is None by {
        match task {
            Task::Capture => {
                lemma_capture_script_kinds(inputs, k);
            },
            Task::ArmDirtyTracking => {
                if k < p {
                    assert(script[k] == pause[k]);
                } else if k > p {
                    assert(script[k] == vcpus[k - p - 1]);
                }
            },
        }
    }
    assert forall|k: int| 0 <= k < s.steps().len() implies #[trigger] s.undoes_at(k) by {
        assert(!(script[k] is PutTargetBack));
    }
    assert forall|k: int| 0 <= k < s.steps().len() implies #[trigger] s.originates_at(k) by {
        assert(capture::origin(script[k]) is None);
    }
    assert forall|k: int| 0 <= k < s.steps().len() implies #[trigger] s.replaces_at(k) by {
        assert(capture::origin(script[k]) is None);
    }
    assert forall|k: int| 0 <= k < s.steps().len() implies #[trigger] s.sends_at(k) by {
        assert(!(script[k] is PutTargetBack));
    }
    assert forall|i: int, j: int| 0 <= i < j < s.steps().len() implies !#[trigger] s.repeats(
        i,
        j,
    ) by {
        match task {
            Task::Capture => {
                lemma_capture_once(inputs, i, j);
            },
            Task::ArmDirtyTracking => {
                if i < p {
                    assert(script[i] == pause[i]);
                } else if i > p {
                    assert(script[i] == vcpus[i - p - 1]);
                }
                if j < p {
                    assert(script[j] == pause[j]);
                } else if j > p {
                    assert(script[j] == vcpus[j - p - 1]);
                }
            },
        }
    }
}

/// Nothing is recorded at the start, and no step of the script comes too early.
proof fn lemma_start_keeps<H: Host>(task: Task, inputs: CaptureInputs, initial: BacklogView)
    requires
        CaptureState::<H>::start(task, inputs, initial).ordered(),
    ensures
        ({
            let s = CaptureState::<H>::start(task, inputs, initial);
            &&& s.keeps_states()
            &&& s.keeps_devices()
            &&& s.pairs_target()
            &&& s.closes_publication()
            &&& s.keeps_target()
            &&& s.sources_image()
        }),
{
    let s = CaptureState::<H>::start(task, inputs, initial);
    lemma_scripts(inputs);
    let pause = capture::pause_script(inputs);
    let p = pause.len() as int;
    assert(s.steps() =~= capture::task_script(task, inputs));
    assert(s.pending =~= s.steps());
    match task {
        Task::Capture => {
            lemma_capture_script(inputs);
            lemma_capture_script_phases(inputs);
            let f = p + capture::device_script(inputs).len();
            assert forall|k: int| p <= k < s.steps().len() implies capture::phase(
                #[trigger] s.steps()[k],
            ) >= 3 by {
                if k < f {
                    assert(s.steps()[k] == capture::device_script(inputs)[k - p]);
                } else {
                    assert(capture::phase(s.steps()[k]) >= 4);
                }
            }
            assert forall|k: int| 0 <= k < s.steps().len() implies !(#[trigger] s.steps()[
            k] is WriteImage) && !(s.steps()[k] is SetTargetAside) && !(s.steps()[
            k] is RemoveOld) && !(s.steps()[k] is RenameStage) by {
                lemma_capture_script_kinds(inputs, k);
            }
            assert forall|i: int, j: int|
                0 <= i < j < s.pending.len() && #[trigger] s.pending[
                i] is LookForTarget implies capture::phase(#[trigger] s.pending[j]) >= 9 by {
                lemma_capture_script_kinds(inputs, i);
                lemma_capture_script_kinds(inputs, j);
            }
        },
        Task::ArmDirtyTracking => {
            let vcpus = capture::resume_script(inputs);
            assert forall|k: int| 0 <= k < s.steps().len() implies !(#[trigger] s.steps()[
            k] is WriteImage) && !(s.steps()[k] is SetTargetAside) && !(s.steps()[k] is RemoveOld)
                && !(s.steps()[k] is RenameStage) && !(s.steps()[k] is LookForTarget) && (k >= p
                ==> capture::phase(s.steps()[k]) >= 3) by {
                if k < p {
                    assert(s.steps()[k] == pause[k]);
                } else if k > p {
                    assert(s.steps()[k] == vcpus[k - p - 1]);
                }
            }
        },
    }
}

/// The script of a capture holds nothing that depends on what is found.
proof fn lemma_capture_script_kinds(inputs: CaptureInputs, k: int)
    requires
        0 <= k < capture::task_script(Task::Capture, inputs).len(),
    ensures
        ({
            let step = capture::task_script(Task::Capture, inputs)[k];
            let last = capture::pause_script(inputs).len() + capture::device_script(inputs).len()
                + if inputs.has_irqchip {
                8int
            } else {
                7
            };
            &&& capture::origin(step) is None
            &&& !(step is PutTargetBack)
            &&& step matches CaptureStep::Vcpu(VcpuStep::Send { event, .. }) ==> event is Pause
                || event is Resume
            &&& step is LookForTarget ==> k == last
            &&& k > last ==> capture::phase(step) >= 9
        }),
{
    lemma_scripts(inputs);
    lemma_capture_script(inputs);
    let script = capture::task_script(Task::Capture, inputs);
    let pause = capture::pause_script(inputs);
    let quiet = capture::device_script(inputs);
    let f = pause.len() + quiet.len();
    let x: int = if inputs.has_irqchip {
        1
    } else {
        0
    };
    let q = f + x + 9;
    let devices = capture::resume_device_script(inputs);
    if k < pause.len() {
        assert(script[k] == pause[k]);
    } else if k < f {
        assert(script[k] == quiet[k - pause.len()]);
    } else if q <= k < q + devices.len() {
        assert(script[k] == devices[k - q]);
    } else if k >= q + devices.len() {
        assert(script[k] == capture::resume_script(inputs)[k - q - devices.len()]);
    }
}

/// A capture starts in a valid state.
pub proof fn start_is_valid<H: Host>(task: Task, inputs: CaptureInputs, initial: BacklogView)
    ensures
        CaptureState::<H>::start(task, inputs, initial).valid(),
{
    match task {
        Task::Capture => lemma_start_capture::<H>(inputs, initial),
        Task::ArmDirtyTracking => lemma_start_arm::<H>(inputs, initial),
    }
    lemma_start_indexed::<H>(task, inputs, initial);
    lemma_start_vcpus::<H>(task, inputs, initial);
    lemma_start_keeps::<H>(task, inputs, initial);
    lemma_start_once::<H>(task, inputs, initial);
}

/// How much there is to be done at most because of a step, if nothing fails.
pub open spec fn work(step: CaptureStep) -> nat {
    match step {
        CaptureStep::LookForStage | CaptureStep::LookForPages => 2,
        CaptureStep::LookForTarget => 4,
        _ => 1,
    }
}

/// How much there is to be done at most, if nothing fails.
pub open spec fn work_left(steps: Seq<CaptureStep>) -> nat
    decreases steps.len(),
{
    if steps.len() == 0 {
        0
    } else {
        work(steps[0]) + work_left(steps.drop_first())
    }
}

/// What follows a step is less than the step was counted for.
proof fn lemma_more_work<H: Host>(base: Base, step: CaptureStep, outcome: Outcome<H>)
    ensures
        work_left(capture::follow_up(base, step, outcome)) < work(step),
{
    reveal_with_fuel(work_left, 5);
    let more = capture::follow_up(base, step, outcome);
    if more.len() == 3 {
        let a = more.drop_first();
        let b = a.drop_first();
        assert(a[0] == more[1] && b[0] == more[2]);
        assert(b.drop_first().len() == 0);
    }
}

proof fn lemma_work_adds(a: Seq<CaptureStep>, b: Seq<CaptureStep>)
    ensures
        work_left(a + b) == work_left(a) + work_left(b),
    decreases a.len(),
{
    if a.len() == 0 {
        assert(a + b =~= b);
    } else {
        assert((a + b).drop_first() =~= a.drop_first() + b);
        lemma_work_adds(a.drop_first(), b);
    }
}

/// Fewer steps are less work.
proof fn lemma_work_prefix(a: Seq<CaptureStep>, n: int)
    requires
        0 <= n <= a.len(),
    ensures
        work_left(a.take(n)) <= work_left(a),
{
    assert(a =~= a.take(n) + a.skip(n));
    lemma_work_adds(a.take(n), a.skip(n));
}

/// How many phases there are from the next step on.
pub open spec fn phases_left<H: Host>(s: CaptureState<H>) -> int {
    if s.finished() {
        0
    } else {
        14 - capture::phase(s.pending[0])
    }
}

/// A capture comes to an end: with every step, the phases that are left become
/// fewer, or they do not become more and the work that is left becomes less.
pub proof fn accept_makes_progress<H: Host>(s: CaptureState<H>, outcome: Outcome<H>)
    requires
        s.valid(),
        !s.finished(),
        capture::fits(s.pending[0], outcome),
    ensures
        ({
            let t = s.accept(outcome);
            ||| 0 <= phases_left(t) < phases_left(s)
            ||| 0 <= phases_left(t) <= phases_left(s) && work_left(t.pending) < work_left(s.pending)
        }),
{
    let t = s.accept(outcome);
    let d = s.history.len() as int;
    let base = s.backlog().base;
    let step = s.pending[0];
    lemma_more(s.task, s.inputs, base, step, outcome);
    if !capture::diverts(s.inputs, step, outcome) {
        let more = capture::follow_up(base, step, outcome);
        let rest = s.pending.drop_first();
        lemma_work_adds(more, rest);
        lemma_more_work(base, step, outcome);
        if more.len() == 0 && !t.finished() {
            assert(t.pending[0] == s.pending[1]);
            assert(s.steps()[d] == s.pending[0]);
            assert(s.steps()[d + 1] == s.pending[1]);
            assert(capture::phase(s.steps()[d]) <= capture::phase(s.steps()[d + 1]));
        } else if more.len() > 0 {
            assert(t.pending[0] == more[0]);
        }
    } else if !t.finished() {
        assert(t.pending[0] == capture::recovery(s.task, s.inputs, step)[0]);
        if capture::phase(step) >= 12 {
            let at = choose|at: int| s.resumes_at(at);
            lemma_begun(s, at);
            lemma_cut(s, outcome, at);
            let rest = s.pending.drop_first();
            assert forall|k: int| 0 <= k < t.pending.len() implies #[trigger] t.pending[k]
                == rest[k] by {
                assert(t.steps()[d + 1 + k] == s.steps()[d + 1 + k]);
            }
            assert(t.pending =~= rest.take(t.pending.len() as int));
            lemma_work_prefix(rest, t.pending.len() as int);
            assert(t.steps()[d + 1] == s.steps()[d + 1]);
        }
    }
}

/// This step was done.
pub open spec fn performed<H: Host>(s: CaptureState<H>, step: CaptureStep) -> bool {
    exists|k: int| 0 <= k < s.history.len() && (#[trigger] s.history[k]).step == step
}

/// Where the exchange that lets the vCPUs run on stands in a run.
proof fn lemma_resumption<H: Host>(s: CaptureState<H>) -> (at: int)
    requires
        s.valid(),
    ensures
        s.resumes_at(at),
{
    choose|at: int| s.resumes_at(at)
}

/// Every vCPU is told to run on before a capture ends, however it goes.
pub proof fn vcpus_are_resumed<H: Host>(s: CaptureState<H>, vcpu: int)
    requires
        s.valid(),
        s.finished(),
        s.task is Capture,
        0 <= vcpu < s.inputs.vcpu_count,
    ensures
        performed(
            s,
            CaptureStep::Vcpu(VcpuStep::Send { vcpu: vcpu as usize, event: VcpuEvent::Resume }),
        ),
{
    let at = lemma_resumption(s);
    lemma_told(s, at, vcpu);
}

/// Which step tells a vCPU to run on.
proof fn lemma_told<H: Host>(s: CaptureState<H>, at: int, vcpu: int)
    requires
        s.resumes_at(at),
        s.finished(),
        0 <= vcpu < s.inputs.vcpu_count,
        at + vcpu < s.steps().len() || s.task is Capture,
    ensures
        performed(
            s,
            CaptureStep::Vcpu(VcpuStep::Send { vcpu: vcpu as usize, event: VcpuEvent::Resume }),
        ),
{
    let script = capture::resume_script(s.inputs);
    lemma_scripts(s.inputs);
    assert(s.steps()[at + vcpu] == script[vcpu]);
    assert(s.history[at + vcpu].step == script[vcpu]);
}

/// Before arming ends, every vCPU is told to run on, unless an earlier one could not be
/// told.
pub proof fn arming_resumes_vcpus<H: Host>(s: CaptureState<H>, vcpu: int)
    requires
        s.valid(),
        s.finished(),
        0 <= vcpu < s.inputs.vcpu_count,
    ensures
        performed(
            s,
            CaptureStep::Vcpu(VcpuStep::Send { vcpu: vcpu as usize, event: VcpuEvent::Resume }),
        ) || exists|k: int|
            0 <= k < s.history.len() && (s.history[k].step matches CaptureStep::Vcpu(
                VcpuStep::Send { vcpu: earlier, event: VcpuEvent::Resume },
            ) && earlier < vcpu) && #[trigger] s.refused(k) is Some,
{
    let at = lemma_resumption(s);
    if at + vcpu < s.steps().len() {
        lemma_told(s, at, vcpu);
    } else {
        let script = capture::resume_script(s.inputs);
        lemma_scripts(s.inputs);
        let b = choose|b: int| s.resumes_in_part(at, b);
        assert(s.steps()[at + b] == script[b]);
        assert(s.history[at + b].step == script[b]);
        assert(s.refused(at + b) is Some);
    }
}

/// Once a vCPU could not be told to run on, or has not answered as it should, no answer is
/// awaited any more; a capture still tells the other vCPUs, and nothing else is done.
pub proof fn failed_resumption_awaits_nothing<H: Host>(s: CaptureState<H>, failed: int)
    requires
        s.valid(),
        0 <= failed < s.history.len(),
        s.refused(failed) is Some,
        capture::phase(s.history[failed].step) >= 12,
    ensures
        forall|k: int|
            failed < k < s.steps().len() ==> {
                &&& s.task is Capture
                &&& #[trigger] s.steps()[k] matches CaptureStep::Vcpu(
                    VcpuStep::Send { event: VcpuEvent::Resume, .. },
                )
            },
{
    let at = lemma_resumption(s);
    lemma_scripts(s.inputs);
    let script = capture::resume_script(s.inputs);
    assert(s.steps()[failed] == s.history[failed].step);
    assert(at <= failed);
    let b = choose|b: int| s.resumes_in_part(at, b);
    assert(at + b <= failed) by {
        if failed < at + b {
            assert(s.refused(failed) is None);
        }
    }
    assert forall|k: int| failed < k < s.steps().len() implies {
        &&& s.task is Capture
        &&& #[trigger] s.steps()[k] matches CaptureStep::Vcpu(
            VcpuStep::Send { event: VcpuEvent::Resume, .. },
        )
    } by {
        let c = k - at;
        assert(s.steps()[at + c] == script[c]);
    }
}

/// Unless a vCPU could not be told to run on, or has not answered as it should, every vCPU
/// has been told and its answer awaited when a run ends.
pub proof fn answers_are_awaited<H: Host>(s: CaptureState<H>)
    requires
        s.valid(),
        s.finished(),
        forall|k: int|
            0 <= k < s.history.len() && capture::phase(s.history[k].step) >= 12
                ==> #[trigger] s.refused(k) is None,
    ensures
        forall|i: int|
            0 <= i < 2 * s.inputs.vcpu_count ==> #[trigger] performed(
                s,
                capture::resume_script(s.inputs)[i],
            ),
{
    let at = lemma_resumption(s);
    lemma_scripts(s.inputs);
    let script = capture::resume_script(s.inputs);
    if !s.resumes_fully(at) {
        let b = choose|b: int| s.resumes_in_part(at, b);
        assert(s.steps()[at + b] == script[b]);
        assert(s.history[at + b].step == script[b]);
        assert(s.refused(at + b) is None);
    }
    assert forall|i: int| 0 <= i < script.len() implies #[trigger] performed(s, script[i]) by {
        assert(s.steps()[at + i] == script[i]);
        assert(s.history[at + i].step == script[i]);
    }
}

/// Nothing is done twice, but that a vCPU is forced out of the guest as often as it is
/// listed.
pub proof fn nothing_is_done_twice<H: Host>(s: CaptureState<H>, i: int, j: int)
    requires
        s.valid(),
        0 <= i < j < s.history.len(),
    ensures
        !capture::same_work(s.history[i].step, s.history[j].step),
{
    assert(!s.repeats(i, j));
    assert(s.steps()[i] == s.history[i].step && s.steps()[j] == s.history[j].step);
}

/// The `k`-th step done sends a message to this vCPU.
pub open spec fn tells<H: Host>(s: CaptureState<H>, k: int, vcpu: int) -> bool {
    s.history[k].step matches CaptureStep::Vcpu(VcpuStep::Send { vcpu: told, .. }) && told == vcpu
}

/// A vCPU is sent at most two messages, and if it is sent two, the first is `Pause` and
/// the second is `Resume`.
pub proof fn vcpus_are_told_in_turn<H: Host>(s: CaptureState<H>, vcpu: int, i: int, j: int)
    requires
        s.valid(),
        0 <= i < j < s.history.len(),
        tells(s, i, vcpu),
        tells(s, j, vcpu),
    ensures
        s.history[i].step == CaptureStep::Vcpu(
            VcpuStep::Send { vcpu: vcpu as usize, event: VcpuEvent::Pause },
        ),
        s.history[j].step == CaptureStep::Vcpu(
            VcpuStep::Send { vcpu: vcpu as usize, event: VcpuEvent::Resume },
        ),
{
    assert(!s.repeats(i, j));
    assert(s.sends_at(i) && s.sends_at(j));
    assert(s.steps()[i] == s.history[i].step && s.steps()[j] == s.history[j].step);
    assert(capture::phase(s.steps()[i]) <= capture::phase(s.steps()[j]));
}

/// A run that reports success has sent every vCPU exactly `Pause`, then `Resume`.
pub proof fn success_tells_each_vcpu<H: Host>(s: CaptureState<H>, vcpu: int)
    requires
        s.valid(),
        s.finished(),
        s.failure is None,
        0 <= vcpu < s.inputs.vcpu_count,
    ensures
        exists|i: int, j: int|
            #![trigger s.history[i], s.history[j]]
            {
                &&& 0 <= i < j < s.history.len()
                &&& s.history[i].step == CaptureStep::Vcpu(
                    VcpuStep::Send { vcpu: vcpu as usize, event: VcpuEvent::Pause },
                )
                &&& s.history[j].step == CaptureStep::Vcpu(
                    VcpuStep::Send { vcpu: vcpu as usize, event: VcpuEvent::Resume },
                )
                &&& forall|k: int|
                    0 <= k < s.history.len() && #[trigger] tells(s, k, vcpu) ==> k == i || k == j
            },
{
    lemma_scripts(s.inputs);
    let pause = capture::pause_script(s.inputs);
    assert(s.starts_with(pause));
    assert(s.steps()[vcpu] == pause[vcpu]);
    assert(s.history[vcpu].step == pause[vcpu]);
    answers_are_awaited(s);
    let step = capture::resume_script(s.inputs)[vcpu];
    assert(performed(s, step));
    let j = choose|k: int| 0 <= k < s.history.len() && (#[trigger] s.history[k]).step == step;
    assert(s.steps()[vcpu] == s.history[vcpu].step && s.steps()[j] == s.history[j].step);
    assert(vcpu < j) by {
        if j < vcpu {
            assert(capture::phase(s.steps()[j]) <= capture::phase(s.steps()[vcpu]));
        }
    }
    assert forall|k: int| 0 <= k < s.history.len() && #[trigger] tells(s, k, vcpu) implies k == vcpu
        || k == j by {
        assert(tells(s, vcpu, vcpu) && tells(s, j, vcpu));
        if k < vcpu {
            vcpus_are_told_in_turn(s, vcpu, k, vcpu);
        } else if vcpu < k < j {
            vcpus_are_told_in_turn(s, vcpu, vcpu, k);
            vcpus_are_told_in_turn(s, vcpu, k, j);
        } else if k > j {
            vcpus_are_told_in_turn(s, vcpu, j, k);
        }
    }
}

/// Once a capture has touched anything but the vCPUs, every device is told to
/// run on before it ends, however it goes.
pub proof fn devices_are_resumed<H: Host>(s: CaptureState<H>, device: int)
    requires
        s.valid(),
        s.finished(),
        s.task is Capture,
        exists|k: int|
            0 <= k < s.history.len() && 3 <= capture::phase((#[trigger] s.history[k]).step) <= 11,
        0 <= device < s.inputs.virtio_bases@.len(),
    ensures
        performed(s, CaptureStep::ResumeDevice { device: device as usize }),
{
    let script = capture::resume_device_script(s.inputs);
    let touched = choose|k: int|
        0 <= k < s.history.len() && 3 <= capture::phase((#[trigger] s.history[k]).step) <= 11;
    assert(3 <= capture::phase(s.steps()[touched]) <= 11);
    assert(s.reaches(3, 11));
    let at = choose|at: int| s.holds_at(script, 11, at);
    assert(s.steps()[at + device] == script[device]);
    assert(s.history[at + device].step == script[device]);
}

/// Whatever a capture does besides the exchange with the vCPUs, and up to the
/// resumption, is done while every vCPU stands still: each has reported its
/// state, which is kept at its position, and none was told to run on.
pub proof fn captured_while_frozen<H: Host>(s: CaptureState<H>)
    requires
        s.valid(),
        !s.finished(),
        3 <= capture::phase(s.pending[0]) <= 9,
    ensures
        s.recorded().vcpu_states.len() == s.inputs.vcpu_count,
        forall|i: int|
            0 <= i < s.inputs.vcpu_count ==> {
                let k = s.inputs.vcpu_count + s.inputs.vcpu_ids@.len() + i;
                &&& k < s.history.len()
                &&& s.history[k].step == CaptureStep::Vcpu(
                    VcpuStep::Receive { vcpu: i as usize, expected: Expected::Paused },
                )
                &&& s.history[k].outcome == Outcome::<H>::Reply(
                    Ok(VcpuResponse::Paused(#[trigger] s.recorded().vcpu_states[i])),
                )
            },
        forall|k: int|
            0 <= k < s.history.len() ==> capture::phase((#[trigger] s.history[k]).step) <= 9,
{
    let d = s.history.len() as int;
    let pause = capture::pause_script(s.inputs);
    lemma_scripts(s.inputs);
    assert(s.steps()[d] == s.pending[0]);
    assert(s.reaches(3, 11));
    assert(s.starts_with(pause));
    assert(d >= pause.len()) by {
        if d < pause.len() {
            assert(s.steps()[d] == pause[d]);
        }
    }
    assert forall|i: int| 0 <= i < s.inputs.vcpu_count implies {
        let k = s.inputs.vcpu_count + s.inputs.vcpu_ids@.len() + i;
        &&& k < s.history.len()
        &&& s.history[k].step == CaptureStep::Vcpu(
            VcpuStep::Receive { vcpu: i as usize, expected: Expected::Paused },
        )
        &&& s.history[k].outcome == Outcome::<H>::Reply(
            Ok(VcpuResponse::Paused(#[trigger] s.recorded().vcpu_states[i])),
        )
    } by {
        let k = s.inputs.vcpu_count + s.inputs.vcpu_ids@.len() + i;
        assert(s.steps()[k] == pause[k]);
        assert(s.history[k].step == pause[k]);
    }
    assert forall|k: int| 0 <= k < s.history.len() implies capture::phase(
        (#[trigger] s.history[k]).step,
    ) <= 9 by {
        assert(s.steps()[k] == s.history[k].step);
        assert(capture::phase(s.steps()[k]) <= capture::phase(s.steps()[d]));
    }
}

/// A capture looks at interrupts and memory, and writes, only once every device
/// was paused and serialized, and before any is told to run on.
pub proof fn copied_while_quiet<H: Host>(s: CaptureState<H>, device: int)
    requires
        s.valid(),
        !s.finished(),
        s.task is Capture,
        4 <= capture::phase(s.pending[0]) <= 9,
        0 <= device < s.inputs.virtio_bases@.len(),
    ensures
        exists|k: int|
            0 <= k < s.history.len() && s.history[k].step == (CaptureStep::PauseDevice {
                device: device as usize,
            }) && #[trigger] s.refused(k) is None,
        exists|k: int|
            0 <= k < s.history.len() && s.history[k].step == (CaptureStep::SerializeDevice {
                device: device as usize,
            }) && #[trigger] s.refused(k) is None,
        forall|k: int|
            0 <= k < s.history.len() ==> !((#[trigger] s.history[k]).step is ResumeDevice),
{
    let pause = capture::pause_script(s.inputs);
    let quiet = capture::device_script(s.inputs);
    let script = pause + quiet;
    lemma_scripts(s.inputs);
    lemma_quiet(s);
    let k = pause.len() + 3 * device;
    assert(script[k] == quiet[3 * device]);
    assert(script[k + 1] == quiet[3 * device + 1]);
    assert(s.steps()[k] == script[k]);
    assert(s.steps()[k + 1] == script[k + 1]);
    assert(s.refused(k) is None);
    assert(s.refused(k + 1) is None);
    captured_while_frozen(s);
}

/// Past the devices, all of them were paused, serialized and recorded.
pub(crate) proof fn lemma_quiet<H: Host>(s: CaptureState<H>)
    requires
        s.valid(),
        !s.finished(),
        s.task is Capture,
        4 <= capture::phase(s.pending[0]) <= 9,
    ensures
        ({
            let script = capture::pause_script(s.inputs) + capture::device_script(s.inputs);
            s.starts_with(script) && s.history.len() >= script.len()
        }),
{
    let d = s.history.len() as int;
    let script = capture::pause_script(s.inputs) + capture::device_script(s.inputs);
    lemma_scripts(s.inputs);
    assert(s.steps()[d] == s.pending[0]);
    assert(s.reaches(4, 10));
    assert(d >= script.len()) by {
        if d < script.len() {
            assert(s.steps()[d] == script[d]);
        }
    }
}

/// What is written of the devices is what they gave: there is one section per device,
/// with its base address, the state that it was serialized to, and the transport that
/// was read of it.
pub proof fn sections_are_what_devices_gave<H: Host>(s: CaptureState<H>)
    requires
        s.valid(),
        !s.finished(),
        s.task is Capture,
        4 <= capture::phase(s.pending[0]) <= 9,
    ensures
        s.recorded().virtio.len() == s.inputs.virtio_bases@.len(),
        forall|i: int|
            0 <= i < s.inputs.virtio_bases@.len() ==> #[trigger] s.keeps_device(i),
{
    lemma_scripts(s.inputs);
    lemma_quiet(s);
}

/// Nothing was refused before a step that publishes.
proof fn lemma_unfailed<H: Host>(s: CaptureState<H>)
    requires
        s.valid(),
        !s.finished(),
        capture::phase(s.pending[0]) <= 8,
    ensures
        s.failure is None,
{
    let d = s.history.len() as int;
    assert(s.steps()[d] == s.pending[0]);
    if let Some(failure) = s.failure {
        let k = choose|k: int|
            0 <= k < s.history.len() && #[trigger] s.refused(k) == Some(failure) && (forall|j: int|
                0 <= j < k ==> #[trigger] s.refused(j) is None);
        assert(s.steps()[k] == s.history[k].step);
        assert(capture::phase(s.steps()[k]) <= capture::phase(s.steps()[d]));
        if s.diverted(k) {
            assert(capture::phase(s.steps()[d]) >= 10);
        } else {
            assert(s.steps()[k] is RemoveOld);
            assert(capture::phase(s.steps()[d]) >= 9);
        }
    }
}

/// The published snapshot is set aside or replaced only once the memory image and
/// the container of the new one are written.
pub proof fn published_when_complete<H: Host>(s: CaptureState<H>)
    requires
        s.valid(),
        !s.finished(),
        s.task is Capture,
        s.pending[0] is SetTargetAside || s.pending[0] is RenameStage,
    ensures
        exists|k: int|
            0 <= k < s.history.len() && s.history[k].step is WriteImage && #[trigger] s.refused(
                k,
            ) is None,
        exists|k: int|
            0 <= k < s.history.len() && s.history[k].step is WriteContainer
                && #[trigger] s.refused(k) is None,
{
    let d = s.history.len() as int;
    lemma_unfailed(s);
    assert(s.steps()[d] == s.pending[0]);
    assert(!s.pending.contains(CaptureStep::LookForPages)) by {
        if s.pending.contains(CaptureStep::LookForPages) {
            let k = choose|k: int|
                0 <= k < s.pending.len() && s.pending[k] == CaptureStep::LookForPages;
            assert(s.steps()[d + k] == CaptureStep::LookForPages);
        }
    }
    let i = choose|k: int| 0 <= k < s.steps().len() && #[trigger] s.steps()[k] is WriteImage;
    if i >= d {
        assert(capture::phase(s.steps()[d]) <= capture::phase(s.steps()[i]));
    }
    assert(s.history[i].step == s.steps()[i]);
    assert(s.refused(i) is None);
    let c = choose|k: int|
        0 <= k < s.steps().len() && s.steps()[k] == CaptureStep::WriteContainer;
    if c >= d {
        assert(capture::phase(s.steps()[d]) <= capture::phase(s.steps()[c]));
    }
    assert(s.history[c].step == s.steps()[c]);
    assert(s.refused(c) is None);
}

/// A capture that fails before it publishes never touches the published
/// snapshot.
pub proof fn failure_keeps_published<H: Host>(s: CaptureState<H>, failed: int)
    requires
        s.valid(),
        0 <= failed < s.history.len(),
        s.refused(failed) is Some,
        capture::phase(s.history[failed].step) < 8,
    ensures
        forall|k: int|
            0 <= k < s.steps().len() ==> !(#[trigger] s.steps()[k] is SetTargetAside) && !(
            s.steps()[k] is RenameStage) && !(s.steps()[k] is RemoveOld),
{
    assert(s.diverted(failed));
    assert(s.steps()[failed] == s.history[failed].step);
    assert forall|k: int| 0 <= k < s.steps().len() implies !(#[trigger] s.steps()[
    k] is SetTargetAside) && !(s.steps()[k] is RenameStage) && !(s.steps()[k] is RemoveOld) by {
        if k < failed {
            assert(capture::phase(s.steps()[k]) <= capture::phase(s.steps()[failed]));
        }
    }
}

/// What was set aside could not be put back.
pub open spec fn stranded<H: Host>(s: CaptureState<H>) -> bool {
    exists|k: int|
        0 <= k < s.history.len() && s.history[k].step is PutTargetBack && #[trigger] s.refused(
            k,
        ) is Some
}

/// Publishing is atomic: when a capture ends, the directory to publish to holds the old
/// snapshot or the new one, unless the old one was set aside and could not be put
/// back. While the old one is set aside, it is replaced or put back at once.
pub proof fn publishing_is_atomic<H: Host>(s: CaptureState<H>)
    requires
        s.valid(),
        !stranded(s),
    ensures
        s.finished() ==> s.published() is Before || s.published() is New,
        s.published() is Aside ==> s.pending[0] is PutTargetBack || s.pending[0] is RenameStage,
{
}

/// The `k`-th step done has set the old snapshot aside.
pub open spec fn set_aside<H: Host>(s: CaptureState<H>, k: int) -> bool {
    &&& 0 <= k < s.history.len()
    &&& s.history[k].step is SetTargetAside
    &&& s.history[k].outcome is Done
}

/// A step that was done before another one was not refused, unless that one undoes.
proof fn lemma_went_well<H: Host>(s: CaptureState<H>, k: int, later: int)
    requires
        s.valid(),
        0 <= k < s.history.len(),
        k < later < s.steps().len(),
        s.history[k].step is SetTargetAside || s.history[k].step is RenameStage,
        capture::phase(s.steps()[later]) < 10,
    ensures
        s.history[k].outcome is Done,
{
    assert(!s.diverted(k));
    assert(capture::fits(s.history[k].step, s.history[k].outcome));
}

/// What is removed besides the staging directory is what this capture has itself set
/// aside, and only once the new snapshot is in its place.
pub proof fn removed_when_replaced<H: Host>(s: CaptureState<H>)
    requires
        s.valid(),
        !s.finished(),
        s.pending[0] is RemoveOld,
    ensures
        s.published() is New,
        set_aside(s, s.history.len() - 2),
{
    let d = s.history.len() as int;
    assert(s.steps()[d] == s.pending[0]);
    assert(s.replaces_at(d));
    assert(s.replaces_at(d - 1));
    assert(s.steps()[d - 2] == s.history[d - 2].step);
    lemma_went_well(s, d - 2, d);
}

/// What is put back is what this capture has itself set aside.
pub proof fn put_back_when_set_aside<H: Host>(s: CaptureState<H>)
    requires
        s.valid(),
        !s.finished(),
        s.pending[0] is PutTargetBack,
    ensures
        set_aside(s, s.history.len() - 2),
{
    let d = s.history.len() as int;
    assert(s.steps()[d] == s.pending[0]);
    assert(s.undoes_at(d));
    assert(s.steps()[d - 1] == s.history[d - 1].step);
    assert(s.replaces_at(d - 1));
    assert(s.steps()[d - 2] == s.history[d - 2].step);
    lemma_went_well(s, d - 2, d - 1);
}

/// A snapshot is new in its place only if the stage was renamed.
proof fn lemma_new<H: Host>(history: Seq<Performed<H>>)
    requires
        capture::published_after(history) is New,
    ensures
        exists|k: int|
            0 <= k < history.len() && (#[trigger] history[k]).step is RenameStage
                && history[k].outcome is Done,
    decreases history.len(),
{
    let last = history.len() - 1;
    if !(history[last].step is RenameStage && history[last].outcome is Done) {
        let before = history.drop_last();
        lemma_new(before);
        let k = choose|k: int|
            0 <= k < before.len() && (#[trigger] before[k]).step is RenameStage
                && before[k].outcome is Done;
        assert(history[k] == before[k]);
    }
}

/// A failure in any step up to the rename of the stage, that rename included, leaves
/// the old snapshot where it was, unless it was set aside and could not be put back.
pub proof fn failed_publication_keeps_old<H: Host>(s: CaptureState<H>, failed: int)
    requires
        s.valid(),
        s.finished(),
        !stranded(s),
        0 <= failed < s.history.len(),
        s.refused(failed) is Some,
        capture::phase(s.history[failed].step) <= 8,
        !(s.history[failed].step is RemoveOld),
    ensures
        s.published() is Before,
{
    assert(s.diverted(failed));
    assert(s.steps()[failed] == s.history[failed].step);
    if s.published() is New {
        lemma_new(s.history);
        let k = choose|k: int|
            0 <= k < s.history.len() && (#[trigger] s.history[k]).step is RenameStage
                && s.history[k].outcome is Done;
        assert(s.steps()[k] == s.history[k].step);
        if k < failed {
            assert(s.steps()[failed] is RemoveOld || capture::phase(s.steps()[failed]) >= 9);
        } else if failed < k {
            assert(capture::phase(s.steps()[k]) >= 10);
        } else {
            assert(capture::refusal(s.inputs, s.history[k].step, s.history[k].outcome) is None);
        }
    }
}

/// Once the stage is renamed and nothing is undone, the new snapshot stays in place.
proof fn lemma_stays_new<H: Host>(history: Seq<Performed<H>>, k: int)
    requires
        0 <= k < history.len(),
        history[k].step is RenameStage,
        history[k].outcome is Done,
        forall|j: int|
            k < j < history.len() ==> !((#[trigger] history[j]).step is SetTargetAside) && !(
            history[j].step is PutTargetBack),
    ensures
        capture::published_after(history) is New,
    decreases history.len(),
{
    if k < history.len() - 1 {
        let before = history.drop_last();
        assert(before[k] == history[k]);
        assert forall|j: int| k < j < before.len() implies !((#[trigger] before[
        j]).step is SetTargetAside) && !(before[j].step is PutTargetBack) by {
            assert(before[j] == history[j]);
        }
        lemma_stays_new(before, k);
        assert(!(history[history.len() - 1].step is SetTargetAside));
    }
}

/// Once the stage is renamed, the new snapshot stays in place, whether or not the old one
/// can be removed, the tracking be started and everything be resumed.
pub proof fn new_snapshot_stands<H: Host>(s: CaptureState<H>, renamed: int)
    requires
        s.valid(),
        0 <= renamed < s.history.len(),
        s.history[renamed].step is RenameStage,
        s.refused(renamed) is None,
    ensures
        s.published() is New,
{
    assert(capture::fits(s.history[renamed].step, s.history[renamed].outcome));
    assert(s.steps()[renamed] == s.history[renamed].step);
    assert forall|j: int| renamed < j < s.history.len() implies !((#[trigger] s.history[
    j]).step is SetTargetAside) && !(s.history[j].step is PutTargetBack) by {
        assert(s.steps()[j] == s.history[j].step);
        assert(s.steps()[j] is RemoveOld || capture::phase(s.steps()[j]) >= 9);
        if s.steps()[j] is PutTargetBack {
            assert(s.undoes_at(j));
            assert(s.steps()[j - 1] == s.history[j - 1].step);
            assert(s.diverted(renamed) == false);
            if renamed < j - 1 {
                assert(s.steps()[j - 1] is RemoveOld || capture::phase(s.steps()[j - 1]) >= 9);
            }
        }
    }
    lemma_stays_new(s.history, renamed);
}

/// The staging directory is never discarded while the old snapshot is set aside in it.
pub proof fn old_is_never_discarded<H: Host>(s: CaptureState<H>)
    requires
        s.valid(),
        !s.finished(),
        s.pending[0] is DiscardStage,
    ensures
        !(s.published() is Aside),
{
    let d = s.history.len() as int;
    assert(s.steps()[d] == s.pending[0]);
    if s.published() is Aside {
        let k = choose|k: int|
            0 <= k < s.history.len() && s.history[k].step is PutTargetBack && #[trigger] s.refused(
                k,
            ) is Some;
        assert(s.diverted(k));
        assert(capture::phase(s.steps()[d]) >= 11);
    }
}

/// A capture that reports success has written, published and re-armed, has let
/// every device and every vCPU run on, and has their word for it.
pub proof fn success_is_complete<H: Host>(s: CaptureState<H>)
    requires
        s.valid(),
        s.finished(),
        s.task is Capture,
        s.failure is None,
    ensures
        forall|k: int| 0 <= k < s.history.len() ==> #[trigger] s.refused(k) is None,
        exists|k: int| 0 <= k < s.history.len() && (#[trigger] s.history[k]).step is WriteImage,
        performed(s, CaptureStep::WriteContainer),
        s.published() is New,
        performed(s, CaptureStep::EnableTracking),
        forall|i: int|
            0 <= i < s.inputs.virtio_bases@.len() ==> #[trigger] performed(
                s,
                capture::resume_device_script(s.inputs)[i],
            ),
        forall|i: int|
            0 <= i < 2 * s.inputs.vcpu_count ==> #[trigger] performed(
                s,
                capture::resume_script(s.inputs)[i],
            ),
{
    lemma_scripts(s.inputs);
    assert(s.pending =~= Seq::empty());
    assert forall|x: CaptureStep| #[trigger] s.steps().contains(x) implies performed(s, x) by {
        let k = choose|k: int| 0 <= k < s.steps().len() && s.steps()[k] == x;
        assert(s.history[k].step == x);
    }
    let i = choose|k: int| 0 <= k < s.steps().len() && #[trigger] s.steps()[k] is WriteImage;
    assert(s.history[i].step is WriteImage);
    let r = choose|k: int| 0 <= k < s.steps().len() && #[trigger] s.steps()[k] is RenameStage;
    assert(s.history[r].step is RenameStage);
    assert(s.refused(r) is None);
    new_snapshot_stands(s, r);
    let devices = capture::resume_device_script(s.inputs);
    let at = choose|at: int| s.holds_at(devices, 11, at);
    assert forall|i: int| 0 <= i < devices.len() implies #[trigger] performed(s, devices[i]) by {
        assert(s.steps()[at + i] == devices[i]);
        assert(s.history[at + i].step == devices[i]);
    }
    answers_are_awaited(s);
}

/// Arming that reports success has started the tracking, and has let every vCPU run
/// on and has their word for it.
pub proof fn success_is_armed<H: Host>(s: CaptureState<H>)
    requires
        s.valid(),
        s.finished(),
        s.task is ArmDirtyTracking,
        s.failure is None,
    ensures
        forall|k: int| 0 <= k < s.history.len() ==> #[trigger] s.refused(k) is None,
        performed(s, CaptureStep::EnableTracking),
        forall|i: int|
            0 <= i < 2 * s.inputs.vcpu_count ==> #[trigger] performed(
                s,
                capture::resume_script(s.inputs)[i],
            ),
{
    lemma_scripts(s.inputs);
    let x = CaptureStep::EnableTracking;
    let k = choose|k: int| 0 <= k < s.steps().len() && s.steps()[k] == x;
    assert(s.history[k].step == x);
    answers_are_awaited(s);
}

/// When a step that fills or publishes the staging directory fails, that directory is
/// discarded; the old snapshot is put back out of it first if it was set aside, and if that
/// cannot be done the directory is left alone.
pub proof fn failure_discards_stage<H: Host>(s: CaptureState<H>, failed: int)
    requires
        s.valid(),
        s.task is Capture,
        0 <= failed < s.history.len(),
        s.refused(failed) is Some,
        6 <= capture::phase(s.history[failed].step) <= 9,
        !(s.history[failed].step is RemoveOld),
    ensures
        ({
            ||| failed + 1 < s.steps().len() && s.steps()[failed + 1] is DiscardStage
            ||| failed + 1 < s.steps().len() && s.steps()[failed + 1] is PutTargetBack && (failed
                + 1 < s.history.len() && s.refused(failed + 1) is Some || failed + 2
                < s.steps().len() && s.steps()[failed + 2] is DiscardStage)
        }),
{
    assert(s.diverted(failed));
}

/// What a capture returns is what the first step that failed amounts to; it
/// returns success only if no step failed.
pub proof fn result_is_first_failure<H: Host>(s: CaptureState<H>)
    requires
        s.valid(),
    ensures
        s.failure is None <==> forall|k: int|
            0 <= k < s.history.len() ==> #[trigger] s.refused(k) is None,
        s.failure is Some ==> exists|k: int|
            0 <= k < s.history.len() && #[trigger] s.refused(k) == s.failure && (forall|j: int|
                0 <= j < k ==> #[trigger] s.refused(j) is None),
{
    if s.failure is Some {
        let k = choose|k: int|
            0 <= k < s.history.len() && #[trigger] s.refused(k) == s.failure && (forall|j: int|
                0 <= j < k ==> #[trigger] s.refused(j) is None);
        assert(s.refused(k) is Some);
    }
}

} // verus!
