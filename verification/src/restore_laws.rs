//! What holds of every restore.
use crate::error::FailureView;
use crate::inputs::CaptureInputs;
use crate::restore;
use crate::restore::{Performed, RestoreOutcome, RestoreState, RestoreStep};
use crate::section_laws;
use crate::sections;
use crate::sections::{
    MetaSection, Payload, RecordedView, Section, SectionId, VirtioMmioSection,
};
use crate::vcpu;
use crate::vcpu::{Expected, VcpuEvent, VcpuResponse, VcpuStep};
use vstd::prelude::*;

verus! {

/// Only one position is the first.
pub(crate) proof fn lemma_stands_first(bases: Seq<u64>, base: u64, i: int)
    requires
        restore::stands_first(bases, base, i),
        bases.len() <= usize::MAX,
    ensures
        restore::device_of(bases, base) == Some(i as usize),
{
    let k = choose|k: int| restore::stands_first(bases, base, k);
    assert(restore::stands_first(bases, base, k));
    if k < i {
        assert(bases[k] != base);
    } else if i < k {
        assert(bases[i] != base);
    }
}

/// A restore starts in a valid state.
pub proof fn start_is_valid<E>(inputs: CaptureInputs)
    ensures
        RestoreState::<E>::start(inputs).valid(),
{
    let s = RestoreState::<E>::start(inputs);
    assert(s.steps() =~= seq![RestoreStep::LoadMeta]);
}

/// Every step leaves a valid state.
pub proof fn accept_keeps_valid<E>(s: RestoreState<E>, outcome: RestoreOutcome<E>)
    requires
        s.valid(),
        !s.finished(),
        restore::fits(s.pending[0], outcome),
    ensures
        s.accept(outcome).valid(),
{
    lemma_accept_shape(s, outcome);
    lemma_accept_indexed(s, outcome);
    lemma_accept_ordered(s, outcome);
    lemma_accept_headed(s, outcome);
    lemma_accept_stops(s, outcome);
    lemma_accept_follows(s, outcome);
    lemma_accept_named(s, outcome);
    lemma_accept_script(s, outcome);
    lemma_accept_derives(s, outcome);
    lemma_accept_once(s, outcome);
}

/// The steps after a step was done: what came before, the step, what follows from
/// it, and the rest.
proof fn lemma_accept_shape<E>(s: RestoreState<E>, outcome: RestoreOutcome<E>)
    requires
        s.valid(),
        !s.finished(),
    ensures
        ({
            let t = s.accept(outcome);
            let d = s.history.len() as int;
            let more = restore::follow_up(s.inputs, s.pending[0], outcome);
            &&& s.failure is None
            &&& forall|k: int| 0 <= k <= d ==> #[trigger] t.steps()[k] == s.steps()[k]
            &&& forall|k: int|
                0 <= k < d ==> (#[trigger] t.history[k]) == s.history[k] && t.refused(k)
                    == s.refused(k) && t.consequence(k) == s.consequence(k)
            &&& t.refused(d) == restore::refusal(s.inputs, s.pending[0], outcome)
            &&& t.consequence(d) == more
            &&& t.refused(d) is None ==> {
                &&& t.steps().len() == s.steps().len() + more.len()
                &&& forall|k: int|
                    d + 1 <= k < d + 1 + more.len() ==> #[trigger] t.steps()[k] == more[k - d - 1]
                &&& forall|k: int|
                    d + 1 + more.len() <= k < t.steps().len() ==> #[trigger] t.steps()[k]
                        == s.steps()[k - more.len()]
            }
            &&& t.refused(d) is Some ==> t.steps().len() == d + 1
        }),
{
    let t = s.accept(outcome);
    let d = s.history.len() as int;
    assert(s.steps()[d] == s.pending[0]);
    assert(t.history[d] == (Performed { step: s.pending[0], outcome }));
}

/// A device is found where its base address stands.
proof fn lemma_device_of(bases: Seq<u64>, base: u64)
    requires
        bases.len() <= usize::MAX,
    ensures
        restore::device_of(bases, base) matches Some(device) ==> device < bases.len()
            && bases[device as int] == base,
        restore::device_of(bases, base) is None ==> !bases.contains(base),
    decreases bases.len(),
{
    if restore::device_of(bases, base) is Some {
        let i = choose|i: int| restore::stands_first(bases, base, i);
        assert(restore::stands_first(bases, base, i));
    } else if bases.contains(base) {
        let i = bases.index_of(base);
        lemma_first_exists(bases, base, i);
    }
}

/// What stands somewhere has a first position.
proof fn lemma_first_exists(bases: Seq<u64>, base: u64, i: int)
    requires
        0 <= i < bases.len(),
        bases[i] == base,
    ensures
        exists|k: int| restore::stands_first(bases, base, k),
    decreases i,
{
    if exists|j: int| 0 <= j < i && bases[j] == base {
        let j = choose|j: int| 0 <= j < i && bases[j] == base;
        lemma_first_exists(bases, base, j);
    } else {
        assert(restore::stands_first(bases, base, i));
    }
}

/// What follows from a step other than the first stays in its phase, names devices
/// that are there, and has nothing following from it in turn.
proof fn lemma_more<E>(inputs: CaptureInputs, step: RestoreStep, outcome: RestoreOutcome<E>)
    requires
        !(step is LoadMeta),
    ensures
        ({
            let more = restore::follow_up(inputs, step, outcome);
            &&& !restore::scheduled(step) ==> more.len() == 0
            &&& forall|k: int|
                0 <= k < more.len() ==> {
                    &&& restore::phase(#[trigger] more[k]) == restore::phase(step)
                    &&& !restore::scheduled(more[k])
                    &&& !(more[k] is LoadMeta)
                    &&& match more[k] {
                        RestoreStep::ActivateDevice { device, .. }
                        | RestoreStep::PauseDevice { device }
                        | RestoreStep::RestoreDevice { device, .. }
                        | RestoreStep::ResumeDevice { device } => device
                            < inputs.virtio_bases@.len(),
                        _ => true,
                    }
                }
        }),
{
    if let RestoreStep::LoadVirtio { .. } = step {
        if let RestoreOutcome::Virtio { mmio_base, .. } = outcome {
            assert(inputs.virtio_bases.len() == inputs.virtio_bases@.len());
            lemma_device_of(inputs.virtio_bases@, mmio_base);
        }
    }
}

/// The script of a top-level section.
proof fn lemma_script(inputs: CaptureInputs, meta: MetaSection)
    ensures
        ({
            let script = restore::restore_script(inputs, meta);
            &&& forall|k: int|
                0 <= k < script.len() ==> restore::scheduled(#[trigger] script[k])
                    && restore::phase(script[k]) >= 1 && !(script[k] is LoadMeta)
            &&& forall|i: int, j: int|
                0 <= i < j < script.len() ==> restore::phase(#[trigger] script[i])
                    <= restore::phase(#[trigger] script[j])
        }),
{
    let n = inputs.vcpu_count as int;
    let q = restore::interrupt_script(inputs).len() as int;
    let v = meta.virtio_bases@.len() as int;
    let script = restore::restore_script(inputs, meta);
    assert forall|k: int| 0 <= k < script.len() implies {
        &&& restore::scheduled(#[trigger] script[k])
        &&& restore::phase(script[k]) == if k < n {
            1
        } else if k < n + q {
            2
        } else if k < 2 * n + q {
            3
        } else if k < 2 * n + q + v {
            4
        } else if k < 2 * n + q + v + 1 {
            5
        } else if k < 3 * n + q + v + 1 {
            6
        } else if k < 4 * n + q + v + 1 {
            7int
        } else {
            8
        }
    } by {
        if n <= k < n + q {
            assert(script[k] == restore::interrupt_script(inputs)[k - n]);
        }
    }
}

proof fn lemma_accept_indexed<E>(s: RestoreState<E>, outcome: RestoreOutcome<E>)
    requires
        s.valid(),
        !s.finished(),
    ensures
        s.accept(outcome).indexed(),
{
    let t = s.accept(outcome);
    let step = s.pending[0];
    let more = restore::follow_up(s.inputs, step, outcome);
    if restore::refusal(s.inputs, step, outcome) is None {
        if let RestoreStep::LoadMeta = step {
            if let RestoreOutcome::Meta(meta) = outcome {
                lemma_script(s.inputs, meta);
            }
        } else {
            lemma_more(s.inputs, step, outcome);
        }
        assert forall|k: int| 0 <= k < t.pending.len() implies match #[trigger] t.pending[k] {
            RestoreStep::ActivateDevice { device, .. }
            | RestoreStep::PauseDevice { device }
            | RestoreStep::RestoreDevice { device, .. }
            | RestoreStep::ResumeDevice { device } => device < t.inputs.virtio_bases@.len(),
            _ => true,
        } by {
            if k < more.len() {
                assert(t.pending[k] == more[k]);
            } else {
                assert(t.pending[k] == s.pending[k - more.len() + 1]);
            }
        }
    }
}

proof fn lemma_accept_ordered<E>(s: RestoreState<E>, outcome: RestoreOutcome<E>)
    requires
        s.valid(),
        !s.finished(),
    ensures
        s.accept(outcome).ordered(),
{
    let t = s.accept(outcome);
    let d = s.history.len() as int;
    let step = s.pending[0];
    let more = restore::follow_up(s.inputs, step, outcome);
    lemma_accept_shape(s, outcome);
    assert(s.steps()[d] == step);
    if let RestoreStep::LoadMeta = step {
        assert(d == 0);
        if let RestoreOutcome::Meta(meta) = outcome {
            lemma_script(s.inputs, meta);
        }
    } else {
        lemma_more(s.inputs, step, outcome);
    }
    assert forall|i: int, j: int| 0 <= i < j < t.steps().len() implies restore::phase(
        #[trigger] t.steps()[i],
    ) <= restore::phase(#[trigger] t.steps()[j]) by {
        let m = more.len() as int;
        if j <= d {
            assert(t.steps()[i] == s.steps()[i] && t.steps()[j] == s.steps()[j]);
        } else if j <= d + m {
            assert(t.steps()[j] == more[j - d - 1]);
            if i <= d {
                assert(t.steps()[i] == s.steps()[i]);
                assert(i < d ==> restore::phase(s.steps()[i]) <= restore::phase(s.steps()[d]));
            } else {
                assert(t.steps()[i] == more[i - d - 1]);
            }
        } else {
            assert(t.steps()[j] == s.steps()[j - m]);
            assert(restore::phase(s.steps()[d]) <= restore::phase(s.steps()[j - m]));
            if i <= d {
                assert(t.steps()[i] == s.steps()[i]);
                assert(restore::phase(s.steps()[i]) <= restore::phase(s.steps()[j - m]));
            } else if i <= d + m {
                assert(t.steps()[i] == more[i - d - 1]);
            } else {
                assert(t.steps()[i] == s.steps()[i - m]);
                assert(restore::phase(s.steps()[i - m]) <= restore::phase(s.steps()[j - m]));
            }
        }
    }
}

proof fn lemma_accept_headed<E>(s: RestoreState<E>, outcome: RestoreOutcome<E>)
    requires
        s.valid(),
        !s.finished(),
        restore::fits(s.pending[0], outcome),
    ensures
        s.accept(outcome).headed(),
{
    let t = s.accept(outcome);
    let d = s.history.len() as int;
    let step = s.pending[0];
    let more = restore::follow_up(s.inputs, step, outcome);
    lemma_accept_shape(s, outcome);
    assert(s.steps()[d] == step);
    if let RestoreStep::LoadMeta = step {
        assert(d == 0);
        if let RestoreOutcome::Meta(meta) = outcome {
            lemma_script(s.inputs, meta);
        }
    } else {
        lemma_more(s.inputs, step, outcome);
    }
    assert forall|k: int| 0 <= k < t.steps().len() implies (#[trigger] t.steps()[k] is LoadMeta
        <==> k == 0) by {
        let m = more.len() as int;
        if k <= d {
            assert(t.steps()[k] == s.steps()[k]);
        } else if k <= d + m {
            assert(t.steps()[k] == more[k - d - 1]);
        } else {
            assert(t.steps()[k] == s.steps()[k - m]);
        }
    }
    assert forall|k: int| 0 <= k < t.history.len() implies restore::fits(
        (#[trigger] t.history[k]).step,
        t.history[k].outcome,
    ) by {
        if k < d {
            assert(t.history[k] == s.history[k]);
        }
    }
}

proof fn lemma_accept_stops<E>(s: RestoreState<E>, outcome: RestoreOutcome<E>)
    requires
        s.valid(),
        !s.finished(),
    ensures
        s.accept(outcome).stops(),
{
    let t = s.accept(outcome);
    let d = s.history.len() as int;
    lemma_accept_shape(s, outcome);
    assert forall|k: int| 0 <= k < t.history.len() - 1 implies #[trigger] t.refused(k) is None by {
        assert(t.history[k] == s.history[k]);
        if k == d - 1 {
            assert(s.failure == s.refused(d - 1));
        } else {
            assert(s.refused(k) is None);
        }
    }
}

proof fn lemma_accept_follows<E>(s: RestoreState<E>, outcome: RestoreOutcome<E>)
    requires
        s.valid(),
        !s.finished(),
    ensures
        s.accept(outcome).follows(),
{
    let t = s.accept(outcome);
    let d = s.history.len() as int;
    let step = s.pending[0];
    let more = restore::follow_up(s.inputs, step, outcome);
    lemma_accept_shape(s, outcome);
    assert(s.steps()[d] == step);
    assert forall|k: int, j: int|
        0 < k < t.history.len() && 0 <= j < t.consequence(k).len() implies #[trigger] t.follows_at(
        k,
        j,
    ) by {
        if k < d {
            assert(t.history[k] == s.history[k]);
            assert(t.consequence(k) == s.consequence(k));
            assert(s.steps()[k] == s.history[k].step);
            lemma_more(s.inputs, s.history[k].step, s.history[k].outcome);
            assert(s.follows_at(k, j));
            if k + 1 + j > d {
                let at = d - k - 1;
                assert(s.follows_at(k, at));
                lemma_more(s.inputs, step, outcome);
                assert(more.len() == 0);
            }
        }
    }
}

proof fn lemma_accept_named<E>(s: RestoreState<E>, outcome: RestoreOutcome<E>)
    requires
        s.valid(),
        !s.finished(),
    ensures
        s.accept(outcome).touches_named(),
{
    let t = s.accept(outcome);
    let d = s.history.len() as int;
    let step = s.pending[0];
    let more = restore::follow_up(s.inputs, step, outcome);
    let m = more.len() as int;
    lemma_accept_shape(s, outcome);
    assert(t.history[d] == (Performed { step, outcome }));
    if let RestoreStep::LoadMeta = step {
        if let RestoreOutcome::Meta(meta) = outcome {
            lemma_script(s.inputs, meta);
        }
    }
    assert forall|base: u64| #[trigger] s.reads_base(base) implies t.reads_base(base) by {
        let j = choose|j: int|
            0 <= j < s.history.len() && ((#[trigger] s.history[j]).outcome matches
            RestoreOutcome::Virtio { mmio_base, .. } && mmio_base == base);
        assert(t.history[j] == s.history[j]);
    }
    assert forall|k: int|
        0 <= k < t.steps().len() && !(#[trigger] t.steps()[k] is ReplayAfterResume) implies (
    restore::device_in(t.steps()[k]) matches Some(device) ==> device < t.inputs.virtio_bases@.len()
        && t.reads_base(t.inputs.virtio_bases@[device as int])) by {
        if k <= d {
            assert(t.steps()[k] == s.steps()[k]);
        } else if k <= d + m {
            assert(t.steps()[k] == more[k - d - 1]);
            if let RestoreStep::LoadVirtio { .. } = step {
                if let RestoreOutcome::Virtio { mmio_base, .. } = outcome {
                    devices_are_found_by_base(s.inputs, mmio_base);
                    assert(t.history[d].outcome matches RestoreOutcome::Virtio { mmio_base: b, .. }
                        && b == mmio_base);
                }
            } else {
                assert(step is LoadMeta ==> restore::scheduled(more[k - d - 1]));
            }
        } else {
            assert(t.steps()[k] == s.steps()[k - m]);
        }
    }
}

/// Steps that are all scheduled, or none of which is.
proof fn lemma_backbone(steps: Seq<RestoreStep>)
    ensures
        (forall|k: int| 0 <= k < steps.len() ==> restore::scheduled(#[trigger] steps[k]))
            ==> restore::backbone(steps) == steps,
        (forall|k: int| 0 <= k < steps.len() ==> !restore::scheduled(#[trigger] steps[k]))
            ==> restore::backbone(steps).len() == 0,
    decreases steps.len(),
{
    reveal(Seq::filter);
    if steps.len() > 0 {
        let before = steps.drop_last();
        lemma_backbone(before);
        assert(forall|k: int| 0 <= k < before.len() ==> before[k] == steps[k]);
        assert(before.push(steps.last()) =~= steps);
        if forall|k: int| 0 <= k < steps.len() ==> restore::scheduled(#[trigger] steps[k]) {
            assert forall|k: int| 0 <= k < before.len() implies restore::scheduled(
                #[trigger] before[k],
            ) by {
                assert(before[k] == steps[k]);
            }
            assert(restore::scheduled(steps[steps.len() - 1]));
        }
        if forall|k: int| 0 <= k < steps.len() ==> !restore::scheduled(#[trigger] steps[k]) {
            assert forall|k: int| 0 <= k < before.len() implies !restore::scheduled(
                #[trigger] before[k],
            ) by {
                assert(before[k] == steps[k]);
            }
            assert(!restore::scheduled(steps[steps.len() - 1]));
        }
    }
}

/// The backbone of two runs of steps is that of one, then that of the other.
proof fn lemma_backbone_adds(a: Seq<RestoreStep>, b: Seq<RestoreStep>)
    ensures
        restore::backbone(a + b) == restore::backbone(a) + restore::backbone(b),
{
    Seq::filter_distributes_over_add(a, b, |step: RestoreStep| restore::scheduled(step));
}

proof fn lemma_accept_script<E>(s: RestoreState<E>, outcome: RestoreOutcome<E>)
    requires
        s.valid(),
        !s.finished(),
        restore::fits(s.pending[0], outcome),
    ensures
        s.accept(outcome).keeps_script(),
{
    let t = s.accept(outcome);
    let d = s.history.len() as int;
    let step = s.pending[0];
    let more = restore::follow_up(s.inputs, step, outcome);
    lemma_accept_shape(s, outcome);
    assert(s.steps()[d] == step);
    if restore::refusal(s.inputs, step, outcome) is None {
        if d == 0 {
            assert(s.steps()[0] is LoadMeta);
            let meta = outcome->Meta_0;
            lemma_script(s.inputs, meta);
            assert(t.steps().drop_first() =~= restore::restore_script(s.inputs, meta));
            lemma_backbone(restore::restore_script(s.inputs, meta));
        } else {
            let before = s.steps().subrange(1, d + 1);
            let rest = s.steps().skip(d + 1);
            assert(s.steps().drop_first() =~= before + rest);
            assert(t.steps().drop_first() =~= before + (more + rest));
            lemma_more(s.inputs, step, outcome);
            lemma_backbone(more);
            lemma_backbone_adds(before, rest);
            lemma_backbone_adds(before, more + rest);
            lemma_backbone_adds(more, rest);
            assert(restore::backbone(more) + restore::backbone(rest) =~= restore::backbone(rest));
            assert(t.history[0] == s.history[0]);
        }
    }
}

proof fn lemma_accept_derives<E>(s: RestoreState<E>, outcome: RestoreOutcome<E>)
    requires
        s.valid(),
        !s.finished(),
    ensures
        s.accept(outcome).derives(),
{
    let t = s.accept(outcome);
    let d = s.history.len() as int;
    let step = s.pending[0];
    let more = restore::follow_up(s.inputs, step, outcome);
    let m = more.len() as int;
    lemma_accept_shape(s, outcome);
    assert(s.steps()[d] == step);
    if let RestoreStep::LoadMeta = step {
        assert(d == 0);
        if let RestoreOutcome::Meta(meta) = outcome {
            lemma_script(s.inputs, meta);
        }
    } else {
        lemma_more(s.inputs, step, outcome);
    }
    assert forall|k: int| 0 < k < t.steps().len() implies #[trigger] t.derives_at(k) by {
        if d < k <= d + m {
            assert(t.steps()[k] == more[k - d - 1]);
            assert(t.consequence(d) == more);
        } else {
            let from = if k <= d {
                k
            } else {
                k - m
            };
            assert(t.steps()[k] == s.steps()[from]);
            assert(s.derives_at(from));
            if !restore::scheduled(s.steps()[from]) {
                let j = choose|j: int|
                    #![trigger s.consequence(j)]
                    {
                        &&& 0 < j < from
                        &&& j < s.history.len()
                        &&& from - j - 1 < s.consequence(j).len()
                        &&& s.steps()[from] == s.consequence(j)[from - j - 1]
                    };
                assert(t.history[j] == s.history[j]);
                assert(t.consequence(j) == s.consequence(j));
                if k > d {
                    assert(s.follows_at(j, d - j - 1));
                    assert(s.steps()[j] == s.history[j].step);
                    lemma_more(s.inputs, s.history[j].step, s.history[j].outcome);
                    assert(m == 0);
                }
            }
        }
    }
}

/// What stands where in the script of a top-level section.
pub(crate) proof fn lemma_script_at(inputs: CaptureInputs, meta: MetaSection, k: int)
    requires
        0 <= k < restore::restore_script(inputs, meta).len(),
    ensures
        ({
            let n = inputs.vcpu_count as int;
            let q = restore::interrupt_script(inputs).len() as int;
            let v = meta.virtio_bases@.len() as int;
            let step = restore::restore_script(inputs, meta)[k];
            if k < n {
                step == restore::initial_pause_script(n as nat)[k]
            } else if k < n + q {
                step == restore::interrupt_script(inputs)[k - n]
            } else if k < 2 * n + q {
                step == restore::register_script(n as nat)[k - n - q]
            } else if k < 2 * n + q + v {
                step == restore::virtio_script(v as nat)[k - 2 * n - q]
            } else if k == 2 * n + q + v {
                step is ReadClock
            } else if k < 4 * n + q + v + 1 {
                step == RestoreStep::Vcpu(
                    vcpu::resume_exchange(n as nat)[k - 2 * n - q - v - 1],
                )
            } else {
                step == restore::replay_script(inputs.virtio_bases@.len())[k - 4 * n - q - v - 1]
            }
        }),
{
}

/// The script of a top-level section holds nothing twice, if its virtio sections can be
/// told apart.
proof fn lemma_script_once(inputs: CaptureInputs, meta: MetaSection, i: int, j: int)
    requires
        0 <= i < j < restore::restore_script(inputs, meta).len(),
        restore::restore_script(inputs, meta)[i] is LoadVirtio ==> meta.virtio_bases@.len()
            <= 0x1_0000_0000,
    ensures
        !restore::same_work(
            restore::restore_script(inputs, meta)[i],
            restore::restore_script(inputs, meta)[j],
        ),
{
    lemma_script_at(inputs, meta, i);
    lemma_script_at(inputs, meta, j);
    assert(inputs.virtio_bases.len() == inputs.virtio_bases@.len());
}

proof fn lemma_accept_once<E>(s: RestoreState<E>, outcome: RestoreOutcome<E>)
    requires
        s.valid(),
        !s.finished(),
        restore::fits(s.pending[0], outcome),
    ensures
        s.accept(outcome).does_once(),
{
    let t = s.accept(outcome);
    let d = s.history.len() as int;
    let step = s.pending[0];
    let more = restore::follow_up(s.inputs, step, outcome);
    let m = more.len() as int;
    lemma_accept_shape(s, outcome);
    assert(s.steps()[d] == step);
    assert(t.history[0] == if d == 0 {
        Performed { step, outcome }
    } else {
        s.history[0]
    });
    assert forall|i: int, j: int| 0 < i < j < t.steps().len() implies !#[trigger] t.repeats(
        i,
        j,
    ) by {
        if d == 0 {
            assert(s.steps()[0] is LoadMeta);
            assert(t.refused(d) is None);
            let meta = outcome->Meta_0;
            assert(t.steps()[i] == more[i - 1] && t.steps()[j] == more[j - 1]);
            if t.repeats(i, j) {
                lemma_script_once(s.inputs, meta, i - 1, j - 1);
            }
        } else {
            lemma_more(s.inputs, step, outcome);
            let from_i = if i <= d {
                i
            } else {
                i - m
            };
            let from_j = if j <= d {
                j
            } else {
                j - m
            };
            if d < i <= d + m {
                assert(t.steps()[i] == more[i - d - 1]);
            } else if d < j <= d + m {
                assert(t.steps()[j] == more[j - d - 1]);
            } else {
                assert(t.steps()[i] == s.steps()[from_i]);
                assert(t.steps()[j] == s.steps()[from_j]);
                assert(!s.repeats(from_i, from_j));
            }
        }
    }
}

/// A restore comes to an end: once the top-level section is read, every step leaves
/// fewer scheduled steps to be done, or as many and fewer steps in all.
pub proof fn accept_makes_progress<E>(s: RestoreState<E>, outcome: RestoreOutcome<E>)
    requires
        s.valid(),
        !s.finished(),
        s.history.len() > 0,
    ensures
        ({
            let t = s.accept(outcome);
            let left = restore::backbone(t.pending).len();
            ||| left < restore::backbone(s.pending).len()
            ||| left == restore::backbone(s.pending).len() && t.pending.len() < s.pending.len()
        }),
{
    let t = s.accept(outcome);
    let step = s.pending[0];
    let more = restore::follow_up(s.inputs, step, outcome);
    let rest = s.pending.drop_first();
    assert(s.steps()[s.history.len() as int] == step);
    lemma_more(s.inputs, step, outcome);
    lemma_backbone(more);
    lemma_backbone(seq![step]);
    lemma_backbone(Seq::empty());
    lemma_backbone_adds(more, rest);
    lemma_backbone_adds(seq![step], rest);
    assert(s.pending =~= seq![step] + rest);
    assert(restore::backbone(seq![step]).len() == if restore::scheduled(step) {
        1int
    } else {
        0
    });
}

/// What a restore returns is its first failure, after which nothing is done; it
/// succeeds exactly if no step is refused.
pub proof fn failure_ends_restore<E>(s: RestoreState<E>)
    requires
        s.valid(),
    ensures
        match s.failure {
            None => forall|k: int| 0 <= k < s.history.len() ==> #[trigger] s.refused(k) is None,
            Some(failure) => {
                &&& s.finished()
                &&& s.history.len() > 0
                &&& s.refused(s.history.len() - 1) == Some(failure)
                &&& forall|k: int|
                    0 <= k < s.history.len() - 1 ==> #[trigger] s.refused(k) is None
            },
        },
{
}

/// A snapshot of another kind of machine is refused before anything is touched.
pub proof fn mismatch_touches_nothing<E>(inputs: CaptureInputs, meta: MetaSection)
    requires
        restore::mismatch(inputs, meta) is Some,
    ensures
        ({
            let s = RestoreState::<E>::start(inputs).accept(RestoreOutcome::Meta(meta));
            &&& s.finished()
            &&& s.steps() == seq![RestoreStep::LoadMeta]
            &&& s.failure == Some(
                FailureView::<E>::Snapshot(restore::mismatch(inputs, meta)->0),
            )
        }),
{
    let s = RestoreState::<E>::start(inputs).accept(RestoreOutcome::Meta(meta));
    assert(s.steps() =~= seq![RestoreStep::LoadMeta]);
}

/// The interrupt state of the whole machine is restored before any vCPU is given
/// its registers, which are the last interrupt state written for it.
pub proof fn interrupts_before_registers<E>(s: RestoreState<E>, i: int, j: int)
    requires
        s.valid(),
        0 <= i < s.steps().len(),
        0 <= j < s.steps().len(),
        s.steps()[i] is RestoreIrqchip || s.steps()[i] is RestoreGic
            || s.steps()[i] is RestorePendingInterrupts,
        s.steps()[j] matches RestoreStep::Vcpu(
            VcpuStep::Send { event: VcpuEvent::RestoreState(_), .. },
        ),
    ensures
        i < j,
{
    if j < i {
        assert(restore::phase(s.steps()[j]) <= restore::phase(s.steps()[i]));
    }
}

/// A restore that fails before the vCPUs are told to run on never tells them.
pub proof fn failed_restore_never_resumes<E>(s: RestoreState<E>, k: int)
    requires
        s.valid(),
        s.failure is Some,
        restore::phase(s.history.last().step) < 6,
        0 <= k < s.steps().len(),
    ensures
        !(s.steps()[k] matches RestoreStep::Vcpu(
            VcpuStep::Send { event: VcpuEvent::Resume, .. },
        )),
{
    let last = s.history.len() - 1;
    assert(s.steps()[last] == s.history.last().step);
    if k < last {
        assert(restore::phase(s.steps()[k]) <= restore::phase(s.steps()[last]));
    }
}

/// The restore has not failed, and has done all the steps of this phase and those
/// before it.
pub open spec fn got_past<E>(s: RestoreState<E>, phase: int) -> bool {
    &&& s.failure is None
    &&& s.history.len() > 0
    &&& s.finished() || restore::phase(s.pending[0]) > phase
}

/// The top-level section that was read.
pub open spec fn meta_of<E>(s: RestoreState<E>) -> MetaSection {
    s.history[0].outcome->Meta_0
}

/// A step of the script that the restore has got past was done.
pub(crate) proof fn lemma_scheduled_done<E>(s: RestoreState<E>, step: RestoreStep, phase: int) -> (k: int)
    requires
        s.valid(),
        got_past(s, phase),
        restore::phase(step) <= phase,
        restore::restore_script(s.inputs, meta_of(s)).contains(step),
    ensures
        0 < k < s.history.len(),
        s.history[k].step == step,
        s.refused(k) is None,
{
    let tail = s.steps().drop_first();
    let pred = |step: RestoreStep| restore::scheduled(step);
    tail.lemma_filter_contains_rev(pred, step);
    let i = tail.index_of(step);
    let k = i + 1;
    assert(s.steps()[k] == step);
    if k >= s.history.len() {
        let d = s.history.len() as int;
        assert(s.steps()[d] == s.pending[0]);
        if k > d {
            assert(restore::phase(s.steps()[d]) <= restore::phase(s.steps()[k]));
        }
    }
    failure_ends_restore(s);
    k
}

/// What follows from a step that the restore has got past was done.
pub(crate) proof fn lemma_consequence_done<E>(s: RestoreState<E>, k: int, j: int, phase: int)
    requires
        s.valid(),
        got_past(s, phase),
        0 < k < s.history.len(),
        restore::phase(s.history[k].step) <= phase,
        0 <= j < s.consequence(k).len(),
    ensures
        k + 1 + j < s.history.len(),
        s.history[k + 1 + j].step == s.consequence(k)[j],
        s.refused(k + 1 + j) is None,
{
    assert(s.follows_at(k, j));
    assert(s.steps()[k] == s.history[k].step);
    lemma_more(s.inputs, s.history[k].step, s.history[k].outcome);
    assert(restore::phase(s.consequence(k)[j]) <= phase);
    if k + 1 + j >= s.history.len() {
        let d = s.history.len() as int;
        assert(s.steps()[d] == s.pending[0]);
        if k + 1 + j > d {
            assert(restore::phase(s.steps()[d]) <= restore::phase(s.steps()[k + 1 + j]));
        }
    }
    failure_ends_restore(s);
}

/// The vCPU has been given the registers that were read for it, and has confirmed
/// that.
pub open spec fn given_registers<E>(s: RestoreState<E>, vcpu: int, registers: Vec<u8>, k: int) -> bool {
    &&& 0 <= k < s.history.len() - 2
    &&& s.history[k].step == RestoreStep::LoadVcpuState { vcpu: vcpu as usize, index: vcpu as u32 }
    &&& s.history[k].outcome == RestoreOutcome::<E>::Registers(registers)
    &&& s.history[k + 1].step == RestoreStep::Vcpu(
        VcpuStep::Send { vcpu: vcpu as usize, event: VcpuEvent::RestoreState(registers) },
    )
    &&& s.history[k + 1].outcome == RestoreOutcome::<E>::Done
    &&& s.history[k + 2].step == RestoreStep::Vcpu(
        VcpuStep::Receive { vcpu: vcpu as usize, expected: Expected::Restored },
    )
    &&& s.history[k + 2].outcome == RestoreOutcome::<E>::Reply(Ok(VcpuResponse::Restored))
}

/// The vCPU has its registers.
pub open spec fn has_registers<E>(s: RestoreState<E>, vcpu: int) -> bool {
    exists|registers: Vec<u8>, k: int| given_registers(s, vcpu, registers, k)
}

/// Once a restore has got past the registers, every vCPU has been given those that
/// the snapshot holds for it.
pub proof fn registers_reach_vcpus<E>(s: RestoreState<E>, vcpu: int)
    requires
        s.valid(),
        got_past(s, 3),
        0 <= vcpu < s.inputs.vcpu_count,
    ensures
        has_registers(s, vcpu),
{
    let inputs = s.inputs;
    let script = restore::restore_script(inputs, meta_of(s));
    let step = RestoreStep::LoadVcpuState { vcpu: vcpu as usize, index: vcpu as u32 };
    let at = inputs.vcpu_count + restore::interrupt_script(inputs).len() + vcpu;
    assert(script[at] == step);
    let k = lemma_scheduled_done(s, step, 3);
    assert(restore::fits(s.history[k].step, s.history[k].outcome));
    let registers = s.history[k].outcome->Registers_0;
    assert(s.consequence(k) == restore::vcpu_script(vcpu as usize, registers));
    lemma_consequence_done(s, k, 0, 3);
    lemma_consequence_done(s, k, 1, 3);
    assert(restore::fits(s.history[k + 1].step, s.history[k + 1].outcome));
    assert(restore::fits(s.history[k + 2].step, s.history[k + 2].outcome));
    assert(given_registers(s, vcpu, registers, k));
}

/// The `j`-th of the steps that follow from the `k`-th was done and not refused.
pub open spec fn carried_out<E>(s: RestoreState<E>, k: int, steps: Seq<RestoreStep>) -> bool {
    forall|j: int|
        0 <= j < steps.len() ==> k + 1 + j < s.history.len() && s.history[k + 1 + j].step
            == #[trigger] steps[j] && s.refused(k + 1 + j) is None
}

/// The device with the base address that the section holds has been given its
/// state.
pub open spec fn section_restored<E>(
    s: RestoreState<E>,
    section: int,
    device: usize,
    has_device: bool,
    k: int,
) -> bool {
    &&& 0 <= k < s.history.len()
    &&& device < s.inputs.virtio_bases@.len()
    &&& s.history[k].step == RestoreStep::LoadVirtio { index: section as u32 }
    &&& s.history[k].outcome == RestoreOutcome::<E>::Virtio {
        mmio_base: s.inputs.virtio_bases@[device as int],
        has_device,
    }
    &&& carried_out(s, k, restore::device_script(device, has_device, section as u32))
}

/// Some device has the state that the section holds.
pub open spec fn is_restored<E>(s: RestoreState<E>, section: int) -> bool {
    exists|device: usize, has_device: bool, k: int|
        section_restored(s, section, device, has_device, k)
}

/// Once a restore has got past the devices, every virtio section of the snapshot has
/// been loaded into the device at its base address.
pub proof fn sections_reach_devices<E>(s: RestoreState<E>, section: int)
    requires
        s.valid(),
        got_past(s, 4),
        0 <= section < meta_of(s).virtio_bases@.len(),
    ensures
        is_restored(s, section),
{
    let inputs = s.inputs;
    let script = restore::restore_script(inputs, meta_of(s));
    let step = RestoreStep::LoadVirtio { index: section as u32 };
    let at = 2 * inputs.vcpu_count + restore::interrupt_script(inputs).len() + section;
    assert(script[at] == step);
    let k = lemma_scheduled_done(s, step, 4);
    assert(restore::fits(s.history[k].step, s.history[k].outcome));
    let base = s.history[k].outcome->mmio_base;
    let has_device = s.history[k].outcome->has_device;
    assert(inputs.virtio_bases.len() == inputs.virtio_bases@.len());
    lemma_device_of(inputs.virtio_bases@, base);
    let device = restore::device_of(inputs.virtio_bases@, base)->0;
    let steps = restore::device_script(device, has_device, section as u32);
    assert(s.consequence(k) == steps);
    assert forall|j: int| 0 <= j < steps.len() implies k + 1 + j < s.history.len() && s.history[k
        + 1 + j].step == #[trigger] steps[j] && s.refused(k + 1 + j) is None by {
        lemma_consequence_done(s, k, j, 4);
    }
    assert(section_restored(s, section, device, has_device, k));
}

/// The device that a section was loaded into is the first with its base address.
pub proof fn first_device_is_restored<E>(
    s: RestoreState<E>,
    section: int,
    device: usize,
    has_device: bool,
    k: int,
)
    requires
        s.valid(),
        got_past(s, 4),
        k > 0,
        section_restored(s, section, device, has_device, k),
    ensures
        forall|j: int|
            0 <= j < device ==> #[trigger] s.inputs.virtio_bases@[j]
                != s.inputs.virtio_bases@[device as int],
{
    let bases = s.inputs.virtio_bases@;
    let base = bases[device as int];
    let index = section as u32;
    assert(s.inputs.virtio_bases.len() == bases.len());
    lemma_device_of(bases, base);
    assert(bases.contains(base));
    let first = restore::device_of(bases, base)->0;
    let i = choose|i: int| restore::stands_first(bases, base, i);
    lemma_first_exists(bases, base, device as int);
    assert(restore::stands_first(bases, base, i));
    let steps = restore::device_script(device, has_device, index);
    assert(s.consequence(k) == restore::device_script(first, has_device, index));
    lemma_consequence_done(s, k, 0, 4);
    assert(s.history[k + 1 + 0].step == steps[0]);
    assert(first == device);
}

/// The virtual timer of the vCPU has been moved on by as much as the counter has
/// moved since capture, and the vCPU has confirmed that.
pub open spec fn timer_moved<E>(s: RestoreState<E>, vcpu: int, now: u64, k: int) -> bool {
    let at = k + 1 + 2 * vcpu;
    let captured_at = meta_of(s).capture_mach_time;
    &&& 0 <= k
    &&& at + 1 < s.history.len()
    &&& s.history[k].step == RestoreStep::ReadClock { captured_at }
    &&& s.history[k].outcome == RestoreOutcome::<E>::Clock(now)
    &&& s.history[at].step == RestoreStep::Vcpu(
        VcpuStep::Send {
            vcpu: vcpu as usize,
            event: VcpuEvent::RebaseTimer(restore::ticks_between(captured_at, now)),
        },
    )
    &&& s.history[at].outcome == RestoreOutcome::<E>::Done
    &&& s.history[at + 1].step == RestoreStep::Vcpu(
        VcpuStep::Receive { vcpu: vcpu as usize, expected: Expected::TimerRebased },
    )
    &&& s.history[at + 1].outcome == RestoreOutcome::<E>::Reply(Ok(VcpuResponse::TimerRebased))
}

/// The counter was read, and by what it stood at then the timers of all vCPUs were moved.
pub open spec fn timers_moved<E>(s: RestoreState<E>, now: u64, k: int) -> bool {
    &&& 0 <= k < s.history.len()
    &&& s.history[k].step == RestoreStep::ReadClock { captured_at: meta_of(s).capture_mach_time }
    &&& s.history[k].outcome == RestoreOutcome::<E>::Clock(now)
    &&& forall|vcpu: int|
        0 <= vcpu < s.inputs.vcpu_count ==> #[trigger] timer_moved(s, vcpu, now, k)
}

/// All vCPUs have their timers, by one reading of the counter.
pub open spec fn have_timers<E>(s: RestoreState<E>) -> bool {
    exists|now: u64, k: int| timers_moved(s, now, k)
}

/// Once a restore has got past the timers, the counter has been read once, and the timer of
/// every vCPU has been moved on by as much as it had moved then.
pub proof fn timers_are_rebased<E>(s: RestoreState<E>)
    requires
        s.valid(),
        got_past(s, 5),
    ensures
        have_timers(s),
        forall|i: int, j: int|
            0 <= i < j < s.history.len() && (#[trigger] s.history[i]).step is ReadClock ==> !((
            #[trigger] s.history[j]).step is ReadClock),
{
    let inputs = s.inputs;
    let meta = meta_of(s);
    let script = restore::restore_script(inputs, meta);
    let step = RestoreStep::ReadClock { captured_at: meta.capture_mach_time };
    let at = 2 * inputs.vcpu_count + restore::interrupt_script(inputs).len()
        + meta.virtio_bases@.len();
    assert(script[at] == step);
    let k = lemma_scheduled_done(s, step, 5);
    assert(restore::fits(s.history[k].step, s.history[k].outcome));
    let now = s.history[k].outcome->Clock_0;
    let ticks = restore::ticks_between(meta.capture_mach_time, now);
    assert(s.consequence(k) == restore::timer_script(inputs.vcpu_count as nat, ticks));
    assert forall|vcpu: int| 0 <= vcpu < s.inputs.vcpu_count implies #[trigger] timer_moved(
        s,
        vcpu,
        now,
        k,
    ) by {
        lemma_consequence_done(s, k, 2 * vcpu, 5);
        lemma_consequence_done(s, k, 2 * vcpu + 1, 5);
        let sent = k + 1 + 2 * vcpu;
        assert(s.history[sent + 1].step == s.consequence(k)[2 * vcpu + 1]);
        assert(restore::fits(s.history[sent].step, s.history[sent].outcome));
        assert(restore::fits(s.history[sent + 1].step, s.history[sent + 1].outcome));
    }
    assert(timers_moved(s, now, k));
    assert forall|i: int, j: int|
        0 <= i < j < s.history.len() && (#[trigger] s.history[i]).step is ReadClock implies !((
    #[trigger] s.history[j]).step is ReadClock) by {
        nothing_is_done_twice(s, i, j);
    }
}

/// When a vCPU is told to run on, every vCPU has its registers and its timer, and
/// every device its state.
pub proof fn resumed_when_restored<E>(s: RestoreState<E>)
    requires
        s.valid(),
        !s.finished(),
        s.pending[0] matches RestoreStep::Vcpu(
            VcpuStep::Send { event: VcpuEvent::Resume, .. },
        ),
    ensures
        forall|vcpu: int|
            0 <= vcpu < s.inputs.vcpu_count ==> #[trigger] has_registers(s, vcpu),
        have_timers(s),
        forall|section: int|
            0 <= section < meta_of(s).virtio_bases@.len() ==> #[trigger] is_restored(s, section),
{
    assert(s.history.len() > 0) by {
        assert(s.steps()[0] is LoadMeta);
    }
    assert(got_past(s, 5));
    assert forall|vcpu: int| 0 <= vcpu < s.inputs.vcpu_count implies #[trigger] has_registers(
        s,
        vcpu,
    ) by {
        registers_reach_vcpus(s, vcpu);
    }
    timers_are_rebased(s);
    assert forall|section: int|
        0 <= section < meta_of(s).virtio_bases@.len() implies #[trigger] is_restored(s, section) by {
        sections_reach_devices(s, section);
    }
}

/// The step of the script that the `k`-th step follows from.
pub(crate) proof fn lemma_parent<E>(s: RestoreState<E>, k: int) -> (j: int)
    requires
        s.valid(),
        0 < k < s.steps().len(),
        !restore::scheduled(s.steps()[k]),
    ensures
        0 < j < k,
        j < s.history.len(),
        k - j - 1 < s.consequence(j).len(),
        s.steps()[k] == s.consequence(j)[k - j - 1],
        restore::scheduled(s.history[j].step),
        s.steps()[j] == s.history[j].step,
{
    assert(s.derives_at(k));
    let j = choose|j: int|
        #![trigger s.consequence(j)]
        {
            &&& 0 < j < k
            &&& j < s.history.len()
            &&& k - j - 1 < s.consequence(j).len()
            &&& s.steps()[k] == s.consequence(j)[k - j - 1]
        };
    assert(s.steps()[j] == s.history[j].step);
    lemma_more(s.inputs, s.history[j].step, s.history[j].outcome);
    j
}

/// Two steps that do the same follow from steps that do, and what follows from one step
/// holds nothing twice.
proof fn lemma_same_parent<E>(
    inputs: CaptureInputs,
    x: RestoreStep,
    y: RestoreStep,
    from_x: RestoreOutcome<E>,
    from_y: RestoreOutcome<E>,
    i: int,
    j: int,
)
    requires
        restore::scheduled(x),
        restore::scheduled(y),
        0 <= i < restore::follow_up(inputs, x, from_x).len(),
        0 <= j < restore::follow_up(inputs, y, from_y).len(),
        restore::same_work(
            restore::follow_up(inputs, x, from_x)[i],
            restore::follow_up(inputs, y, from_y)[j],
        ),
    ensures
        restore::same_work(x, y),
        x is LoadVirtio ==> indexed_section(restore::follow_up(inputs, x, from_x)[i]),
        x == y && from_x == from_y ==> i == j,
{
}

/// The step names the section that it is for.
pub open spec fn indexed_section(step: RestoreStep) -> bool {
    step is LoadVirtio || step is ActivateDevice || step is RestoreDevice || step is RestoreTransport
}

/// Nothing is done twice in a restore, but that a device may be paused, resumed and have
/// its interrupt raised again for another section that names it. Virtio sections are told
/// apart by an index of 32 bits.
pub proof fn nothing_is_done_twice<E>(s: RestoreState<E>, i: int, j: int)
    requires
        s.valid(),
        0 <= i < j < s.history.len(),
        indexed_section(s.history[i].step) ==> s.countable(),
    ensures
        !restore::same_work(s.history[i].step, s.history[j].step),
{
    assert(s.steps()[i] == s.history[i].step && s.steps()[j] == s.history[j].step);
    let x = s.steps()[i];
    let y = s.steps()[j];
    if i == 0 {
        assert(s.steps()[0] is LoadMeta);
        assert(!(s.steps()[j] is LoadMeta));
    } else if restore::same_work(x, y) {
        assert(restore::scheduled(x) == restore::scheduled(y));
        if restore::scheduled(x) {
            assert(!s.repeats(i, j));
        } else {
            let a = lemma_parent(s, i);
            let b = lemma_parent(s, j);
            lemma_same_parent(
                s.inputs,
                s.history[a].step,
                s.history[b].step,
                s.history[a].outcome,
                s.history[b].outcome,
                i - a - 1,
                j - b - 1,
            );
            if a < b {
                assert(!s.repeats(a, b));
            } else if b < a {
                lemma_same_parent(
                    s.inputs,
                    s.history[b].step,
                    s.history[a].step,
                    s.history[b].outcome,
                    s.history[a].outcome,
                    j - b - 1,
                    i - a - 1,
                );
                assert(!s.repeats(b, a));
            }
        }
    }
}

/// Every step of a restore behind the first is one of the script that the top-level
/// section calls for, or follows from one that was done before, and comes right where what
/// follows from that stands.
pub proof fn nothing_else_is_done<E>(s: RestoreState<E>, k: int)
    requires
        s.valid(),
        0 < k < s.steps().len(),
        !restore::scheduled(s.steps()[k]),
    ensures
        exists|j: int|
            #![trigger s.consequence(j)]
            {
                &&& 0 < j < k
                &&& j < s.history.len()
                &&& restore::scheduled(s.history[j].step)
                &&& k - j - 1 < s.consequence(j).len()
                &&& s.steps()[k] == s.consequence(j)[k - j - 1]
            },
{
    let j = lemma_parent(s, k);
    assert(s.consequence(j).len() > k - j - 1);
}

/// The `k`-th step done sends a message to this vCPU.
pub open spec fn tells<E>(s: RestoreState<E>, k: int, vcpu: int) -> bool {
    s.history[k].step matches RestoreStep::Vcpu(VcpuStep::Send { vcpu: told, .. }) && told == vcpu
}

/// What a restore tells a vCPU.
proof fn lemma_told<E>(s: RestoreState<E>, vcpu: int, k: int)
    requires
        s.valid(),
        0 <= k < s.history.len(),
        tells(s, k, vcpu),
    ensures
        s.history[k].step matches RestoreStep::Vcpu(VcpuStep::Send { event, .. })
            && !(event is Pause),
{
    assert(s.steps()[k] == s.history[k].step);
    assert(k > 0) by {
        assert(s.steps()[0] is LoadMeta);
    }
    if !restore::scheduled(s.steps()[k]) {
        let j = lemma_parent(s, k);
        assert(s.consequence(j)[k - j - 1] == s.steps()[k]);
    }
}

/// A vCPU is told at most once to take its registers, then at most once to move its timer
/// on, then at most once to run on, and nothing else.
pub proof fn vcpus_are_told_in_turn<E>(s: RestoreState<E>, vcpu: int, i: int, j: int)
    requires
        s.valid(),
        0 <= i < j < s.history.len(),
        tells(s, i, vcpu),
        tells(s, j, vcpu),
    ensures
        s.history[i].step matches RestoreStep::Vcpu(VcpuStep::Send { event: first, .. }) && (
        s.history[j].step matches RestoreStep::Vcpu(VcpuStep::Send { event: second, .. }) && {
            ||| first is RestoreState && second is RebaseTimer
            ||| first is RestoreState && second is Resume
            ||| first is RebaseTimer && second is Resume
        }),
{
    lemma_told(s, vcpu, i);
    lemma_told(s, vcpu, j);
    nothing_is_done_twice(s, i, j);
    assert(s.steps()[i] == s.history[i].step && s.steps()[j] == s.history[j].step);
    assert(restore::phase(s.steps()[i]) <= restore::phase(s.steps()[j]));
}

/// A restore that succeeds has told every vCPU exactly to take its registers, then to move
/// its timer on, then to run on.
pub proof fn success_tells_each_vcpu<E>(s: RestoreState<E>, vcpu: int)
    requires
        s.valid(),
        s.finished(),
        s.failure is None,
        0 <= vcpu < s.inputs.vcpu_count,
    ensures
        exists|a: int, b: int, c: int|
            #![trigger s.history[a], s.history[b], s.history[c]]
            {
                &&& 0 <= a < b < c < s.history.len()
                &&& s.history[a].step matches RestoreStep::Vcpu(
                    VcpuStep::Send { vcpu: first, event: VcpuEvent::RestoreState(_) },
                )
                &&& first == vcpu
                &&& s.history[b].step matches RestoreStep::Vcpu(
                    VcpuStep::Send { vcpu: second, event: VcpuEvent::RebaseTimer(_) },
                )
                &&& second == vcpu
                &&& s.history[c].step == RestoreStep::Vcpu(
                    VcpuStep::Send { vcpu: vcpu as usize, event: VcpuEvent::Resume },
                )
                &&& forall|k: int|
                    0 <= k < s.history.len() && #[trigger] tells(s, k, vcpu) ==> k == a || k == b
                        || k == c
            },
{
    assert(s.history.len() > 0);
    registers_reach_vcpus(s, vcpu);
    let (registers, at) = choose|registers: Vec<u8>, k: int|
        given_registers(s, vcpu, registers, k);
    let a = at + 1;
    timers_are_rebased(s);
    let (now, read) = choose|now: u64, k: int| timers_moved(s, now, k);
    assert(timer_moved(s, vcpu, now, read));
    let b = read + 1 + 2 * vcpu;
    let script = restore::restore_script(s.inputs, meta_of(s));
    let step = RestoreStep::Vcpu(
        VcpuStep::Send { vcpu: vcpu as usize, event: VcpuEvent::Resume },
    );
    let place = 2 * s.inputs.vcpu_count + restore::interrupt_script(s.inputs).len() + meta_of(
        s,
    ).virtio_bases@.len() + 1 + vcpu;
    lemma_script_at(s.inputs, meta_of(s), place);
    assert(script[place] == step);
    let c = lemma_scheduled_done(s, step, 6);
    assert(s.steps()[a] == s.history[a].step && s.steps()[b] == s.history[b].step && s.steps()[c]
        == s.history[c].step);
    assert(a < b) by {
        if b < a {
            assert(restore::phase(s.steps()[b]) <= restore::phase(s.steps()[a]));
        }
    }
    assert(b < c) by {
        if c < b {
            assert(restore::phase(s.steps()[c]) <= restore::phase(s.steps()[b]));
        }
    }
    assert forall|k: int| 0 <= k < s.history.len() && #[trigger] tells(s, k, vcpu) implies k == a
        || k == b || k == c by {
        assert(tells(s, a, vcpu) && tells(s, b, vcpu) && tells(s, c, vcpu));
        if k < a {
            vcpus_are_told_in_turn(s, vcpu, k, a);
        } else if a < k < b {
            vcpus_are_told_in_turn(s, vcpu, a, k);
            vcpus_are_told_in_turn(s, vcpu, k, b);
        } else if b < k < c {
            vcpus_are_told_in_turn(s, vcpu, b, k);
            vcpus_are_told_in_turn(s, vcpu, k, c);
        } else if k > c {
            vcpus_are_told_in_turn(s, vcpu, c, k);
        }
    }
}

/// A restore that succeeds has done all of the script that the top-level section
/// calls for, each step of it once and in order, and after each of them what followed
/// from it.
pub proof fn success_is_complete<E>(s: RestoreState<E>)
    requires
        s.valid(),
        s.finished(),
        s.failure is None,
    ensures
        s.history[0].step is LoadMeta,
        restore::mismatch(s.inputs, meta_of(s)) is None,
        restore::backbone(
            Seq::new((s.history.len() - 1) as nat, |k: int| s.history[k + 1].step),
        ) == restore::restore_script(s.inputs, meta_of(s)),
        forall|k: int| 0 <= k < s.history.len() ==> #[trigger] s.refused(k) is None,
        forall|k: int|
            0 < k < s.history.len() ==> carried_out(s, k, #[trigger] s.consequence(k)),
{
    assert(s.steps()[0] is LoadMeta);
    assert(s.history[0].step == s.steps()[0]);
    failure_ends_restore(s);
    assert(s.refused(0) is None);
    assert(s.steps().drop_first() =~= Seq::new(
        (s.history.len() - 1) as nat,
        |k: int| s.history[k + 1].step,
    ));
    assert forall|k: int| 0 < k < s.history.len() implies carried_out(
        s,
        k,
        #[trigger] s.consequence(k),
    ) by {
        let steps = s.consequence(k);
        assert forall|j: int| 0 <= j < steps.len() implies k + 1 + j < s.history.len()
            && s.history[k + 1 + j].step == #[trigger] steps[j] && s.refused(k + 1 + j) is None by {
            assert(s.follows_at(k, j));
        }
    }
}

/// A section is loaded into a device with its base address, wherever in the list of
/// devices that stands, and refused only if there is none.
pub proof fn devices_are_found_by_base(inputs: CaptureInputs, base: u64)
    ensures
        match restore::device_of(inputs.virtio_bases@, base) {
            Some(device) => device < inputs.virtio_bases@.len()
                && inputs.virtio_bases@[device as int] == base,
            None => !inputs.virtio_bases@.contains(base),
        },
{
    assert(inputs.virtio_bases.len() == inputs.virtio_bases@.len());
    lemma_device_of(inputs.virtio_bases@, base);
}

/// A snapshot of a machine can be restored into that machine: its summary is
/// accepted, and each of its virtio sections goes to the device that it was taken
/// from, if no two devices share a base address.
pub proof fn same_machine_is_accepted<E, T, D>(
    inputs: CaptureInputs,
    meta: MetaSection,
    virtio: Seq<VirtioMmioSection<T, D>>,
    i: int,
    has_device: bool,
)
    requires
        meta.vcpu_count == inputs.vcpu_count as u32,
        meta.nested_enabled == inputs.nested_enabled,
        sections::bases_of(virtio) == inputs.virtio_bases@,
        0 <= i < virtio.len(),
    ensures
        restore::refusal(inputs, RestoreStep::LoadMeta, RestoreOutcome::<E>::Meta(meta)) is None,
        restore::refusal(
            inputs,
            RestoreStep::LoadVirtio { index: i as u32 },
            RestoreOutcome::<E>::Virtio { mmio_base: virtio[i].mmio_base, has_device },
        ) is None,
        inputs.virtio_bases@.no_duplicates() ==> restore::device_of(
            inputs.virtio_bases@,
            virtio[i].mmio_base,
        ) == Some(i as usize),
{
    let bases = inputs.virtio_bases@;
    assert(inputs.virtio_bases.len() == bases.len());
    assert(bases[i] == virtio[i].mmio_base);
    devices_are_found_by_base(inputs, virtio[i].mmio_base);
}

/// The counter at capture, moved on by the ticks that the timers are moved on by,
/// is the counter at restore.
pub proof fn timers_keep_their_distance(captured_at: u64, now: u64)
    ensures
        (captured_at + restore::ticks_between(captured_at, now)) % 0x1_0000_0000_0000_0000
            == now as int,
{
}

/// Where the restore has read the registers of a vCPU, it has read what stands in the
/// section of that name.
pub open spec fn reads_registers<E, G, L, T, D>(
    s: RestoreState<E>,
    list: Seq<Section<'_, G, L, T, D>>,
) -> bool {
    forall|k: int|
        0 <= k < s.history.len() ==> match ((#[trigger] s.history[k]).step, s.history[k].outcome) {
            (
                RestoreStep::LoadVcpuState { index, .. },
                RestoreOutcome::Registers(registers),
            ) => section_laws::lookup(list, SectionId::Vcpu, index) == Some(
                Payload::<G, L, T, D>::Raw(&registers),
            ),
            _ => true,
        }
}

/// What a capture recorded of a vCPU is what a restore gives it, if the reader finds
/// in each section what was written there.
pub proof fn captured_registers_come_back<E, G, L, T, D>(
    meta: &MetaSection,
    recorded: RecordedView<G, L, T, D>,
    s: RestoreState<E>,
    vcpu: int,
)
    requires
        section_laws::countable(recorded),
        reads_registers(s, sections::section_list(meta, recorded)),
        s.valid(),
        got_past(s, 3),
        0 <= vcpu < s.inputs.vcpu_count,
        vcpu < recorded.vcpu_states.len(),
    ensures
        exists|k: int| #[trigger] given_registers(s, vcpu, recorded.vcpu_states[vcpu], k),
{
    registers_reach_vcpus(s, vcpu);
    section_laws::sections_read_back(meta, recorded);
    let (registers, k) = choose|registers: Vec<u8>, k: int|
        given_registers(s, vcpu, registers, k);
    let list = sections::section_list(meta, recorded);
    assert(given_registers(s, vcpu, registers, k));
    assert(section_laws::lookup(list, SectionId::Vcpu, vcpu as u32) == Some(
        Payload::<G, L, T, D>::Raw(&registers),
    )) by {
        assert(s.history[k].outcome == RestoreOutcome::<E>::Registers(registers));
    }
    assert(registers == recorded.vcpu_states[vcpu]);
}

/// Where the restore has read a virtio section, it has read what stands in the
/// section of that name.
pub open spec fn reads_devices<E, G, L, T, D>(
    s: RestoreState<E>,
    list: Seq<Section<'_, G, L, T, D>>,
) -> bool {
    forall|k: int|
        0 <= k < s.history.len() ==> match ((#[trigger] s.history[k]).step, s.history[k].outcome) {
            (
                RestoreStep::LoadVirtio { index },
                RestoreOutcome::Virtio { mmio_base, has_device },
            ) => {
                &&& section_laws::lookup(list, SectionId::VirtioMmio, index) matches Some(
                    Payload::Virtio(section),
                )
                &&& section.mmio_base == mmio_base
                &&& section.device is Some <==> has_device
            },
            _ => true,
        }
}

/// What a capture recorded of a device goes back to the device at its base address, if
/// the reader finds in each section what was written there. The machine may have other
/// devices besides, and have them in another order.
pub proof fn captured_devices_come_back<E, G, L, T, D>(
    meta: &MetaSection,
    recorded: RecordedView<G, L, T, D>,
    s: RestoreState<E>,
    i: int,
)
    requires
        section_laws::countable(recorded),
        reads_devices(s, sections::section_list(meta, recorded)),
        s.valid(),
        got_past(s, 4),
        meta_of(s).virtio_bases@ == sections::bases_of(recorded.virtio),
        0 <= i < recorded.virtio.len(),
    ensures
        exists|device: usize, k: int|
            s.inputs.virtio_bases@[device as int] == recorded.virtio[i].mmio_base
                && #[trigger] section_restored(
                s,
                i,
                device,
                recorded.virtio[i].device is Some,
                k,
            ),
        section_laws::lookup(
            sections::section_list(meta, recorded),
            SectionId::VirtioMmio,
            i as u32,
        ) == Some(Payload::<G, L, T, D>::Virtio(&recorded.virtio[i])),
{
    sections_reach_devices(s, i);
    section_laws::sections_read_back(meta, recorded);
    let (device, has_device, k) = choose|device: usize, has_device: bool, k: int|
        section_restored(s, i, device, has_device, k);
    let list = sections::section_list(meta, recorded);
    assert(section_restored(s, i, device, has_device, k));
    assert(section_laws::lookup(list, SectionId::VirtioMmio, i as u32) == Some(
        Payload::<G, L, T, D>::Virtio(&recorded.virtio[i]),
    ));
    assert(s.history[k].step == RestoreStep::LoadVirtio { index: i as u32 });
    let state_recorded = recorded.virtio[i].device is Some;
    assert(section_restored(s, i, device, state_recorded, k));
}

} // verus!
