//! That a restore does not depend on the order of the devices, nor on devices that the
//! snapshot does not know.
use crate::inputs::CaptureInputs;
use crate::restore;
use crate::restore::{RestoreOutcome, RestoreState, RestoreStep};
use crate::restore_laws;
use crate::sections::MetaSection;
use crate::vcpu::{Expected, VcpuStep};
use vstd::prelude::*;

verus! {

/// The other machine differs only in its devices, and has all the devices of this one,
/// in whatever order and with whatever others.
pub open spec fn extends(inputs: CaptureInputs, other: CaptureInputs) -> bool {
    &&& inputs.vcpu_count == other.vcpu_count
    &&& inputs.has_irqchip == other.has_irqchip
    &&& inputs.has_gic == other.has_gic
    &&& inputs.nested_enabled == other.nested_enabled
    &&& forall|base: u64|
        inputs.virtio_bases@.contains(base) ==> #[trigger] other.virtio_bases@.contains(base)
}

/// The device at position `a` of one machine and that at position `b` of the other have
/// the same base address.
pub open spec fn same_place(
    inputs: CaptureInputs,
    other: CaptureInputs,
    a: usize,
    b: usize,
) -> bool {
    &&& a < inputs.virtio_bases@.len()
    &&& b < other.virtio_bases@.len()
    &&& inputs.virtio_bases@[a as int] == other.virtio_bases@[b as int]
}

/// The same step, but for the position of the device that it is about.
pub open spec fn alike(
    inputs: CaptureInputs,
    other: CaptureInputs,
    x: RestoreStep,
    y: RestoreStep,
) -> bool {
    match (x, y) {
        (
            RestoreStep::ActivateDevice { device: a, index: i },
            RestoreStep::ActivateDevice { device: b, index: j },
        ) => i == j && same_place(inputs, other, a, b),
        (RestoreStep::PauseDevice { device: a }, RestoreStep::PauseDevice { device: b }) =>
            same_place(inputs, other, a, b),
        (
            RestoreStep::RestoreDevice { device: a, index: i },
            RestoreStep::RestoreDevice { device: b, index: j },
        ) => i == j && same_place(inputs, other, a, b),
        (RestoreStep::ResumeDevice { device: a }, RestoreStep::ResumeDevice { device: b }) =>
            same_place(inputs, other, a, b),
        (
            RestoreStep::RestoreTransport { device: a, index: i },
            RestoreStep::RestoreTransport { device: b, index: j },
        ) => i == j && same_place(inputs, other, a, b),
        (RestoreStep::ReplayInterrupt { device: a }, RestoreStep::ReplayInterrupt { device: b }) =>
            same_place(inputs, other, a, b),
        _ => x == y && restore::device_in(x) is None,
    }
}

/// All the steps are alike.
pub open spec fn all_alike(
    inputs: CaptureInputs,
    other: CaptureInputs,
    xs: Seq<RestoreStep>,
    ys: Seq<RestoreStep>,
) -> bool {
    &&& xs.len() == ys.len()
    &&& forall|i: int| 0 <= i < xs.len() ==> alike(inputs, other, #[trigger] xs[i], ys[i])
}

/// What is to be done up to the replay of interrupts that comes last.
pub open spec fn before_replay<E>(s: RestoreState<E>) -> Seq<RestoreStep> {
    s.pending.take(s.pending.len() - s.inputs.virtio_bases@.len())
}

/// The replay of interrupts that comes last is still to be done in full.
pub open spec fn before_end<E>(s: RestoreState<E>) -> bool {
    &&& s.failure is None
    &&& s.pending.len() >= s.inputs.virtio_bases@.len()
    &&& s.pending.skip(s.pending.len() - s.inputs.virtio_bases@.len()) == restore::replay_script(
        s.inputs.virtio_bases@.len(),
    )
}

/// Two restores have done, and are about to do, the same to the devices at the same base
/// addresses, up to the replay of interrupts that comes last.
pub open spec fn in_step<E>(s: RestoreState<E>, t: RestoreState<E>) -> bool {
    &&& extends(s.inputs, t.inputs)
    &&& before_end(s)
    &&& before_end(t)
    &&& all_alike(s.inputs, t.inputs, before_replay(s), before_replay(t))
    &&& s.history.len() == t.history.len()
    &&& forall|k: int|
        0 <= k < s.history.len() ==> (#[trigger] s.history[k]).outcome == t.history[k].outcome
            && alike(s.inputs, t.inputs, s.history[k].step, t.history[k].step)
}

/// Alike steps with the same outcome go equally well, and have alike consequences.
proof fn lemma_alike<E>(
    inputs: CaptureInputs,
    other: CaptureInputs,
    x: RestoreStep,
    y: RestoreStep,
    outcome: RestoreOutcome<E>,
)
    requires
        extends(inputs, other),
        alike(inputs, other, x, y),
        !(x is LoadMeta),
        restore::refusal(inputs, x, outcome) is None,
    ensures
        restore::refusal(other, y, outcome) is None,
        restore::fits(x, outcome) ==> restore::fits(y, outcome),
        all_alike(
            inputs,
            other,
            restore::follow_up(inputs, x, outcome),
            restore::follow_up(other, y, outcome),
        ),
{
    if let RestoreStep::LoadVirtio { index } = x {
        if let RestoreOutcome::Virtio { mmio_base, has_device } = outcome {
            restore_laws::devices_are_found_by_base(inputs, mmio_base);
            restore_laws::devices_are_found_by_base(other, mmio_base);
            assert(inputs.virtio_bases@.contains(mmio_base));
            assert(other.virtio_bases@.contains(mmio_base));
        }
    }
}

/// The script of a top-level section ends with the replay of interrupts.
proof fn lemma_script_end(inputs: CaptureInputs, meta: MetaSection)
    ensures
        ({
            let script = restore::restore_script(inputs, meta);
            let n = inputs.virtio_bases@.len();
            &&& script.len() >= n
            &&& script.skip(script.len() - n) == restore::replay_script(n)
            &&& forall|k: int|
                0 <= k < script.len() - n ==> restore::device_in(#[trigger] script[k]) is None
        }),
{
    let script = restore::restore_script(inputs, meta);
    let n = inputs.virtio_bases@.len();
    assert(script.skip(script.len() - n) =~= restore::replay_script(n));
    let v = inputs.vcpu_count as int;
    let q = restore::interrupt_script(inputs).len() as int;
    assert forall|k: int| 0 <= k < script.len() - n implies restore::device_in(
        #[trigger] script[k],
    ) is None by {
        if v <= k < v + q {
            assert(script[k] == restore::interrupt_script(inputs)[k - v]);
        }
    }
}

/// A snapshot that one machine accepts is accepted by another that has the same devices
/// and more, in any order; and the two restores start in step.
pub proof fn restores_start_in_step<E>(
    inputs: CaptureInputs,
    other: CaptureInputs,
    meta: MetaSection,
)
    requires
        extends(inputs, other),
        restore::mismatch(inputs, meta) is None,
    ensures
        in_step(
            RestoreState::<E>::start(inputs).accept(RestoreOutcome::Meta(meta)),
            RestoreState::<E>::start(other).accept(RestoreOutcome::Meta(meta)),
        ),
{
    let s = RestoreState::<E>::start(inputs).accept(RestoreOutcome::Meta(meta));
    let t = RestoreState::<E>::start(other).accept(RestoreOutcome::Meta(meta));
    assert(s.pending =~= restore::restore_script(inputs, meta));
    assert(t.pending =~= restore::restore_script(other, meta));
    lemma_script_end(inputs, meta);
    lemma_script_end(other, meta);
    let n = inputs.virtio_bases@.len();
    let m = other.virtio_bases@.len();
    assert(restore::interrupt_script(inputs) == restore::interrupt_script(other));
    assert(before_replay(s) =~= before_replay(t));
    assert forall|i: int| 0 <= i < before_replay(s).len() implies alike(
        inputs,
        other,
        #[trigger] before_replay(s)[i],
        before_replay(t)[i],
    ) by {
        assert(restore::device_in(s.pending[i]) is None);
    }
}

/// As long as the one restore goes well, so does the other with the same outcomes, and
/// does the same to the devices at the same base addresses.
pub proof fn restores_stay_in_step<E>(
    s: RestoreState<E>,
    t: RestoreState<E>,
    outcome: RestoreOutcome<E>,
)
    requires
        in_step(s, t),
        before_replay(s).len() > 0,
        !(s.pending[0] is LoadMeta),
        restore::fits(s.pending[0], outcome),
        restore::refusal(s.inputs, s.pending[0], outcome) is None,
    ensures
        restore::fits(t.pending[0], outcome),
        in_step(s.accept(outcome), t.accept(outcome)),
{
    let n = s.inputs.virtio_bases@.len();
    let m = t.inputs.virtio_bases@.len();
    assert(before_replay(s)[0] == s.pending[0]);
    assert(before_replay(t)[0] == t.pending[0]);
    lemma_alike(s.inputs, t.inputs, s.pending[0], t.pending[0], outcome);
    let a = s.accept(outcome);
    let b = t.accept(outcome);
    let x = restore::follow_up(s.inputs, s.pending[0], outcome);
    let y = restore::follow_up(t.inputs, t.pending[0], outcome);
    assert(before_replay(a) =~= x + before_replay(s).drop_first());
    assert(before_replay(b) =~= y + before_replay(t).drop_first());
    assert(a.pending.skip(a.pending.len() - n) =~= s.pending.skip(s.pending.len() - n));
    assert(b.pending.skip(b.pending.len() - m) =~= t.pending.skip(t.pending.len() - m));
    assert forall|i: int| 0 <= i < before_replay(a).len() implies alike(
        s.inputs,
        t.inputs,
        #[trigger] before_replay(a)[i],
        before_replay(b)[i],
    ) by {
        if i < x.len() {
            assert(before_replay(a)[i] == x[i]);
        } else {
            assert(before_replay(a)[i] == before_replay(s)[i - x.len() + 1]);
        }
    }
    assert forall|k: int| 0 <= k < a.history.len() implies (#[trigger] a.history[k]).outcome
        == b.history[k].outcome && alike(
        s.inputs,
        t.inputs,
        a.history[k].step,
        b.history[k].step,
    ) by {
        if k < s.history.len() {
            assert(a.history[k] == s.history[k]);
        }
    }
}

/// All that is then left to either is to replay the interrupts of every device it has,
/// once each, which cannot fail.
pub proof fn restores_end_with_replay<E>(s: RestoreState<E>, t: RestoreState<E>)
    requires
        in_step(s, t),
        before_replay(s).len() == 0,
    ensures
        s.pending == restore::replay_script(s.inputs.virtio_bases@.len()),
        t.pending == restore::replay_script(t.inputs.virtio_bases@.len()),
        forall|k: int, outcome: RestoreOutcome<E>|
            0 <= k < t.pending.len() && #[trigger] restore::fits(t.pending[k], outcome)
                ==> restore::refusal(t.inputs, t.pending[k], outcome) is None,
{
    assert(before_replay(t).len() == 0);
    assert(s.pending.skip(0) =~= s.pending);
    assert(t.pending.skip(0) =~= t.pending);
}

/// A device with a base address that no section has is left alone but for the replay of
/// its interrupts, which comes after every vCPU has been awaited.
pub proof fn unnamed_devices_are_left_alone<E>(s: RestoreState<E>, device: usize, k: int)
    requires
        s.valid(),
        device < s.inputs.virtio_bases@.len(),
        !s.reads_base(s.inputs.virtio_bases@[device as int]),
        0 <= k < s.steps().len(),
        restore::device_in(s.steps()[k]) == Some(device),
    ensures
        s.steps()[k] == (RestoreStep::ReplayAfterResume { device }),
        forall|j: int|
            0 <= j < s.steps().len() && (#[trigger] s.steps()[j] matches RestoreStep::Vcpu(
                VcpuStep::Receive { expected: Expected::Resumed, .. },
            )) ==> j < k,
{
    assert(s.steps()[k] is ReplayAfterResume);
    assert forall|j: int|
        0 <= j < s.steps().len() && (#[trigger] s.steps()[j] matches RestoreStep::Vcpu(
            VcpuStep::Receive { expected: Expected::Resumed, .. },
        )) implies j < k by {
        if k < j {
            assert(restore::phase(s.steps()[k]) <= restore::phase(s.steps()[j]));
        }
    }
}

} // verus!
