//! What was done by the time that a restore gets somewhere.
use crate::restore;
use crate::restore::{RestoreOutcome, RestoreState, RestoreStep};
use crate::restore_laws;
use crate::restore_laws::{got_past, meta_of};
use crate::restore_step_laws;
use crate::vcpu::{Expected, VcpuEvent, VcpuResponse, VcpuStep};
use vstd::prelude::*;

verus! {

/// This step was done, and went well.
pub open spec fn done<E>(s: RestoreState<E>, step: RestoreStep) -> bool {
    exists|k: int|
        0 <= k < s.history.len() && (#[trigger] s.history[k]).step == step
            && !restore_step_laws::went_wrong(s.inputs, step, s.history[k].outcome)
}

/// Something was looked for at the `k`-th step; if it was there, `then` was done right behind
/// it, and went well.
pub open spec fn looked_and_restored<E>(
    s: RestoreState<E>,
    look: RestoreStep,
    then: RestoreStep,
    k: int,
) -> bool {
    &&& 0 <= k < s.history.len()
    &&& s.history[k].step == look
    &&& s.history[k].outcome matches RestoreOutcome::Found(there)
    &&& there ==> {
        &&& k + 1 < s.history.len()
        &&& s.history[k + 1].step == then
        &&& s.history[k + 1].outcome is Done
    }
}

/// The look is done in a restore that is past it, and what is found is restored behind it.
proof fn lemma_looked<E>(s: RestoreState<E>, look: RestoreStep, then: RestoreStep) -> (k: int)
    requires
        s.valid(),
        got_past(s, 2),
        restore::restore_script(s.inputs, meta_of(s)).contains(look),
        look is FindIrqchipState && then is RestoreIrqchip || look is FindGicState
            && then is RestoreGic || look is FindPendingInterrupts
            && then is RestorePendingInterrupts,
    ensures
        looked_and_restored(s, look, then, k),
{
    let k = restore_laws::lemma_scheduled_done(s, look, 2);
    assert(restore::fits(s.history[k].step, s.history[k].outcome));
    if s.history[k].outcome == RestoreOutcome::<E>::Found(true) {
        assert(s.consequence(k) == seq![then]);
        restore_laws::lemma_consequence_done(s, k, 0, 2);
        assert(restore::fits(s.history[k + 1].step, s.history[k + 1].outcome));
    }
    k
}

/// Once a restore is past the interrupts, the state of every interrupt controller that the
/// machine has was looked for, and what was found was restored right behind the look:
/// whatever other controllers the machine has.
pub proof fn found_interrupt_state_is_restored<E>(s: RestoreState<E>)
    requires
        s.valid(),
        got_past(s, 2),
    ensures
        s.inputs.has_irqchip ==> exists|k: int| #[trigger]
            looked_and_restored(
                s,
                RestoreStep::FindIrqchipState,
                RestoreStep::RestoreIrqchip,
                k,
            ),
        s.inputs.has_gic ==> exists|k: int| #[trigger]
            looked_and_restored(s, RestoreStep::FindGicState, RestoreStep::RestoreGic, k),
        exists|k: int| #[trigger]
            looked_and_restored(
                s,
                RestoreStep::FindPendingInterrupts,
                RestoreStep::RestorePendingInterrupts,
                k,
            ),
{
    let script = restore::restore_script(s.inputs, meta_of(s));
    let n = s.inputs.vcpu_count as int;
    let g = if s.inputs.has_irqchip {
        n + 1
    } else {
        n
    };
    let q = if s.inputs.has_gic {
        g + 1
    } else {
        g
    };
    restore_laws::lemma_script_at(s.inputs, meta_of(s), n);
    restore_laws::lemma_script_at(s.inputs, meta_of(s), g);
    restore_laws::lemma_script_at(s.inputs, meta_of(s), q);
    if s.inputs.has_irqchip {
        assert(script[n] == RestoreStep::FindIrqchipState);
        let k = lemma_looked(s, RestoreStep::FindIrqchipState, RestoreStep::RestoreIrqchip);
    }
    if s.inputs.has_gic {
        assert(script[g] == RestoreStep::FindGicState);
        let k = lemma_looked(s, RestoreStep::FindGicState, RestoreStep::RestoreGic);
    }
    assert(script[q] == RestoreStep::FindPendingInterrupts);
    let k = lemma_looked(
        s,
        RestoreStep::FindPendingInterrupts,
        RestoreStep::RestorePendingInterrupts,
    );
}

/// Whenever interrupt state is found, restoring it comes next.
pub proof fn interrupt_state_is_restored_where_found<E>(s: RestoreState<E>, k: int)
    requires
        s.valid(),
        0 <= k < s.history.len(),
        s.history[k].outcome == RestoreOutcome::<E>::Found(true),
    ensures
        k + 1 < s.steps().len(),
        s.history[k].step is FindIrqchipState ==> s.steps()[k + 1] is RestoreIrqchip,
        s.history[k].step is FindGicState ==> s.steps()[k + 1] is RestoreGic,
        s.history[k].step is FindPendingInterrupts ==> s.steps()[k
            + 1] is RestorePendingInterrupts,
{
    assert(s.steps()[k] == s.history[k].step);
    assert(restore::fits(s.history[k].step, s.history[k].outcome));
    assert(s.steps()[0] is LoadMeta);
    assert(s.consequence(k).len() == 1);
    assert(s.follows_at(k, 0));
    restore_laws::failure_ends_restore(s);
    if k + 1 == s.history.len() {
        assert(s.refused(k) is None);
    }
}

/// Interrupt state is restored only where it was found, and only of a controller that the
/// machine has.
pub proof fn only_found_interrupt_state_is_restored<E>(s: RestoreState<E>, k: int)
    requires
        s.valid(),
        0 <= k < s.steps().len(),
        s.steps()[k] is RestoreIrqchip || s.steps()[k] is RestoreGic
            || s.steps()[k] is RestorePendingInterrupts,
    ensures
        0 < k <= s.history.len(),
        s.history[k - 1].outcome == RestoreOutcome::<E>::Found(true),
        s.steps()[k] is RestoreIrqchip ==> s.history[k - 1].step is FindIrqchipState,
        s.steps()[k] is RestoreGic ==> s.history[k - 1].step is FindGicState,
        s.steps()[k] is RestorePendingInterrupts ==> s.history[k - 1].step is FindPendingInterrupts,
{
    assert(s.steps()[0] is LoadMeta);
    let j = restore_laws::lemma_parent(s, k);
    assert(s.consequence(j)[k - j - 1] == s.steps()[k]);
}

/// Once a restore is past the initial pause, every vCPU has reported that it stands still.
pub proof fn every_vcpu_is_awaited_first<E>(s: RestoreState<E>, vcpu: usize)
    requires
        s.valid(),
        got_past(s, 1),
        vcpu < s.inputs.vcpu_count,
    ensures
        exists|k: int|
            0 <= k < s.history.len() && (#[trigger] s.history[k]).step == RestoreStep::Vcpu(
                VcpuStep::Receive { vcpu, expected: Expected::InitialPaused },
            ) && (s.history[k].outcome matches RestoreOutcome::Reply(
                Ok(VcpuResponse::Paused(_)),
            )),
{
    let script = restore::restore_script(s.inputs, meta_of(s));
    let step = RestoreStep::Vcpu(VcpuStep::Receive { vcpu, expected: Expected::InitialPaused });
    restore_laws::lemma_script_at(s.inputs, meta_of(s), vcpu as int);
    assert(script[vcpu as int] == step);
    let k = restore_laws::lemma_scheduled_done(s, step, 1);
    assert(restore::fits(s.history[k].step, s.history[k].outcome));
}

/// The section was read at the `k`-th step, and the device at `device`, the first with its
/// base address, was given what it holds, step by step, all of which went well.
pub open spec fn given_to<E>(
    s: RestoreState<E>,
    section: int,
    device: usize,
    has_device: bool,
    k: int,
) -> bool {
    let index = section as u32;
    &&& 0 <= k < s.history.len()
    &&& device < s.inputs.virtio_bases@.len()
    &&& s.history[k].step == (RestoreStep::LoadVirtio { index })
    &&& s.history[k].outcome == RestoreOutcome::<E>::Virtio {
        mmio_base: s.inputs.virtio_bases@[device as int],
        has_device,
    }
    &&& forall|j: int|
        0 <= j < device ==> #[trigger] s.inputs.virtio_bases@[j]
            != s.inputs.virtio_bases@[device as int]
    &&& if has_device {
        &&& did(s, k + 1, RestoreStep::ActivateDevice { device, index })
        &&& did(s, k + 2, RestoreStep::PauseDevice { device })
        &&& did(s, k + 3, RestoreStep::RestoreDevice { device, index })
        &&& did(s, k + 4, RestoreStep::ResumeDevice { device })
        &&& did(s, k + 5, RestoreStep::ReplayInterrupt { device })
    } else {
        &&& did(s, k + 1, RestoreStep::RestoreTransport { device, index })
        &&& did(s, k + 2, RestoreStep::ReplayInterrupt { device })
    }
}

/// The `k`-th step done was this one, and went well.
pub open spec fn did<E>(s: RestoreState<E>, k: int, step: RestoreStep) -> bool {
    &&& 0 <= k < s.history.len()
    &&& s.history[k].step == step
    &&& s.history[k].outcome is Done
}

/// Once a restore is past the devices, every virtio section of the snapshot was given to the
/// first device with its base address.
pub proof fn every_section_is_given_to_its_device<E>(s: RestoreState<E>, section: int)
    requires
        s.valid(),
        got_past(s, 4),
        0 <= section < meta_of(s).virtio_bases@.len(),
    ensures
        exists|device: usize, has_device: bool, k: int| #[trigger]
            given_to(s, section, device, has_device, k),
{
    restore_laws::sections_reach_devices(s, section);
    let (found, has_device, k) = choose|device: usize, has_device: bool, k: int|
        restore_laws::section_restored(s, section, device, has_device, k);
    assert(restore_laws::section_restored(s, section, found, has_device, k));
    let steps = restore::device_script(found, has_device, section as u32);
    assert forall|j: int| 0 <= j < steps.len() implies did(s, k + 1 + j, #[trigger] steps[j]) by {
        assert(restore::fits(s.history[k + 1 + j].step, s.history[k + 1 + j].outcome));
        assert(s.refused(k + 1 + j) is None);
    }
    restore_laws::first_device_is_restored(s, section, found, has_device, k);
    if has_device {
        assert(did(s, k + 1 + 0, steps[0]));
        assert(did(s, k + 1 + 1, steps[1]));
        assert(did(s, k + 1 + 2, steps[2]));
        assert(did(s, k + 1 + 3, steps[3]));
        assert(did(s, k + 1 + 4, steps[4]));
    } else {
        assert(did(s, k + 1 + 0, steps[0]));
        assert(did(s, k + 1 + 1, steps[1]));
    }
    assert(given_to(s, section, found, has_device, k));
}

/// A restore reports success exactly if no step went wrong.
pub proof fn success_is_that_all_went_well<E>(s: RestoreState<E>)
    requires
        s.valid(),
    ensures
        s.failure is None <==> forall|k: int|
            0 <= k < s.history.len() ==> !restore_step_laws::went_wrong(
                s.inputs,
                (#[trigger] s.history[k]).step,
                s.history[k].outcome,
            ),
{
    restore_laws::failure_ends_restore(s);
    assert forall|k: int| 0 <= k < s.history.len() implies (#[trigger] s.refused(k) is Some
        <==> restore_step_laws::went_wrong(s.inputs, s.history[k].step, s.history[k].outcome)) by {
        assert(restore::fits(s.history[k].step, s.history[k].outcome));
        if let RestoreOutcome::Virtio { mmio_base, .. } = s.history[k].outcome {
            restore_laws::devices_are_found_by_base(s.inputs, mmio_base);
        }
    }
    if s.failure is None {
        assert forall|k: int| 0 <= k < s.history.len() implies !restore_step_laws::went_wrong(
            s.inputs,
            (#[trigger] s.history[k]).step,
            s.history[k].outcome,
        ) by {
            assert(s.refused(k) is None);
        }
    } else {
        let k = s.history.len() - 1;
        assert(s.refused(k) is Some);
        assert(restore_step_laws::went_wrong(s.inputs, s.history[k].step, s.history[k].outcome));
    }
}

/// A step of the script was done, and went well, in a restore that ends well.
proof fn lemma_done<E>(s: RestoreState<E>, step: RestoreStep)
    requires
        s.valid(),
        s.finished(),
        s.failure is None,
        s.history.len() > 0,
        restore::restore_script(s.inputs, meta_of(s)).contains(step),
    ensures
        done(s, step),
{
    let k = restore_laws::lemma_scheduled_done(s, step, restore::phase(step));
    success_is_that_all_went_well(s);
    assert(s.history[k].step == step);
}

/// A restore that reports success has told every vCPU to run on and has its word for it, has
/// read the counter and every section, and has raised the interrupts of every device again.
pub proof fn successful_restores_resume_everything<E>(s: RestoreState<E>)
    requires
        s.valid(),
        s.finished(),
        s.failure is None,
    ensures
        forall|v: usize|
            v < s.inputs.vcpu_count ==> #[trigger] done(
                s,
                RestoreStep::Vcpu(VcpuStep::Send { vcpu: v, event: VcpuEvent::Resume }),
            ),
        forall|v: usize|
            v < s.inputs.vcpu_count ==> #[trigger] done(
                s,
                RestoreStep::Vcpu(VcpuStep::Receive { vcpu: v, expected: Expected::Resumed }),
            ),
        forall|v: usize|
            v < s.inputs.vcpu_count ==> #[trigger] done(
                s,
                RestoreStep::LoadVcpuState { vcpu: v, index: v as u32 },
            ),
        forall|i: int|
            0 <= i < meta_of(s).virtio_bases@.len() ==> #[trigger] done(
                s,
                RestoreStep::LoadVirtio { index: i as u32 },
            ),
        forall|device: usize|
            device < s.inputs.virtio_bases@.len() ==> #[trigger] done(
                s,
                RestoreStep::ReplayAfterResume { device },
            ),
        done(s, RestoreStep::ReadClock { captured_at: meta_of(s).capture_mach_time }),
{
    let inputs = s.inputs;
    let meta = meta_of(s);
    let script = restore::restore_script(inputs, meta);
    let n = inputs.vcpu_count as int;
    let q = n + restore::interrupt_script(inputs).len();
    let v0 = q + n;
    let c = v0 + meta.virtio_bases@.len();
    let e = c + 1 + 2 * n;
    restore_step_laws::lemma_full_restore(inputs, meta);
    assert(s.history.len() > 0);
    assert forall|v: usize| v < inputs.vcpu_count implies #[trigger] done(
        s,
        RestoreStep::Vcpu(VcpuStep::Send { vcpu: v, event: VcpuEvent::Resume }),
    ) by {
        assert(script.contains(script[c + 1 + v]));
        lemma_done(s, script[c + 1 + v]);
    }
    assert forall|v: usize| v < inputs.vcpu_count implies #[trigger] done(
        s,
        RestoreStep::Vcpu(VcpuStep::Receive { vcpu: v, expected: Expected::Resumed }),
    ) by {
        assert(script.contains(script[c + 1 + n + v]));
        lemma_done(s, script[c + 1 + n + v]);
    }
    assert forall|v: usize| v < inputs.vcpu_count implies #[trigger] done(
        s,
        RestoreStep::LoadVcpuState { vcpu: v, index: v as u32 },
    ) by {
        assert(script.contains(script[q + v]));
        lemma_done(s, script[q + v]);
    }
    assert forall|i: int| 0 <= i < meta.virtio_bases@.len() implies #[trigger] done(
        s,
        RestoreStep::LoadVirtio { index: i as u32 },
    ) by {
        assert(script.contains(script[v0 + i]));
        lemma_done(s, script[v0 + i]);
    }
    assert forall|device: usize| device < inputs.virtio_bases@.len() implies #[trigger] done(
        s,
        RestoreStep::ReplayAfterResume { device },
    ) by {
        assert(script.contains(script[e + device]));
        lemma_done(s, script[e + device]);
    }
    assert(script.contains(script[c]));
    lemma_done(s, script[c]);
}

} // verus!
