//! What one step of a restore leads to, by what came of it.
use crate::inputs::CaptureInputs;
use crate::restore;
use crate::restore::{Performed, RestoreOutcome, RestoreState, RestoreStep};
use crate::restore_laws;
use crate::sections::MetaSection;
use crate::vcpu::{Expected, VcpuEvent, VcpuStep};
use crate::vcpu_laws;
use vstd::prelude::*;

verus! {

/// The step failed, its answer is not the one that was awaited, or what was read does not
/// fit the machine.
pub open spec fn went_wrong<E>(
    inputs: CaptureInputs,
    step: RestoreStep,
    outcome: RestoreOutcome<E>,
) -> bool {
    ||| outcome is Failed
    ||| outcome is Raised
    ||| (step matches RestoreStep::Vcpu(VcpuStep::Receive { expected, .. }) && (
    outcome matches RestoreOutcome::Reply(reply) && !vcpu_laws::due(expected, reply)))
    ||| (outcome matches RestoreOutcome::Meta(meta) && (meta.vcpu_count != inputs.vcpu_count as u32
        || meta.nested_enabled != inputs.nested_enabled))
    ||| (outcome matches RestoreOutcome::Virtio { mmio_base, .. }
        && !inputs.virtio_bases@.contains(mmio_base))
}

/// Every step that does outside work can fail, and whatever a vCPU says can be handed on.
pub proof fn failures_can_be_reported<E>(
    step: RestoreStep,
    failed: RestoreOutcome<E>,
    raised: RestoreOutcome<E>,
    reply: RestoreOutcome<E>,
    found: RestoreOutcome<E>,
)
    requires
        failed is Failed,
        raised is Raised,
        reply is Reply,
        found is Found,
    ensures
        match step {
            RestoreStep::Vcpu(VcpuStep::Send { .. })
            | RestoreStep::RestoreIrqchip
            | RestoreStep::ActivateDevice { .. }
            | RestoreStep::PauseDevice { .. }
            | RestoreStep::RestoreDevice { .. }
            | RestoreStep::ResumeDevice { .. } => restore::fits(step, failed),
            RestoreStep::LoadMeta
            | RestoreStep::LoadVcpuState { .. }
            | RestoreStep::LoadVirtio { .. } => restore::fits(step, raised),
            RestoreStep::Vcpu(VcpuStep::Receive { .. }) => restore::fits(step, reply),
            RestoreStep::FindIrqchipState
            | RestoreStep::FindGicState
            | RestoreStep::FindPendingInterrupts => restore::fits(step, found),
            _ => true,
        },
{
}

/// A restore starts with the top-level section, and nothing else is planned before that is
/// read.
pub proof fn restores_start_with_the_summary<E>(inputs: CaptureInputs)
    ensures
        ({
            let s = RestoreState::<E>::start(inputs);
            &&& s.inputs == inputs
            &&& s.history.len() == 0
            &&& s.failure is None
            &&& s.pending.len() == 1
            &&& s.pending[0] is LoadMeta
        }),
{
}

/// What was done is kept in order, and the machine does not change.
pub proof fn what_is_done_is_kept<E>(s: RestoreState<E>, outcome: RestoreOutcome<E>)
    requires
        s.pending.len() > 0,
    ensures
        s.accept(outcome).history == s.history.push(Performed { step: s.pending[0], outcome }),
        s.accept(outcome).inputs == s.inputs,
{
}

/// The first step that goes wrong ends a restore, and nothing else is a failure.
pub proof fn the_first_failure_ends_it<E>(s: RestoreState<E>, outcome: RestoreOutcome<E>)
    requires
        s.pending.len() > 0,
        restore::fits(s.pending[0], outcome),
    ensures
        ({
            let t = s.accept(outcome);
            let wrong = went_wrong(s.inputs, s.pending[0], outcome);
            &&& t.failure is Some <==> wrong
            &&& wrong ==> t.pending.len() == 0
        }),
{
    if let RestoreOutcome::Virtio { mmio_base, .. } = outcome {
        restore_laws::devices_are_found_by_base(s.inputs, mmio_base);
    }
}

/// What a section holds is given to whom it is for, at once: the state of each interrupt
/// controller that is found is restored, whatever else the machine has; registers go to
/// their vCPU, whose answer is awaited; and nothing is found, nothing is done.
pub proof fn what_is_found_is_restored<E>(s: RestoreState<E>, outcome: RestoreOutcome<E>)
    requires
        s.pending.len() > 0,
        restore::fits(s.pending[0], outcome),
        !went_wrong(s.inputs, s.pending[0], outcome),
    ensures
        ({
            let left = s.accept(outcome).pending;
            let rest = s.pending.drop_first();
            match s.pending[0] {
                RestoreStep::FindIrqchipState => left == if outcome == RestoreOutcome::<E>::Found(
                    true,
                ) {
                    seq![RestoreStep::RestoreIrqchip] + rest
                } else {
                    rest
                },
                RestoreStep::FindGicState => left == if outcome == RestoreOutcome::<E>::Found(
                    true,
                ) {
                    seq![RestoreStep::RestoreGic] + rest
                } else {
                    rest
                },
                RestoreStep::FindPendingInterrupts => left == if outcome == RestoreOutcome::<
                    E,
                >::Found(true) {
                    seq![RestoreStep::RestorePendingInterrupts] + rest
                } else {
                    rest
                },
                RestoreStep::LoadVcpuState { vcpu, .. } => {
                    &&& outcome matches RestoreOutcome::Registers(registers)
                    &&& left == seq![
                        RestoreStep::Vcpu(
                            VcpuStep::Send { vcpu, event: VcpuEvent::RestoreState(registers) },
                        ),
                        RestoreStep::Vcpu(VcpuStep::Receive { vcpu, expected: Expected::Restored }),
                    ] + rest
                },
                RestoreStep::LoadMeta
                | RestoreStep::LoadVirtio { .. }
                | RestoreStep::ReadClock { .. } => true,
                _ => left == rest,
            }
        }),
{
    let left = s.accept(outcome).pending;
    let rest = s.pending.drop_first();
    match s.pending[0] {
        RestoreStep::LoadMeta
        | RestoreStep::LoadVirtio { .. }
        | RestoreStep::ReadClock { .. }
        | RestoreStep::LoadVcpuState { .. } => {},
        RestoreStep::FindIrqchipState
        | RestoreStep::FindGicState
        | RestoreStep::FindPendingInterrupts => {
            if outcome != RestoreOutcome::<E>::Found(true) {
                assert(left =~= rest);
            }
        },
        _ => {
            assert(left =~= rest);
        },
    }
}

/// A virtio section goes to the first device with its base address: if it holds a device
/// state, the device is activated with its queues, paused, given the state and resumed; else
/// its transport alone is loaded; and either way its pending interrupt is raised again.
pub proof fn sections_go_to_the_device_at_their_base<E>(
    s: RestoreState<E>,
    index: u32,
    mmio_base: u64,
    has_device: bool,
    device: usize,
)
    requires
        s.pending.len() > 0,
        s.pending[0] == (RestoreStep::LoadVirtio { index }),
        device < s.inputs.virtio_bases@.len(),
        s.inputs.virtio_bases@[device as int] == mmio_base,
        forall|j: int| 0 <= j < device ==> #[trigger] s.inputs.virtio_bases@[j] != mmio_base,
    ensures
        ({
            let t = s.accept(RestoreOutcome::Virtio { mmio_base, has_device });
            let rest = s.pending.drop_first();
            &&& t.failure is None
            &&& t.pending == (if has_device {
                seq![
                    RestoreStep::ActivateDevice { device, index },
                    RestoreStep::PauseDevice { device },
                    RestoreStep::RestoreDevice { device, index },
                    RestoreStep::ResumeDevice { device },
                    RestoreStep::ReplayInterrupt { device },
                ]
            } else {
                seq![
                    RestoreStep::RestoreTransport { device, index },
                    RestoreStep::ReplayInterrupt { device },
                ]
            }) + rest
        }),
{
    assert(s.inputs.virtio_bases.len() == s.inputs.virtio_bases@.len());
    assert(restore::stands_first(s.inputs.virtio_bases@, mmio_base, device as int));
    restore_laws::lemma_stands_first(s.inputs.virtio_bases@, mmio_base, device as int);
}

/// Once the counter is read, every vCPU in turn is told to move its timer on, and its answer
/// awaited, all by the same ticks: those that bring the counter from what it stood at to
/// what it stands at now.
pub proof fn all_timers_move_by_the_same_ticks<E>(
    s: RestoreState<E>,
    captured_at: u64,
    now: u64,
    ticks: u64,
)
    requires
        s.pending.len() > 0,
        s.pending[0] == (RestoreStep::ReadClock { captured_at }),
        (captured_at + ticks) % 0x1_0000_0000_0000_0000 == now as int,
    ensures
        ({
            let t = s.accept(RestoreOutcome::Clock(now));
            let n = s.inputs.vcpu_count as int;
            &&& t.failure is None
            &&& t.pending.len() == 2 * n + s.pending.len() - 1
            &&& t.pending.skip(2 * n) == s.pending.drop_first()
            &&& forall|v: int|
                0 <= v < n ==> {
                    &&& #[trigger] t.pending[2 * v] == RestoreStep::Vcpu(
                        VcpuStep::Send { vcpu: v as usize, event: VcpuEvent::RebaseTimer(ticks) },
                    )
                    &&& t.pending[2 * v + 1] == RestoreStep::Vcpu(
                        VcpuStep::Receive { vcpu: v as usize, expected: Expected::TimerRebased },
                    )
                }
        }),
{
    let t = s.accept(RestoreOutcome::Clock(now));
    let n = s.inputs.vcpu_count as int;
    let script = restore::timer_script(n as nat, restore::ticks_between(captured_at, now));
    assert(ticks == restore::ticks_between(captured_at, now)) by {
        restore_laws::timers_keep_their_distance(captured_at, now);
    }
    assert(t.pending =~= script + s.pending.drop_first());
    assert(t.pending.skip(2 * n) =~= s.pending.drop_first());
    assert forall|v: int| 0 <= v < n implies {
        &&& #[trigger] t.pending[2 * v] == RestoreStep::Vcpu(
            VcpuStep::Send { vcpu: v as usize, event: VcpuEvent::RebaseTimer(ticks) },
        )
        &&& t.pending[2 * v + 1] == RestoreStep::Vcpu(
            VcpuStep::Receive { vcpu: v as usize, expected: Expected::TimerRebased },
        )
    } by {
        assert(t.pending[2 * v] == script[2 * v]);
        assert(t.pending[2 * v + 1] == script[2 * v + 1]);
    }
}

/// A summary that fits the machine leads to this, in order: every vCPU is awaited; the state
/// of the interrupt controller with a state of its own is looked for if there is one, that of
/// the distributor if there is one, and the pending interrupts always; the registers of
/// every vCPU are read, each from the section with its position; every virtio section is
/// read; then the counter; every vCPU is told to run on, and every answer awaited; and every
/// device raises its interrupts again.
pub proof fn summaries_lead_to_a_full_restore<E>(s: RestoreState<E>, meta: MetaSection)
    requires
        s.pending.len() == 1,
        s.pending[0] is LoadMeta,
        meta.vcpu_count == s.inputs.vcpu_count as u32,
        meta.nested_enabled == s.inputs.nested_enabled,
    ensures
        ({
            let t = s.accept(RestoreOutcome::Meta(meta));
            let n = s.inputs.vcpu_count as int;
            let g = if s.inputs.has_irqchip {
                n + 1
            } else {
                n
            };
            let q = if s.inputs.has_gic {
                g + 1
            } else {
                g
            };
            let r = q + 1;
            let v = r + n;
            let c = v + meta.virtio_bases@.len();
            let e = c + 1 + 2 * n;
            let count = s.inputs.virtio_bases@.len() as int;
            &&& t.failure is None
            &&& t.pending.len() == e + count
            &&& forall|i: int|
                0 <= i < n ==> #[trigger] t.pending[i] == RestoreStep::Vcpu(
                    VcpuStep::Receive { vcpu: i as usize, expected: Expected::InitialPaused },
                )
            &&& s.inputs.has_irqchip ==> t.pending[n] is FindIrqchipState
            &&& s.inputs.has_gic ==> t.pending[g] is FindGicState
            &&& t.pending[q] is FindPendingInterrupts
            &&& forall|i: int|
                0 <= i < n ==> #[trigger] t.pending[r + i] == (RestoreStep::LoadVcpuState {
                    vcpu: i as usize,
                    index: i as u32,
                })
            &&& forall|i: int|
                0 <= i < meta.virtio_bases@.len() ==> #[trigger] t.pending[v + i]
                    == (RestoreStep::LoadVirtio { index: i as u32 })
            &&& t.pending[c] == (RestoreStep::ReadClock { captured_at: meta.capture_mach_time })
            &&& forall|i: int|
                0 <= i < n ==> #[trigger] t.pending[c + 1 + i] == RestoreStep::Vcpu(
                    VcpuStep::Send { vcpu: i as usize, event: VcpuEvent::Resume },
                )
            &&& forall|i: int|
                0 <= i < n ==> #[trigger] t.pending[c + 1 + n + i] == RestoreStep::Vcpu(
                    VcpuStep::Receive { vcpu: i as usize, expected: Expected::Resumed },
                )
            &&& forall|i: int|
                0 <= i < count ==> #[trigger] t.pending[e + i] == (
                RestoreStep::ReplayAfterResume { device: i as usize })
        }),
{
    let t = s.accept(RestoreOutcome::Meta(meta));
    let script = restore::restore_script(s.inputs, meta);
    assert(t.pending =~= script);
    let n = s.inputs.vcpu_count as int;
    let q = restore::interrupt_script(s.inputs).len() as int;
    assert forall|k: int| n <= k < n + q implies #[trigger] script[k] == restore::interrupt_script(
        s.inputs,
    )[k - n] by {
        restore_laws::lemma_script_at(s.inputs, meta, k);
    }
    lemma_full_restore(s.inputs, meta);
}

pub(crate) proof fn lemma_full_restore(inputs: CaptureInputs, meta: MetaSection)
    ensures
        ({
            let script = restore::restore_script(inputs, meta);
            let n = inputs.vcpu_count as int;
            let q = n + restore::interrupt_script(inputs).len();
            let v = q + n;
            let c = v + meta.virtio_bases@.len();
            let e = c + 1 + 2 * n;
            &&& script.len() == e + inputs.virtio_bases@.len()
            &&& forall|i: int|
                0 <= i < n ==> #[trigger] script[i] == RestoreStep::Vcpu(
                    VcpuStep::Receive { vcpu: i as usize, expected: Expected::InitialPaused },
                )
            &&& forall|i: int|
                0 <= i < n ==> #[trigger] script[q + i] == (RestoreStep::LoadVcpuState {
                    vcpu: i as usize,
                    index: i as u32,
                })
            &&& forall|i: int|
                0 <= i < meta.virtio_bases@.len() ==> #[trigger] script[v + i]
                    == (RestoreStep::LoadVirtio { index: i as u32 })
            &&& script[c] == (RestoreStep::ReadClock { captured_at: meta.capture_mach_time })
            &&& forall|i: int|
                0 <= i < n ==> #[trigger] script[c + 1 + i] == RestoreStep::Vcpu(
                    VcpuStep::Send { vcpu: i as usize, event: VcpuEvent::Resume },
                )
            &&& forall|i: int|
                0 <= i < n ==> #[trigger] script[c + 1 + n + i] == RestoreStep::Vcpu(
                    VcpuStep::Receive { vcpu: i as usize, expected: Expected::Resumed },
                )
            &&& forall|i: int|
                0 <= i < inputs.virtio_bases@.len() ==> #[trigger] script[e + i] == (
                RestoreStep::ReplayAfterResume { device: i as usize })
        }),
{
}

} // verus!
