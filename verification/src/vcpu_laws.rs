//! What every exchange with the vCPU threads comes to, and which answer counts.
use crate::vcpu;
use crate::vcpu::{Expected, ReceiveError, Reply, VcpuEvent, VcpuResponse, VcpuStep};
use vstd::prelude::*;

verus! {

/// This step is the `k`-th.
pub open spec fn occurs_at(steps: Seq<VcpuStep>, step: VcpuStep, k: int) -> bool {
    0 <= k < steps.len() && steps[k] == step
}

/// This step is one of the steps.
pub open spec fn occurs(steps: Seq<VcpuStep>, step: VcpuStep) -> bool {
    exists|k: int| occurs_at(steps, step, k)
}

/// To bring vCPUs to a standstill, each is sent `Pause`; then every handle is asked to
/// leave the guest, in order; and only then is each answer awaited. Nothing else is done,
/// and nothing twice: there are as many steps as that takes.
pub proof fn pausing_reaches_every_vcpu(vcpu_count: usize, vcpu_ids: Seq<u64>)
    ensures
        ({
            let steps = vcpu::pause_exchange(vcpu_count as nat, vcpu_ids);
            &&& steps.len() == 2 * vcpu_count + vcpu_ids.len()
            &&& forall|v: usize|
                v < vcpu_count ==> #[trigger] occurs(
                    steps,
                    VcpuStep::Send { vcpu: v, event: VcpuEvent::Pause },
                )
            &&& forall|v: usize|
                v < vcpu_count ==> #[trigger] occurs(
                    steps,
                    VcpuStep::Receive { vcpu: v, expected: Expected::Paused },
                )
            &&& forall|j: int|
                0 <= j < vcpu_ids.len() ==> steps[vcpu_count + j] == (VcpuStep::RequestExit {
                    vcpu_id: #[trigger] vcpu_ids[j],
                })
            &&& forall|k: int|
                0 <= k < steps.len() ==> match #[trigger] steps[k] {
                    VcpuStep::Send { vcpu, event } => vcpu < vcpu_count && event is Pause,
                    VcpuStep::RequestExit { vcpu_id } => vcpu_ids.contains(vcpu_id),
                    VcpuStep::Receive { vcpu, expected } => vcpu < vcpu_count
                        && expected is Paused,
                }
            &&& forall|i: int, j: int|
                0 <= i < j < steps.len() ==> match (#[trigger] steps[i], #[trigger] steps[j]) {
                    (VcpuStep::Send { vcpu: a, .. }, VcpuStep::Send { vcpu: b, .. }) => a < b,
                    (VcpuStep::Receive { vcpu: a, .. }, VcpuStep::Receive { vcpu: b, .. }) => a
                        < b,
                    (VcpuStep::Send { .. }, _) => true,
                    (_, VcpuStep::Send { .. }) => false,
                    (VcpuStep::Receive { .. }, VcpuStep::RequestExit { .. }) => false,
                    _ => true,
                }
        }),
{
    let steps = vcpu::pause_exchange(vcpu_count as nat, vcpu_ids);
    let n = vcpu_count as int;
    let m = vcpu_ids.len() as int;
    assert forall|v: usize| v < vcpu_count implies #[trigger] occurs(
        steps,
        VcpuStep::Send { vcpu: v, event: VcpuEvent::Pause },
    ) by {
        assert(occurs_at(
            steps,
            VcpuStep::Send { vcpu: v, event: VcpuEvent::Pause },
            v as int,
        ));
    }
    assert forall|v: usize| v < vcpu_count implies #[trigger] occurs(
        steps,
        VcpuStep::Receive { vcpu: v, expected: Expected::Paused },
    ) by {
        assert(occurs_at(
            steps,
            VcpuStep::Receive { vcpu: v, expected: Expected::Paused },
            n + m + v,
        ));
    }
    assert forall|k: int| 0 <= k < steps.len() implies match #[trigger] steps[k] {
        VcpuStep::Send { vcpu, event } => vcpu < vcpu_count && event is Pause,
        VcpuStep::RequestExit { vcpu_id } => vcpu_ids.contains(vcpu_id),
        VcpuStep::Receive { vcpu, expected } => vcpu < vcpu_count && expected is Paused,
    } by {
        if n <= k < n + m {
            assert(steps[k] == VcpuStep::RequestExit { vcpu_id: vcpu_ids[k - n] });
            assert(vcpu_ids.contains(vcpu_ids[k - n]));
        }
    }
}

/// To let vCPUs run on, each is sent `Resume`, and then each answer is awaited. Nothing
/// else is done, and nothing twice: there are as many steps as that takes.
pub proof fn resuming_reaches_every_vcpu(vcpu_count: usize)
    ensures
        ({
            let steps = vcpu::resume_exchange(vcpu_count as nat);
            &&& steps.len() == 2 * vcpu_count
            &&& forall|v: usize|
                v < vcpu_count ==> #[trigger] occurs(
                    steps,
                    VcpuStep::Send { vcpu: v, event: VcpuEvent::Resume },
                )
            &&& forall|v: usize|
                v < vcpu_count ==> #[trigger] occurs(
                    steps,
                    VcpuStep::Receive { vcpu: v, expected: Expected::Resumed },
                )
            &&& forall|k: int|
                0 <= k < steps.len() ==> match #[trigger] steps[k] {
                    VcpuStep::Send { vcpu, event } => vcpu < vcpu_count && event is Resume,
                    VcpuStep::RequestExit { .. } => false,
                    VcpuStep::Receive { vcpu, expected } => vcpu < vcpu_count
                        && expected is Resumed,
                }
            &&& forall|i: int, j: int|
                0 <= i < j < steps.len() ==> match (#[trigger] steps[i], #[trigger] steps[j]) {
                    (VcpuStep::Send { vcpu: a, .. }, VcpuStep::Send { vcpu: b, .. }) => a < b,
                    (VcpuStep::Receive { vcpu: a, .. }, VcpuStep::Receive { vcpu: b, .. }) => a
                        < b,
                    (VcpuStep::Receive { .. }, VcpuStep::Send { .. }) => false,
                    _ => true,
                }
        }),
{
    let steps = vcpu::resume_exchange(vcpu_count as nat);
    assert forall|v: usize| v < vcpu_count implies #[trigger] occurs(
        steps,
        VcpuStep::Send { vcpu: v, event: VcpuEvent::Resume },
    ) by {
        assert(occurs_at(
            steps,
            VcpuStep::Send { vcpu: v, event: VcpuEvent::Resume },
            v as int,
        ));
    }
    assert forall|v: usize| v < vcpu_count implies #[trigger] occurs(
        steps,
        VcpuStep::Receive { vcpu: v, expected: Expected::Resumed },
    ) by {
        assert(occurs_at(
            steps,
            VcpuStep::Receive { vcpu: v, expected: Expected::Resumed },
            vcpu_count + v,
        ));
    }
}

/// The reply is the one response that answers the request. An error answers none, and
/// neither does silence.
pub open spec fn due(expected: Expected, reply: Reply) -> bool {
    match reply {
        Ok(VcpuResponse::Paused(_)) => expected is Paused || expected is InitialPaused,
        Ok(VcpuResponse::Resumed) => expected is Resumed,
        Ok(VcpuResponse::Restored) => expected is Restored,
        Ok(VcpuResponse::TimerRebased) => expected is TimerRebased,
        Ok(VcpuResponse::Error(_)) => false,
        Err(ReceiveError::Timeout) => false,
        Err(ReceiveError::Disconnected) => false,
    }
}

/// Every response answers one kind of request alone.
pub proof fn each_response_answers_its_request(expected: Expected, reply: Reply)
    ensures
        vcpu::answers(expected, reply) == due(expected, reply),
{
}

} // verus!
