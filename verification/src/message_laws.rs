//! What the messages of errors say.
use crate::capture;
use crate::capture::{CaptureStep, Outcome};
use crate::error::{FailureView, SnapshotErrorView};
use crate::host::Host;
use crate::inputs::CaptureInputs;
use crate::ram;
use crate::restore;
use crate::restore::{RestoreOutcome, RestoreStep};
use crate::restore_laws;
use crate::sections::MetaSection;
use crate::text;
use crate::vcpu;
use crate::vcpu::{Expected, ReceiveError, Reply, VcpuEvent, VcpuResponse, VcpuStep};
use crate::vcpu_laws;
use vstd::prelude::*;

verus! {

/// A message that cannot be sent is reported under its name, with the cause.
pub proof fn failed_sends_name_the_message(event: VcpuEvent, cause: Seq<char>)
    ensures
        vcpu::send_error_view(event, cause) == SnapshotErrorView::Io(
            (match event {
                VcpuEvent::Pause => "send Pause: "@,
                VcpuEvent::Resume => "send Resume: "@,
                VcpuEvent::RestoreState(_) => "send RestoreState: "@,
                VcpuEvent::RebaseTimer(_) => "send RebaseTimer: "@,
            }) + cause,
        ),
{
    reveal_strlit("send ");
    reveal_strlit(": ");
    match event {
        VcpuEvent::Pause => {
            reveal_strlit("Pause");
            reveal_strlit("send Pause: ");
            assert("send "@ + "Pause"@ + ": "@ =~= "send Pause: "@);
        },
        VcpuEvent::Resume => {
            reveal_strlit("Resume");
            reveal_strlit("send Resume: ");
            assert("send "@ + "Resume"@ + ": "@ =~= "send Resume: "@);
        },
        VcpuEvent::RestoreState(_) => {
            reveal_strlit("RestoreState");
            reveal_strlit("send RestoreState: ");
            assert("send "@ + "RestoreState"@ + ": "@ =~= "send RestoreState: "@);
        },
        VcpuEvent::RebaseTimer(_) => {
            reveal_strlit("RebaseTimer");
            reveal_strlit("send RebaseTimer: ");
            assert("send "@ + "RebaseTimer"@ + ": "@ =~= "send RebaseTimer: "@);
        },
    }
}

/// A response is shown by its name, with what it carries in brackets.
pub proof fn responses_are_shown_in_full(response: VcpuResponse)
    ensures
        match response {
            VcpuResponse::Paused(state) => vcpu::response_text(response) == "Paused("@
                + text::byte_list(state@) + ")"@,
            VcpuResponse::Error(message) => vcpu::response_text(response) == "Error("@
                + vcpu::quoted(message@) + ")"@,
            VcpuResponse::Resumed => vcpu::response_text(response) == "Resumed"@,
            VcpuResponse::Restored => vcpu::response_text(response) == "Restored"@,
            VcpuResponse::TimerRebased => vcpu::response_text(response) == "TimerRebased"@,
        },
{
}

/// What is said of a reply that does not answer the request, behind the position of the
/// vCPU.
pub open spec fn said_of(reply: Reply, expected: Expected) -> Seq<char> {
    match reply {
        Err(ReceiveError::Timeout) => match expected {
            Expected::Paused => "pause timeout"@,
            Expected::InitialPaused => "initial-pause timeout"@,
            Expected::Resumed => "resume recv: "@ + "timed out waiting on receive operation"@,
            Expected::Restored | Expected::TimerRebased => "unexpected "@ + "Err(Timeout)"@,
        },
        Err(ReceiveError::Disconnected) => match expected {
            Expected::Paused
            | Expected::InitialPaused => "channel is empty and disconnected"@,
            Expected::Resumed => "resume recv: "@ + "channel is empty and disconnected"@,
            Expected::Restored | Expected::TimerRebased => "unexpected "@ + "Err(Disconnected)"@,
        },
        Ok(response) => match (response, expected) {
            (VcpuResponse::Error(message), Expected::Restored) => "restore: "@ + message@,
            (VcpuResponse::Error(message), Expected::TimerRebased) => "timer rebase: "@ + message@,
            (_, Expected::Restored) | (_, Expected::TimerRebased) => "unexpected "@ + ("Ok("@
                + vcpu::response_text(response) + ")"@),
            (_, Expected::Paused) => "unexpected response "@ + vcpu::response_text(response),
            (_, Expected::InitialPaused) => "expected initial Paused, got "@ + vcpu::response_text(
                response,
            ),
            (_, Expected::Resumed) => "unexpected resume response "@ + vcpu::response_text(
                response,
            ),
        },
    }
}

/// A reply that does not answer the request is reported with the position of the vCPU and
/// what came instead.
pub proof fn wrong_replies_name_the_vcpu(vcpu: usize, expected: Expected, reply: Reply)
    ensures
        vcpu::reply_error_view(vcpu, expected, reply) == SnapshotErrorView::Io(
            "vcpu "@ + text::decimal(vcpu as nat) + ": "@ + said_of(reply, expected),
        ),
{
}

/// A block that cannot be read is reported with its address and the cause.
pub proof fn unreadable_blocks_name_their_address(guest_addr: u64, cause: Seq<char>)
    ensures
        ram::read_error_view(guest_addr, cause) == SnapshotErrorView::Io(
            "read dirty block 0x"@ + text::hexadecimal(guest_addr as nat) + ": "@ + cause,
        ),
{
}

/// What a capture reports of a step that failed. An error of the host is handed on as it
/// is; a device is named by its base address.
pub proof fn failed_captures_say_why<H: Host>(
    inputs: CaptureInputs,
    step: CaptureStep,
    outcome: Outcome<H>,
)
    requires
        capture::fits(step, outcome),
        capture::step_indexed(inputs, step),
    ensures
        capture::refusal(inputs, step, outcome) == match outcome {
            Outcome::Raised(error) => Some(FailureView::Host(error)),
            Outcome::Reply(reply) => match step {
                CaptureStep::Vcpu(VcpuStep::Receive { vcpu, expected }) => if vcpu_laws::due(
                    expected,
                    reply,
                ) {
                    None
                } else {
                    Some(
                        FailureView::Snapshot(
                            SnapshotErrorView::Io(
                                "vcpu "@ + text::decimal(vcpu as nat) + ": "@ + said_of(
                                    reply,
                                    expected,
                                ),
                            ),
                        ),
                    )
                },
                _ => None,
            },
            Outcome::Failed(cause) => Some(
                FailureView::Snapshot(
                    match step {
                        CaptureStep::Vcpu(VcpuStep::Send { event, .. }) => SnapshotErrorView::Io(
                            (match event {
                                VcpuEvent::Pause => "send Pause: "@,
                                VcpuEvent::Resume => "send Resume: "@,
                                VcpuEvent::RestoreState(_) => "send RestoreState: "@,
                                VcpuEvent::RebaseTimer(_) => "send RebaseTimer: "@,
                            }) + cause@,
                        ),
                        CaptureStep::PauseDevice { device }
                        | CaptureStep::SerializeDevice {
                            device,
                        } => SnapshotErrorView::DeviceRefused(
                            "base=0x"@ + text::hexadecimal(
                                inputs.virtio_bases@[device as int] as nat,
                            ) + ": "@ + cause@,
                        ),
                        CaptureStep::SnapshotIrqchip => SnapshotErrorView::DeviceRefused(
                            "irqchip snapshot: "@ + cause@,
                        ),
                        CaptureStep::TakeDirtyBlocks => SnapshotErrorView::Io(
                            "dirty RAM: "@ + cause@,
                        ),
                        CaptureStep::EnableTracking => SnapshotErrorView::Io(
                            "enable dirty RAM: "@ + cause@,
                        ),
                        _ => SnapshotErrorView::DeviceRefused("resume: "@ + cause@),
                    },
                ),
            ),
            _ => None,
        },
{
    if let CaptureStep::Vcpu(VcpuStep::Send { event, .. }) = step {
        if let Outcome::Failed(cause) = outcome {
            failed_sends_name_the_message(event, cause@);
        }
    }
}

/// A snapshot is accepted exactly if it has as many vCPUs as the machine, as 32 bits count
/// them, and the same nesting. What differs is named, the number of vCPUs first.
pub proof fn only_the_same_configuration_is_accepted(inputs: CaptureInputs, meta: MetaSection)
    ensures
        restore::mismatch(inputs, meta) is None <==> meta.vcpu_count == inputs.vcpu_count as u32
            && meta.nested_enabled == inputs.nested_enabled,
        meta.vcpu_count != inputs.vcpu_count as u32 ==> restore::mismatch(inputs, meta) == Some(
            SnapshotErrorView::ConfigMismatch(
                "snapshot vcpu_count "@ + text::decimal(meta.vcpu_count as nat) + " != configured "@
                    + text::decimal(inputs.vcpu_count as nat),
            ),
        ),
        meta.vcpu_count == inputs.vcpu_count as u32 && meta.nested_enabled != inputs.nested_enabled
            ==> restore::mismatch(inputs, meta) == Some(
            SnapshotErrorView::ConfigMismatch(
                "nested_enabled differs between snapshot and current ctx"@,
            ),
        ),
{
}

/// What a restore reports of a step that failed. An error of the host is handed on as it
/// is; a device is named by its base address, and so is one that is not there.
pub proof fn failed_restores_say_why<E>(
    inputs: CaptureInputs,
    step: RestoreStep,
    outcome: RestoreOutcome<E>,
)
    requires
        restore::fits(step, outcome),
        match step {
            RestoreStep::ActivateDevice { device, .. }
            | RestoreStep::PauseDevice { device }
            | RestoreStep::RestoreDevice { device, .. }
            | RestoreStep::ResumeDevice { device } => device < inputs.virtio_bases@.len(),
            _ => true,
        },
    ensures
        restore::refusal(inputs, step, outcome) == match outcome {
            RestoreOutcome::Raised(error) => Some(FailureView::Host(error)),
            RestoreOutcome::Reply(reply) => match step {
                RestoreStep::Vcpu(VcpuStep::Receive { vcpu, expected }) => if vcpu_laws::due(
                    expected,
                    reply,
                ) {
                    None
                } else {
                    Some(
                        FailureView::Snapshot(
                            SnapshotErrorView::Io(
                                "vcpu "@ + text::decimal(vcpu as nat) + ": "@ + said_of(
                                    reply,
                                    expected,
                                ),
                            ),
                        ),
                    )
                },
                _ => None,
            },
            RestoreOutcome::Meta(meta) => if meta.vcpu_count != inputs.vcpu_count as u32 {
                Some(
                    FailureView::Snapshot(
                        SnapshotErrorView::ConfigMismatch(
                            "snapshot vcpu_count "@ + text::decimal(meta.vcpu_count as nat)
                                + " != configured "@ + text::decimal(inputs.vcpu_count as nat),
                        ),
                    ),
                )
            } else if meta.nested_enabled != inputs.nested_enabled {
                Some(
                    FailureView::Snapshot(
                        SnapshotErrorView::ConfigMismatch(
                            "nested_enabled differs between snapshot and current ctx"@,
                        ),
                    ),
                )
            } else {
                None
            },
            RestoreOutcome::Virtio { mmio_base, .. } => if inputs.virtio_bases@.contains(
                mmio_base,
            ) {
                None
            } else {
                Some(
                    FailureView::Snapshot(
                        SnapshotErrorView::ConfigMismatch(
                            "no virtio device at base 0x"@ + text::hexadecimal(mmio_base as nat)
                                + " in current ctx"@,
                        ),
                    ),
                )
            },
            RestoreOutcome::Failed(cause) => Some(
                FailureView::Snapshot(
                    match step {
                        RestoreStep::Vcpu(VcpuStep::Send { event, .. }) => SnapshotErrorView::Io(
                            (match event {
                                VcpuEvent::Pause => "send Pause: "@,
                                VcpuEvent::Resume => "send Resume: "@,
                                VcpuEvent::RestoreState(_) => "send RestoreState: "@,
                                VcpuEvent::RebaseTimer(_) => "send RebaseTimer: "@,
                            }) + cause@,
                        ),
                        RestoreStep::ActivateDevice { device, .. } => refused_by(
                            inputs,
                            device,
                            ": activate: "@ + cause@,
                        ),
                        RestoreStep::PauseDevice { device } => refused_by(
                            inputs,
                            device,
                            ": pause: "@ + cause@,
                        ),
                        RestoreStep::RestoreDevice { device, .. } => refused_by(
                            inputs,
                            device,
                            ": restore: "@ + cause@,
                        ),
                        RestoreStep::ResumeDevice { device } => refused_by(
                            inputs,
                            device,
                            ": resume: "@ + cause@,
                        ),
                        _ => SnapshotErrorView::DeviceRefused("irqchip restore: "@ + cause@),
                    },
                ),
            ),
            _ => None,
        },
{
    if let RestoreOutcome::Failed(cause) = outcome {
        match step {
            RestoreStep::Vcpu(VcpuStep::Send { event, .. }) => {
                failed_sends_name_the_message(event, cause@);
            },
            RestoreStep::ActivateDevice { device, .. } => {
                reveal_strlit("activate");
                reveal_strlit(": activate: ");
                lemma_refused_by(inputs, device, "activate"@, ": activate: "@, cause@);
            },
            RestoreStep::PauseDevice { device } => {
                reveal_strlit("pause");
                reveal_strlit(": pause: ");
                lemma_refused_by(inputs, device, "pause"@, ": pause: "@, cause@);
            },
            RestoreStep::RestoreDevice { device, .. } => {
                reveal_strlit("restore");
                reveal_strlit(": restore: ");
                lemma_refused_by(inputs, device, "restore"@, ": restore: "@, cause@);
            },
            RestoreStep::ResumeDevice { device } => {
                reveal_strlit("resume");
                reveal_strlit(": resume: ");
                lemma_refused_by(inputs, device, "resume"@, ": resume: "@, cause@);
            },
            _ => {},
        }
    }
    if let RestoreOutcome::Virtio { mmio_base, .. } = outcome {
        restore_laws::devices_are_found_by_base(inputs, mmio_base);
    }
}

/// The error of a device, which is named by its base address.
pub open spec fn refused_by(
    inputs: CaptureInputs,
    device: usize,
    said: Seq<char>,
) -> SnapshotErrorView {
    SnapshotErrorView::DeviceRefused(
        "base=0x"@ + text::hexadecimal(inputs.virtio_bases@[device as int] as nat) + said,
    )
}

proof fn lemma_refused_by(
    inputs: CaptureInputs,
    device: usize,
    action: Seq<char>,
    between: Seq<char>,
    cause: Seq<char>,
)
    requires
        between =~= seq![':', ' '] + action + seq![':', ' '],
    ensures
        restore::device_error_view(inputs.virtio_bases@[device as int], action, cause)
            == refused_by(inputs, device, between + cause),
{
    reveal_strlit(": ");
    let start = "base=0x"@ + text::hexadecimal(inputs.virtio_bases@[device as int] as nat);
    assert(start + ": "@ + action + ": "@ + cause =~= start + (between + cause));
}

} // verus!
