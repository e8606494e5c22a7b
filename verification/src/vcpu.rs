//! The exchange with the vCPU threads: what is sent, what is awaited, and which
//! reply is an error with which message.
use crate::error::{SnapshotError, SnapshotErrorView};
use crate::text;
use vstd::prelude::*;

verus! {

/// How long a reply of a vCPU is awaited.
pub const VCPU_PAUSE_TIMEOUT_MS: u64 = 2000;

/// What is sent to a vCPU thread.
#[derive(Clone, Debug, PartialEq, Eq)]
pub enum VcpuEvent {
    Pause,
    Resume,
    /// Load this register state.
    RestoreState(Vec<u8>),
    /// Move the virtual timer on by this many ticks.
    RebaseTimer(u64),
}

/// What a vCPU thread answers.
#[derive(Clone, Debug, PartialEq, Eq)]
pub enum VcpuResponse {
    /// The vCPU stands still; its register state.
    Paused(Vec<u8>),
    Resumed,
    Restored,
    TimerRebased,
    Error(String),
}

/// Why no answer came.
#[derive(Clone, Copy, Debug, PartialEq, Eq)]
pub enum ReceiveError {
    Timeout,
    Disconnected,
}

/// Which answer is due.
#[derive(Clone, Copy, Debug, PartialEq, Eq)]
pub enum Expected {
    /// `Paused`, in answer to `Pause`.
    Paused,
    /// `Paused`, which a vCPU that is built for a restore reports unasked.
    InitialPaused,
    Resumed,
    Restored,
    TimerRebased,
}

/// One step of an exchange with the vCPU threads.
#[derive(Clone, Debug, PartialEq, Eq)]
pub enum VcpuStep {
    /// Send `event` to the vCPU at this position.
    Send { vcpu: usize, event: VcpuEvent },
    /// Force the vCPU with this hypervisor handle out of the guest. Whether
    /// that succeeds does not matter.
    RequestExit { vcpu_id: u64 },
    /// Await the answer of the vCPU at this position.
    Receive { vcpu: usize, expected: Expected },
}

/// What came of a `Receive`.
pub type Reply = Result<VcpuResponse, ReceiveError>;

/// The name of an event, as it stands in messages.
pub open spec fn event_name(event: VcpuEvent) -> Seq<char> {
    match event {
        VcpuEvent::Pause => "Pause"@,
        VcpuEvent::Resume => "Resume"@,
        VcpuEvent::RestoreState(_) => "RestoreState"@,
        VcpuEvent::RebaseTimer(_) => "RebaseTimer"@,
    }
}

/// `text` in double quotes, with what cannot stand there escaped.
pub uninterp spec fn quoted(text: Seq<char>) -> Seq<char>;

/// A response as it is shown to a programmer.
pub open spec fn response_text(response: VcpuResponse) -> Seq<char> {
    match response {
        VcpuResponse::Paused(state) => "Paused("@ + text::byte_list(state@) + ")"@,
        VcpuResponse::Resumed => "Resumed"@,
        VcpuResponse::Restored => "Restored"@,
        VcpuResponse::TimerRebased => "TimerRebased"@,
        VcpuResponse::Error(message) => "Error("@ + quoted(message@) + ")"@,
    }
}

/// The message of a receive error.
pub open spec fn receive_error_text(error: ReceiveError) -> Seq<char> {
    match error {
        ReceiveError::Timeout => "timed out waiting on receive operation"@,
        ReceiveError::Disconnected => "channel is empty and disconnected"@,
    }
}

/// A reply as it is shown to a programmer.
pub open spec fn reply_text(reply: Reply) -> Seq<char> {
    match reply {
        Ok(response) => "Ok("@ + response_text(response) + ")"@,
        Err(ReceiveError::Timeout) => "Err(Timeout)"@,
        Err(ReceiveError::Disconnected) => "Err(Disconnected)"@,
    }
}

/// Whether `reply` is the answer that is due.
pub open spec fn answers(expected: Expected, reply: Reply) -> bool {
    match expected {
        Expected::Paused | Expected::InitialPaused => reply matches Ok(VcpuResponse::Paused(_)),
        Expected::Resumed => reply matches Ok(VcpuResponse::Resumed),
        Expected::Restored => reply matches Ok(VcpuResponse::Restored),
        Expected::TimerRebased => reply matches Ok(VcpuResponse::TimerRebased),
    }
}

/// What is wrong with a reply that is not the answer that is due.
pub open spec fn complaint(expected: Expected, reply: Reply) -> Seq<char> {
    match (expected, reply) {
        (Expected::Paused, Ok(other)) => "unexpected response "@ + response_text(other),
        (Expected::Paused, Err(ReceiveError::Timeout)) => "pause timeout"@,
        (Expected::Paused, Err(error)) => receive_error_text(error),
        (Expected::InitialPaused, Ok(other)) => "expected initial Paused, got "@ + response_text(
            other,
        ),
        (Expected::InitialPaused, Err(ReceiveError::Timeout)) => "initial-pause timeout"@,
        (Expected::InitialPaused, Err(error)) => receive_error_text(error),
        (Expected::Resumed, Ok(other)) => "unexpected resume response "@ + response_text(other),
        (Expected::Resumed, Err(error)) => "resume recv: "@ + receive_error_text(error),
        (Expected::Restored, Ok(VcpuResponse::Error(message))) => "restore: "@ + message@,
        (Expected::TimerRebased, Ok(VcpuResponse::Error(message))) => "timer rebase: "@ + message@,
        (_, other) => "unexpected "@ + reply_text(other),
    }
}

/// The error of a `Send` that failed.
pub open spec fn send_error_view(event: VcpuEvent, cause: Seq<char>) -> SnapshotErrorView {
    SnapshotErrorView::Io("send "@ + event_name(event) + ": "@ + cause)
}

/// The error of a `Receive` whose reply is not the answer that is due.
pub open spec fn reply_error_view(
    vcpu: usize,
    expected: Expected,
    reply: Reply,
) -> SnapshotErrorView {
    SnapshotErrorView::Io(
        "vcpu "@ + text::decimal(vcpu as nat) + ": "@ + complaint(expected, reply),
    )
}

/// `Resume` to every vCPU, then the answer of every vCPU.
pub open spec fn resume_exchange(vcpu_count: nat) -> Seq<VcpuStep> {
    Seq::new(
        vcpu_count,
        |i: int| VcpuStep::Send { vcpu: i as usize, event: VcpuEvent::Resume },
    ) + Seq::new(
        vcpu_count,
        |i: int| VcpuStep::Receive { vcpu: i as usize, expected: Expected::Resumed },
    )
}

/// `Pause` to every vCPU, then every vCPU forced out of the guest, then the
/// answer of every vCPU.
pub open spec fn pause_exchange(vcpu_count: nat, vcpu_ids: Seq<u64>) -> Seq<VcpuStep> {
    Seq::new(
        vcpu_count,
        |i: int| VcpuStep::Send { vcpu: i as usize, event: VcpuEvent::Pause },
    ) + Seq::new(vcpu_ids.len(), |i: int| VcpuStep::RequestExit { vcpu_id: vcpu_ids[i] })
        + Seq::new(
        vcpu_count,
        |i: int| VcpuStep::Receive { vcpu: i as usize, expected: Expected::Paused },
    )
}

/// `format!` with `{:?}` of a `str`: the text in double quotes, escaped. All that
/// is claimed is that equal texts give equal results.
#[verifier::external_body]
fn quote(text: &str) -> (out: String)
    ensures
        out@ == quoted(text@),
{
    format!("{:?}", text)
}

fn append_response(out: &mut String, response: &VcpuResponse)
    ensures
        final(out)@ == old(out)@ + response_text(*response),
{
    match response {
        VcpuResponse::Paused(state) => {
            out.append("Paused(");
            text::append_byte_list(out, state);
            out.append(")");
        },
        VcpuResponse::Resumed => out.append("Resumed"),
        VcpuResponse::Restored => out.append("Restored"),
        VcpuResponse::TimerRebased => out.append("TimerRebased"),
        VcpuResponse::Error(message) => {
            let shown = quote(message.as_str());
            out.append("Error(");
            out.append(shown.as_str());
            out.append(")");
        },
    }
    assert(out@ =~= old(out)@ + response_text(*response));
}

/// The message of a receive error.
pub fn receive_error_message(error: ReceiveError) -> (message: &'static str)
    ensures
        message@ == receive_error_text(error),
{
    match error {
        ReceiveError::Timeout => "timed out waiting on receive operation",
        ReceiveError::Disconnected => "channel is empty and disconnected",
    }
}

fn append_complaint(out: &mut String, expected: Expected, reply: &Reply)
    ensures
        final(out)@ == old(out)@ + complaint(expected, *reply),
{
    match (expected, reply) {
        (Expected::Paused, Ok(other)) => {
            out.append("unexpected response ");
            append_response(out, other);
        },
        (Expected::Paused, Err(ReceiveError::Timeout)) => out.append("pause timeout"),
        (Expected::Paused, Err(error)) => out.append(receive_error_message(*error)),
        (Expected::InitialPaused, Ok(other)) => {
            out.append("expected initial Paused, got ");
            append_response(out, other);
        },
        (Expected::InitialPaused, Err(ReceiveError::Timeout)) => out.append("initial-pause timeout"),
        (Expected::InitialPaused, Err(error)) => out.append(receive_error_message(*error)),
        (Expected::Resumed, Ok(other)) => {
            out.append("unexpected resume response ");
            append_response(out, other);
        },
        (Expected::Resumed, Err(error)) => {
            out.append("resume recv: ");
            out.append(receive_error_message(*error));
        },
        (Expected::Restored, Ok(VcpuResponse::Error(message))) => {
            out.append("restore: ");
            out.append(message.as_str());
        },
        (Expected::TimerRebased, Ok(VcpuResponse::Error(message))) => {
            out.append("timer rebase: ");
            out.append(message.as_str());
        },
        (_, Ok(other)) => {
            out.append("unexpected ");
            out.append("Ok(");
            append_response(out, other);
            out.append(")");
        },
        (_, Err(ReceiveError::Timeout)) => {
            out.append("unexpected ");
            out.append("Err(Timeout)");
        },
        (_, Err(ReceiveError::Disconnected)) => {
            out.append("unexpected ");
            out.append("Err(Disconnected)");
        },
    }
    assert(out@ =~= old(out)@ + complaint(expected, *reply));
}

/// The error of a `Send` of `event` that failed for the reason `cause`.
pub fn send_error(event: &VcpuEvent, cause: &str) -> (error: SnapshotError)
    ensures
        error@ == send_error_view(*event, cause@),
{
    let mut message = "send ".to_owned();
    match event {
        VcpuEvent::Pause => message.append("Pause"),
        VcpuEvent::Resume => message.append("Resume"),
        VcpuEvent::RestoreState(_) => message.append("RestoreState"),
        VcpuEvent::RebaseTimer(_) => message.append("RebaseTimer"),
    }
    message.append(": ");
    message.append(cause);
    SnapshotError::Io(message)
}

/// Holds the reply of a vCPU against the answer that is due.
pub fn check_reply(vcpu: usize, expected: Expected, reply: &Reply) -> (checked: Result<
    (),
    SnapshotError,
>)
    ensures
        checked is Ok <==> answers(expected, *reply),
        checked matches Err(error) ==> error@ == reply_error_view(vcpu, expected, *reply),
{
    let due = match (expected, reply) {
        (Expected::Paused, Ok(VcpuResponse::Paused(_))) => true,
        (Expected::InitialPaused, Ok(VcpuResponse::Paused(_))) => true,
        (Expected::Resumed, Ok(VcpuResponse::Resumed)) => true,
        (Expected::Restored, Ok(VcpuResponse::Restored)) => true,
        (Expected::TimerRebased, Ok(VcpuResponse::TimerRebased)) => true,
        _ => false,
    };
    if due {
        return Ok(());
    }
    let mut message = "vcpu ".to_owned();
    text::append_decimal(&mut message, vcpu as u64);
    message.append(": ");
    append_complaint(&mut message, expected, reply);
    assert(message@ =~= "vcpu "@ + text::decimal(vcpu as nat) + ": "@ + complaint(
        expected,
        *reply,
    ));
    Err(SnapshotError::Io(message))
}

/// The exchange that lets `vcpu_count` vCPUs run on.
pub fn resume_vcpus(vcpu_count: usize) -> (steps: Vec<VcpuStep>)
    ensures
        steps@ == resume_exchange(vcpu_count as nat),
{
    let mut steps: Vec<VcpuStep> = Vec::new();
    let ghost whole = resume_exchange(vcpu_count as nat);
    let mut i: usize = 0;
    while i < vcpu_count
        invariant
            i <= vcpu_count,
            whole == resume_exchange(vcpu_count as nat),
            steps@ =~= whole.take(i as int),
        decreases vcpu_count - i,
    {
        steps.push(VcpuStep::Send { vcpu: i, event: VcpuEvent::Resume });
        i += 1;
    }
    i = 0;
    while i < vcpu_count
        invariant
            i <= vcpu_count,
            whole == resume_exchange(vcpu_count as nat),
            steps@ =~= whole.take(vcpu_count + i),
        decreases vcpu_count - i,
    {
        steps.push(VcpuStep::Receive { vcpu: i, expected: Expected::Resumed });
        i += 1;
    }
    assert(steps@ =~= whole);
    steps
}

/// What of that exchange tells the vCPUs from position `from` on.
pub(crate) fn later_resumes(vcpu_count: usize, from: usize) -> (steps: Vec<VcpuStep>)
    requires
        from <= vcpu_count,
    ensures
        steps@ == resume_exchange(vcpu_count as nat).subrange(from as int, vcpu_count as int),
{
    let mut steps: Vec<VcpuStep> = Vec::new();
    let ghost whole = resume_exchange(vcpu_count as nat);
    let mut i: usize = from;
    while i < vcpu_count
        invariant
            from <= i <= vcpu_count,
            whole == resume_exchange(vcpu_count as nat),
            steps@ =~= whole.subrange(from as int, i as int),
        decreases vcpu_count - i,
    {
        steps.push(VcpuStep::Send { vcpu: i, event: VcpuEvent::Resume });
        i += 1;
    }
    steps
}

/// The exchange that brings `vcpu_count` vCPUs to a standstill. `vcpu_ids` are
/// their hypervisor handles.
pub fn pause_vcpus(vcpu_count: usize, vcpu_ids: &Vec<u64>) -> (steps: Vec<VcpuStep>)
    ensures
        steps@ == pause_exchange(vcpu_count as nat, vcpu_ids@),
{
    let mut steps: Vec<VcpuStep> = Vec::new();
    let ghost whole = pause_exchange(vcpu_count as nat, vcpu_ids@);
    let mut i: usize = 0;
    while i < vcpu_count
        invariant
            i <= vcpu_count,
            whole == pause_exchange(vcpu_count as nat, vcpu_ids@),
            steps@ =~= whole.take(i as int),
        decreases vcpu_count - i,
    {
        steps.push(VcpuStep::Send { vcpu: i, event: VcpuEvent::Pause });
        i += 1;
    }
    i = 0;
    while i < vcpu_ids.len()
        invariant
            i <= vcpu_ids.len(),
            whole == pause_exchange(vcpu_count as nat, vcpu_ids@),
            steps@ =~= whole.take(vcpu_count + i),
        decreases vcpu_ids.len() - i,
    {
        steps.push(VcpuStep::RequestExit { vcpu_id: vcpu_ids[i] });
        i += 1;
    }
    i = 0;
    while i < vcpu_count
        invariant
            i <= vcpu_count,
            whole == pause_exchange(vcpu_count as nat, vcpu_ids@),
            steps@ =~= whole.take(vcpu_count + vcpu_ids.len() + i),
        decreases vcpu_count - i,
    {
        steps.push(VcpuStep::Receive { vcpu: i, expected: Expected::Paused });
        i += 1;
    }
    assert(steps@ =~= whole);
    steps
}

} // verus!
