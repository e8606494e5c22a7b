use vm_snapshot::error::SnapshotError;
use vm_snapshot::text::{append_byte_list, append_decimal, append_hexadecimal};
use vm_snapshot::vcpu::{
    check_reply, pause_vcpus, receive_error_message, resume_vcpus, send_error, Expected,
    ReceiveError, Reply, VcpuEvent, VcpuResponse, VcpuStep, VCPU_PAUSE_TIMEOUT_MS,
};

fn complaint(vcpu: usize, expected: Expected, reply: Reply) -> String {
    match check_reply(vcpu, expected, &reply) {
        Err(SnapshotError::Io(message)) => message,
        other => panic!("{other:?}"),
    }
}

#[test]
fn numbers_are_written_as_format_writes_them() {
    let numbers = [0u64, 1, 9, 10, 15, 16, 255, 256, 4096, 1_000_000, 0xdead_beef, u64::MAX];
    for n in numbers {
        let mut out = "<".to_string();
        append_decimal(&mut out, n);
        out.push(' ');
        append_hexadecimal(&mut out, n);
        assert_eq!(out, format!("<{n} {n:x}"));
    }
}

#[test]
fn byte_lists_are_written_as_format_writes_them() {
    for bytes in [vec![], vec![7], vec![0, 255, 16], vec![1, 2, 3, 4]] {
        let mut out = String::new();
        append_byte_list(&mut out, &bytes);
        assert_eq!(out, format!("{bytes:?}"));
    }
}

#[test]
fn vcpus_are_awaited_for_two_seconds() {
    assert_eq!(VCPU_PAUSE_TIMEOUT_MS, 2000);
}

#[test]
fn pause_exchange_sends_kicks_and_awaits() {
    assert_eq!(
        pause_vcpus(2, &vec![70, 71]),
        vec![
            VcpuStep::Send { vcpu: 0, event: VcpuEvent::Pause },
            VcpuStep::Send { vcpu: 1, event: VcpuEvent::Pause },
            VcpuStep::RequestExit { vcpu_id: 70 },
            VcpuStep::RequestExit { vcpu_id: 71 },
            VcpuStep::Receive { vcpu: 0, expected: Expected::Paused },
            VcpuStep::Receive { vcpu: 1, expected: Expected::Paused },
        ]
    );
    assert_eq!(pause_vcpus(0, &vec![]), vec![]);
}

#[test]
fn resume_exchange_sends_to_all_before_it_awaits() {
    assert_eq!(
        resume_vcpus(2),
        vec![
            VcpuStep::Send { vcpu: 0, event: VcpuEvent::Resume },
            VcpuStep::Send { vcpu: 1, event: VcpuEvent::Resume },
            VcpuStep::Receive { vcpu: 0, expected: Expected::Resumed },
            VcpuStep::Receive { vcpu: 1, expected: Expected::Resumed },
        ]
    );
}

#[test]
fn receive_errors_read_like_those_of_the_channel() {
    assert_eq!(
        receive_error_message(ReceiveError::Timeout),
        crossbeam_channel::RecvTimeoutError::Timeout.to_string()
    );
    assert_eq!(
        receive_error_message(ReceiveError::Disconnected),
        crossbeam_channel::RecvTimeoutError::Disconnected.to_string()
    );
}

#[test]
fn send_errors_name_the_event() {
    let cases = [
        (VcpuEvent::Pause, "send Pause: gone"),
        (VcpuEvent::Resume, "send Resume: gone"),
        (VcpuEvent::RestoreState(vec![1]), "send RestoreState: gone"),
        (VcpuEvent::RebaseTimer(5), "send RebaseTimer: gone"),
    ];
    for (event, message) in cases {
        assert_eq!(send_error(&event, "gone"), SnapshotError::Io(message.to_string()));
    }
}

#[test]
fn due_answers_are_accepted() {
    assert_eq!(check_reply(0, Expected::Paused, &Ok(VcpuResponse::Paused(vec![1]))), Ok(()));
    assert_eq!(check_reply(0, Expected::InitialPaused, &Ok(VcpuResponse::Paused(vec![]))), Ok(()));
    assert_eq!(check_reply(0, Expected::Resumed, &Ok(VcpuResponse::Resumed)), Ok(()));
    assert_eq!(check_reply(0, Expected::Restored, &Ok(VcpuResponse::Restored)), Ok(()));
    assert_eq!(check_reply(0, Expected::TimerRebased, &Ok(VcpuResponse::TimerRebased)), Ok(()));
}

#[test]
fn pause_complaints() {
    assert_eq!(
        complaint(3, Expected::Paused, Ok(VcpuResponse::Resumed)),
        "vcpu 3: unexpected response Resumed"
    );
    assert_eq!(
        complaint(0, Expected::Paused, Err(ReceiveError::Timeout)),
        "vcpu 0: pause timeout"
    );
    assert_eq!(
        complaint(12, Expected::Paused, Err(ReceiveError::Disconnected)),
        "vcpu 12: channel is empty and disconnected"
    );
}

#[test]
fn initial_pause_complaints() {
    assert_eq!(
        complaint(1, Expected::InitialPaused, Ok(VcpuResponse::Restored)),
        "vcpu 1: expected initial Paused, got Restored"
    );
    assert_eq!(
        complaint(1, Expected::InitialPaused, Err(ReceiveError::Timeout)),
        "vcpu 1: initial-pause timeout"
    );
    assert_eq!(
        complaint(1, Expected::InitialPaused, Err(ReceiveError::Disconnected)),
        "vcpu 1: channel is empty and disconnected"
    );
}

#[test]
fn resume_complaints() {
    assert_eq!(
        complaint(1, Expected::Resumed, Ok(VcpuResponse::Paused(vec![1, 2]))),
        "vcpu 1: unexpected resume response Paused([1, 2])"
    );
    assert_eq!(
        complaint(1, Expected::Resumed, Err(ReceiveError::Timeout)),
        "vcpu 1: resume recv: timed out waiting on receive operation"
    );
    assert_eq!(
        complaint(1, Expected::Resumed, Err(ReceiveError::Disconnected)),
        "vcpu 1: resume recv: channel is empty and disconnected"
    );
}

#[test]
fn restore_and_timer_complaints() {
    let error = || Ok(VcpuResponse::Error("bad \"state\"".to_string()));
    assert_eq!(
        complaint(2, Expected::Restored, error()),
        "vcpu 2: restore: bad \"state\""
    );
    assert_eq!(
        complaint(2, Expected::TimerRebased, error()),
        "vcpu 2: timer rebase: bad \"state\""
    );
    assert_eq!(
        complaint(2, Expected::Restored, Ok(VcpuResponse::Paused(vec![9]))),
        "vcpu 2: unexpected Ok(Paused([9]))"
    );
    assert_eq!(
        complaint(2, Expected::Restored, Err(ReceiveError::Timeout)),
        "vcpu 2: unexpected Err(Timeout)"
    );
    assert_eq!(
        complaint(2, Expected::TimerRebased, Err(ReceiveError::Disconnected)),
        "vcpu 2: unexpected Err(Disconnected)"
    );
    assert_eq!(
        complaint(2, Expected::TimerRebased, Ok(VcpuResponse::Restored)),
        "vcpu 2: unexpected Ok(Restored)"
    );
}

#[test]
fn errors_inside_complaints_are_quoted_and_escaped() {
    let text = "say \"no\"\n\\";
    let response = VcpuResponse::Error(text.to_string());
    let expected = format!("vcpu 0: unexpected response Error({text:?})");
    assert_eq!(complaint(0, Expected::Paused, Ok(response)), expected);
}

#[test]
fn responses_are_shown_as_debug_shows_them() {
    let responses = [
        VcpuResponse::Resumed,
        VcpuResponse::Restored,
        VcpuResponse::TimerRebased,
        VcpuResponse::Error("x".to_string()),
    ];
    for response in responses {
        let expected = format!("vcpu 0: unexpected response {response:?}");
        assert_eq!(complaint(0, Expected::Paused, Ok(response)), expected);
    }
}
