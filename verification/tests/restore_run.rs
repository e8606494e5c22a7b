use vm_snapshot::error::{Failure, SnapshotError};
use vm_snapshot::inputs::CaptureInputs;
use vm_snapshot::ram::{RamExtent, RamLayout};
use vm_snapshot::restore::{
    check_meta, device_at, restore, timer_delta, RestoreOutcome, RestoreRun, RestoreStep,
};
use vm_snapshot::sections::{
    assemble, meta_section, virtio_section, Container, MetaSection, Payload, Recorded, SectionId,
};
use vm_snapshot::vcpu::{Expected, ReceiveError, VcpuEvent, VcpuResponse, VcpuStep};

type Host = &'static str;

fn inputs() -> CaptureInputs {
    CaptureInputs {
        vcpu_count: 2,
        vcpu_ids: vec![70, 71],
        virtio_bases: vec![0x9000, 0xa000, 0xb000],
        has_irqchip: true,
        has_gic: true,
        nested_enabled: false,
    }
}

fn meta() -> MetaSection {
    MetaSection {
        ram: RamLayout { regions: vec![] },
        virtio_bases: vec![0xb000, 0xa000],
        vcpu_count: 2,
        nested_enabled: false,
        capture_mach_time: 100,
    }
}

fn well(step: &RestoreStep) -> RestoreOutcome<Host> {
    match step {
        RestoreStep::LoadMeta => RestoreOutcome::Meta(meta()),
        RestoreStep::Vcpu(VcpuStep::Receive { expected, .. }) => {
            RestoreOutcome::Reply(Ok(match expected {
                Expected::Paused | Expected::InitialPaused => VcpuResponse::Paused(vec![]),
                Expected::Resumed => VcpuResponse::Resumed,
                Expected::Restored => VcpuResponse::Restored,
                Expected::TimerRebased => VcpuResponse::TimerRebased,
            }))
        }
        RestoreStep::FindIrqchipState
        | RestoreStep::FindGicState
        | RestoreStep::FindPendingInterrupts => RestoreOutcome::Found(true),
        RestoreStep::LoadVcpuState { index, .. } => {
            RestoreOutcome::Registers(vec![*index as u8, 40])
        }
        RestoreStep::LoadVirtio { index: 0 } => {
            RestoreOutcome::Virtio { mmio_base: 0xb000, has_device: true }
        }
        RestoreStep::LoadVirtio { .. } => {
            RestoreOutcome::Virtio { mmio_base: 0xa000, has_device: false }
        }
        RestoreStep::ReadClock { .. } => RestoreOutcome::Clock(175),
        _ => RestoreOutcome::Done,
    }
}

fn drive(
    mut run: RestoreRun<Host>,
    mut perform: impl FnMut(&RestoreStep) -> RestoreOutcome<Host>,
) -> (Vec<RestoreStep>, Result<(), Failure<Host>>) {
    let mut done = Vec::new();
    while let Some(step) = run.next() {
        let step = step.clone();
        let outcome = perform(&step);
        run.accept(outcome);
        done.push(step);
    }
    (done, run.finish())
}

/// A restore in which one step comes out otherwise than well. It ends there.
fn restore_with(odd: RestoreStep, outcome: RestoreOutcome<Host>) -> Failure<Host> {
    let mut outcome = Some(outcome);
    let (done, result) = drive(restore(inputs()), |step| {
        if *step == odd {
            outcome.take().unwrap()
        } else {
            well(step)
        }
    });
    assert_eq!(done.last(), Some(&odd));
    result.unwrap_err()
}

fn failed(cause: &str) -> RestoreOutcome<Host> {
    RestoreOutcome::Failed(cause.to_string())
}

fn io(message: &str) -> Failure<Host> {
    Failure::Snapshot(SnapshotError::Io(message.to_string()))
}

fn refused(message: &str) -> Failure<Host> {
    Failure::Snapshot(SnapshotError::DeviceRefused(message.to_string()))
}

fn mismatch(message: &str) -> SnapshotError {
    SnapshotError::ConfigMismatch(message.to_string())
}

fn send(vcpu: usize, event: VcpuEvent) -> RestoreStep {
    RestoreStep::Vcpu(VcpuStep::Send { vcpu, event })
}

fn receive(vcpu: usize, expected: Expected) -> RestoreStep {
    RestoreStep::Vcpu(VcpuStep::Receive { vcpu, expected })
}

#[test]
fn a_restore_pushes_everything_in_order() {
    let (done, result) = drive(restore(inputs()), well);
    assert_eq!(
        done,
        vec![
            RestoreStep::LoadMeta,
            receive(0, Expected::InitialPaused),
            receive(1, Expected::InitialPaused),
            RestoreStep::FindIrqchipState,
            RestoreStep::RestoreIrqchip,
            RestoreStep::FindGicState,
            RestoreStep::RestoreGic,
            RestoreStep::FindPendingInterrupts,
            RestoreStep::RestorePendingInterrupts,
            RestoreStep::LoadVcpuState { vcpu: 0, index: 0 },
            send(0, VcpuEvent::RestoreState(vec![0, 40])),
            receive(0, Expected::Restored),
            RestoreStep::LoadVcpuState { vcpu: 1, index: 1 },
            send(1, VcpuEvent::RestoreState(vec![1, 40])),
            receive(1, Expected::Restored),
            RestoreStep::LoadVirtio { index: 0 },
            RestoreStep::ActivateDevice { device: 2, index: 0 },
            RestoreStep::PauseDevice { device: 2 },
            RestoreStep::RestoreDevice { device: 2, index: 0 },
            RestoreStep::ResumeDevice { device: 2 },
            RestoreStep::ReplayInterrupt { device: 2 },
            RestoreStep::LoadVirtio { index: 1 },
            RestoreStep::RestoreTransport { device: 1, index: 1 },
            RestoreStep::ReplayInterrupt { device: 1 },
            RestoreStep::ReadClock { captured_at: 100 },
            send(0, VcpuEvent::RebaseTimer(75)),
            receive(0, Expected::TimerRebased),
            send(1, VcpuEvent::RebaseTimer(75)),
            receive(1, Expected::TimerRebased),
            send(0, VcpuEvent::Resume),
            send(1, VcpuEvent::Resume),
            receive(0, Expected::Resumed),
            receive(1, Expected::Resumed),
            RestoreStep::ReplayAfterResume { device: 0 },
            RestoreStep::ReplayAfterResume { device: 1 },
            RestoreStep::ReplayAfterResume { device: 2 },
        ]
    );
    assert_eq!(result, Ok(()));
}

#[test]
fn interrupt_state_that_is_not_there_is_passed_over() {
    let (done, result) = drive(restore(inputs()), |step| match step {
        RestoreStep::FindIrqchipState
        | RestoreStep::FindGicState
        | RestoreStep::FindPendingInterrupts => RestoreOutcome::Found(false),
        _ => well(step),
    });
    assert_eq!(
        done[3..6],
        [
            RestoreStep::FindIrqchipState,
            RestoreStep::FindGicState,
            RestoreStep::FindPendingInterrupts,
        ]
    );
    assert!(!done.contains(&RestoreStep::RestoreIrqchip));
    assert!(!done.contains(&RestoreStep::RestoreGic));
    assert!(!done.contains(&RestoreStep::RestorePendingInterrupts));
    assert_eq!(result, Ok(()));
}

#[test]
fn a_machine_without_interrupt_controllers_is_not_asked_for_their_state() {
    let mut bare = inputs();
    bare.has_irqchip = false;
    bare.has_gic = false;
    let (done, result) = drive(restore(bare), well);
    assert!(!done.contains(&RestoreStep::FindIrqchipState));
    assert!(!done.contains(&RestoreStep::FindGicState));
    assert_eq!(done[3], RestoreStep::FindPendingInterrupts);
    assert_eq!(result, Ok(()));
}

#[test]
fn a_summary_that_cannot_be_read_ends_the_restore() {
    assert_eq!(
        restore_with(RestoreStep::LoadMeta, RestoreOutcome::Raised("truncated")),
        Failure::Host("truncated")
    );
}

#[test]
fn another_number_of_vcpus_is_refused_before_anything_is_touched() {
    let mut other = meta();
    other.vcpu_count = 4;
    let error = mismatch("snapshot vcpu_count 4 != configured 2");
    assert_eq!(check_meta(&inputs(), &other), Err(error.clone()));
    assert_eq!(
        restore_with(RestoreStep::LoadMeta, RestoreOutcome::Meta(other)),
        Failure::Snapshot(error)
    );
}

#[test]
fn another_nesting_is_refused_before_anything_is_touched() {
    let mut other = meta();
    other.nested_enabled = true;
    let error = mismatch("nested_enabled differs between snapshot and current ctx");
    assert_eq!(check_meta(&inputs(), &other), Err(error.clone()));
    assert_eq!(
        restore_with(RestoreStep::LoadMeta, RestoreOutcome::Meta(other)),
        Failure::Snapshot(error)
    );
}

#[test]
fn a_snapshot_of_the_same_machine_is_accepted() {
    let inputs = inputs();
    let virtio: Vec<_> =
        (0..3).map(|i| virtio_section(&inputs, i, 1, (), Some(()))).collect();
    let meta = meta_section(&inputs, RamLayout { regions: vec![] }, &virtio, 0);
    assert_eq!(check_meta(&inputs, &meta), Ok(()));
    for (i, section) in virtio.iter().enumerate() {
        assert_eq!(device_at(&inputs, section.mmio_base), Some(i));
    }
}

#[test]
fn devices_are_matched_by_base_and_the_first_counts() {
    let mut twice = inputs();
    twice.virtio_bases = vec![5, 7, 5];
    assert_eq!(device_at(&twice, 7), Some(1));
    assert_eq!(device_at(&twice, 5), Some(0));
    assert_eq!(device_at(&twice, 6), None);
}

#[test]
fn a_section_without_a_device_is_refused() {
    let unknown = RestoreOutcome::Virtio { mmio_base: 0xc0de, has_device: true };
    assert_eq!(
        restore_with(RestoreStep::LoadVirtio { index: 1 }, unknown),
        Failure::Snapshot(mismatch("no virtio device at base 0xc0de in current ctx"))
    );
}

#[test]
fn sections_that_cannot_be_read_end_the_restore() {
    for step in [
        RestoreStep::LoadVcpuState { vcpu: 1, index: 1 },
        RestoreStep::LoadVirtio { index: 0 },
    ] {
        assert_eq!(
            restore_with(step, RestoreOutcome::Raised("missing")),
            Failure::Host("missing")
        );
    }
}

#[test]
fn devices_that_refuse_end_the_restore() {
    let cases = [
        (RestoreStep::RestoreIrqchip, "irqchip restore: no"),
        (RestoreStep::ActivateDevice { device: 2, index: 0 }, "base=0xb000: activate: no"),
        (RestoreStep::PauseDevice { device: 2 }, "base=0xb000: pause: no"),
        (RestoreStep::RestoreDevice { device: 2, index: 0 }, "base=0xb000: restore: no"),
        (RestoreStep::ResumeDevice { device: 2 }, "base=0xb000: resume: no"),
    ];
    for (step, message) in cases {
        assert_eq!(restore_with(step, failed("no")), refused(message));
    }
}

#[test]
fn messages_that_cannot_be_sent_end_the_restore() {
    let cases = [
        (send(1, VcpuEvent::RestoreState(vec![1, 40])), "send RestoreState: Full"),
        (send(1, VcpuEvent::RebaseTimer(75)), "send RebaseTimer: Full"),
        (send(1, VcpuEvent::Resume), "send Resume: Full"),
    ];
    for (step, message) in cases {
        assert_eq!(restore_with(step, failed("Full")), io(message));
    }
}

#[test]
fn vcpus_that_answer_otherwise_end_the_restore() {
    let timeout = || RestoreOutcome::Reply(Err(ReceiveError::Timeout));
    let error = || RestoreOutcome::Reply(Ok(VcpuResponse::Error("bad".to_string())));
    assert_eq!(
        restore_with(receive(1, Expected::InitialPaused), timeout()),
        io("vcpu 1: initial-pause timeout")
    );
    assert_eq!(
        restore_with(receive(0, Expected::Restored), error()),
        io("vcpu 0: restore: bad")
    );
    assert_eq!(
        restore_with(receive(0, Expected::TimerRebased), error()),
        io("vcpu 0: timer rebase: bad")
    );
    assert_eq!(
        restore_with(receive(0, Expected::TimerRebased), timeout()),
        io("vcpu 0: unexpected Err(Timeout)")
    );
    assert_eq!(
        restore_with(receive(1, Expected::Resumed), timeout()),
        io("vcpu 1: resume recv: timed out waiting on receive operation")
    );
}

#[test]
fn a_failed_restore_never_resumes() {
    let (done, result) = drive(restore(inputs()), |step| match step {
        RestoreStep::RestoreDevice { .. } => failed("no"),
        _ => well(step),
    });
    assert!(result.is_err());
    assert!(!done.contains(&send(0, VcpuEvent::Resume)));
}

#[test]
fn the_timer_moves_on_by_what_the_counter_moved() {
    assert_eq!(timer_delta(100, 175), 75);
    assert_eq!(timer_delta(5, 5), 0);
    assert_eq!(timer_delta(u64::MAX - 1, 3), 5);
    for (then, now) in [(100, 175), (u64::MAX - 1, 3), (0, u64::MAX)] {
        assert_eq!(then.wrapping_add(timer_delta(then, now)), now);
    }
}

fn find<'a>(
    container: &'a Container<'a, (), (), char, String>,
    id: SectionId,
    index: u32,
) -> &'a Payload<'a, (), (), char, String> {
    let section = container.sections.iter().find(|s| s.id == id && s.index == index);
    &section.unwrap().payload
}

#[test]
fn what_was_captured_comes_back() {
    let inputs = inputs();
    let virtio: Vec<_> = (0..3)
        .map(|i| {
            let state = if i == 1 { None } else { Some(format!("device {i}")) };
            virtio_section(&inputs, i, 1, 't', state)
        })
        .collect();
    let meta = meta_section(&inputs, RamLayout { regions: vec![] }, &virtio, 1000);
    let recorded = Recorded {
        vcpu_states: vec![vec![11, 12], vec![21]],
        device: None,
        virtio,
        hvf_gic: None,
        gic: None,
        vcpu_list: Some(()),
        ram: None,
        counter: 1000,
    };
    let container = assemble(RamExtent { total_ram: 0, ram_base: 0 }, &meta, &recorded);
    let (done, result) = drive(restore(inputs), |step| match step {
        RestoreStep::LoadMeta => match find(&container, SectionId::Meta, 0) {
            Payload::Meta(meta) => RestoreOutcome::Meta((*meta).clone()),
            other => panic!("{other:?}"),
        },
        RestoreStep::FindIrqchipState | RestoreStep::FindGicState => RestoreOutcome::Found(false),
        RestoreStep::LoadVcpuState { index, .. } => {
            match find(&container, SectionId::Vcpu, *index) {
                Payload::Raw(bytes) => RestoreOutcome::Registers((*bytes).clone()),
                other => panic!("{other:?}"),
            }
        }
        RestoreStep::LoadVirtio { index } => {
            match find(&container, SectionId::VirtioMmio, *index) {
                Payload::Virtio(section) => RestoreOutcome::Virtio {
                    mmio_base: section.mmio_base,
                    has_device: section.device.is_some(),
                },
                other => panic!("{other:?}"),
            }
        }
        RestoreStep::ReadClock { captured_at: 1000 } => RestoreOutcome::Clock(1001),
        _ => well(step),
    });
    assert_eq!(result, Ok(()));
    assert!(done.contains(&send(0, VcpuEvent::RestoreState(vec![11, 12]))));
    assert!(done.contains(&send(1, VcpuEvent::RestoreState(vec![21]))));
    assert!(done.contains(&send(1, VcpuEvent::RebaseTimer(1))));
    for (index, section) in recorded.virtio.iter().enumerate() {
        let at = done
            .iter()
            .position(|s| *s == RestoreStep::LoadVirtio { index: index as u32 })
            .unwrap();
        let next = if section.device.is_some() {
            RestoreStep::ActivateDevice { device: index, index: index as u32 }
        } else {
            RestoreStep::RestoreTransport { device: index, index: index as u32 }
        };
        assert_eq!(done[at + 1], next);
    }
}

#[test]
fn devices_may_be_reordered_and_others_added() {
    let mut other = inputs();
    other.virtio_bases = vec![0xb000, 0x1234, 0xa000, 0x9000];
    let (here, _) = drive(restore(inputs()), well);
    let (there, result) = drive(restore(other.clone()), well);
    assert_eq!(result, Ok(()));
    let place = |inputs: &CaptureInputs, device: &usize| inputs.virtio_bases[*device];
    let at_base = |inputs: &CaptureInputs, steps: &[RestoreStep]| -> Vec<String> {
        steps
            .iter()
            .filter(|step| !matches!(step, RestoreStep::ReplayAfterResume { .. }))
            .map(|step| match step {
                RestoreStep::ActivateDevice { device, index } => {
                    format!("activate {:x} {index}", place(inputs, device))
                }
                RestoreStep::PauseDevice { device } => format!("pause {:x}", place(inputs, device)),
                RestoreStep::RestoreDevice { device, index } => {
                    format!("restore {:x} {index}", place(inputs, device))
                }
                RestoreStep::ResumeDevice { device } => {
                    format!("resume {:x}", place(inputs, device))
                }
                RestoreStep::RestoreTransport { device, index } => {
                    format!("transport {:x} {index}", place(inputs, device))
                }
                RestoreStep::ReplayInterrupt { device } => {
                    format!("replay {:x}", place(inputs, device))
                }
                step => format!("{step:?}"),
            })
            .collect()
    };
    assert_eq!(at_base(&inputs(), &here), at_base(&other, &there));
    let replays: Vec<RestoreStep> =
        (0..4).map(|device| RestoreStep::ReplayAfterResume { device }).collect();
    assert_eq!(there[there.len() - 4..], replays);
}

#[test]
fn nothing_is_done_twice_in_a_restore() {
    let (done, result) = drive(restore(inputs()), well);
    assert_eq!(result, Ok(()));
    for (i, step) in done.iter().enumerate() {
        assert!(!done[i + 1..].contains(step));
    }
    let read = done.iter().filter(|step| matches!(step, RestoreStep::ReadClock { .. }));
    assert_eq!(read.count(), 1);
    let moved: Vec<u64> = done
        .iter()
        .filter_map(|step| match step {
            RestoreStep::Vcpu(VcpuStep::Send { event: VcpuEvent::RebaseTimer(ticks), .. }) => {
                Some(*ticks)
            }
            _ => None,
        })
        .collect();
    assert_eq!(moved.len(), 2);
    assert_eq!(moved[0], moved[1]);
    for vcpu in 0..2 {
        let told: Vec<u8> = done
            .iter()
            .filter_map(|step| match step {
                RestoreStep::Vcpu(VcpuStep::Send { vcpu: told, event }) if *told == vcpu => {
                    Some(match event {
                        VcpuEvent::RestoreState(_) => 0,
                        VcpuEvent::RebaseTimer(_) => 1,
                        VcpuEvent::Resume => 2,
                        VcpuEvent::Pause => 3,
                    })
                }
                _ => None,
            })
            .collect();
        assert_eq!(told, vec![0, 1, 2]);
    }
}
