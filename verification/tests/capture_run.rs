use vm_snapshot::capture::{
    arm_dirty_tracking, capture, capture_paused, publish_snapshot_dir, resume_devices, CaptureRun,
    CaptureStep, Outcome,
};
use vm_snapshot::error::{Failure, SnapshotError};
use vm_snapshot::host::Host;
use vm_snapshot::inputs::CaptureInputs;
use vm_snapshot::ram::{DirtyBlock, RamExtent, RamLayout, RamRegion};
use vm_snapshot::sections::{Payload, SectionId};
use vm_snapshot::tracking::{ImageSource, LastImage, Tracker};
use vm_snapshot::vcpu::{
    pause_vcpus, resume_vcpus, Expected, ReceiveError, VcpuEvent, VcpuResponse, VcpuStep,
};

struct Machine;

impl Host for Machine {
    type Error = &'static str;
    type Transport = char;
    type Device = String;
    type Distributor = u16;
    type Pending = u8;
}

type Ended = Result<(), Failure<&'static str>>;

fn inputs() -> CaptureInputs {
    CaptureInputs {
        vcpu_count: 2,
        vcpu_ids: vec![70, 71],
        virtio_bases: vec![0xa000, 0xb000],
        has_irqchip: true,
        has_gic: true,
        nested_enabled: false,
    }
}

fn layout() -> RamLayout {
    RamLayout { regions: vec![RamRegion { guest_addr: 0x1000, size: 0x1000, file_offset: 0 }] }
}

fn block(n: u64) -> DirtyBlock {
    DirtyBlock { guest_addr: n * 0x1000, size: 0x1000 }
}

fn well(step: &CaptureStep) -> Outcome<Machine> {
    match step {
        CaptureStep::Vcpu(VcpuStep::Receive { vcpu, expected: Expected::Paused }) => {
            Outcome::Reply(Ok(VcpuResponse::Paused(vec![*vcpu as u8, 40])))
        }
        CaptureStep::Vcpu(VcpuStep::Receive { .. }) => Outcome::Reply(Ok(VcpuResponse::Resumed)),
        CaptureStep::SerializeDevice { device } => Outcome::Serialized(format!("device {device}")),
        CaptureStep::ReadTransport { device } => {
            Outcome::Transport { device_type: 10 + *device as u32, state: 't' }
        }
        CaptureStep::SnapshotIrqchip => Outcome::Irqchip(Some(vec![7])),
        CaptureStep::ReadInterruptState => Outcome::Interrupts { gic: Some(9), vcpu_list: 3 },
        CaptureStep::TakeDirtyBlocks => Outcome::Blocks(vec![block(1)]),
        CaptureStep::WriteImage { .. } => Outcome::Image(layout()),
        CaptureStep::ReadClock => Outcome::Clock(77),
        CaptureStep::LookForStage
        | CaptureStep::LookForPages
        | CaptureStep::LookForTarget => Outcome::Found(false),
        _ => Outcome::Done,
    }
}

fn start(tracker: Tracker) -> CaptureRun<Machine> {
    capture(inputs(), tracker, b"target".to_vec())
}

fn drive_on(
    run: &mut CaptureRun<Machine>,
    mut perform: impl FnMut(&CaptureStep) -> Outcome<Machine>,
) -> Vec<CaptureStep> {
    let mut done = Vec::new();
    while let Some(step) = run.next() {
        let step = step.clone();
        let outcome = perform(&step);
        run.accept(outcome);
        done.push(step);
    }
    done
}

fn drive(
    mut run: CaptureRun<Machine>,
    perform: impl FnMut(&CaptureStep) -> Outcome<Machine>,
) -> (Vec<CaptureStep>, Vec<Vec<u8>>, Ended) {
    let done = drive_on(&mut run, perform);
    let states = run.recorded().vcpu_states.clone();
    (done, states, run.finish().0)
}

fn on_vcpus(steps: Vec<VcpuStep>) -> Vec<CaptureStep> {
    steps.into_iter().map(CaptureStep::Vcpu).collect()
}

fn failed(cause: &str) -> Outcome<Machine> {
    Outcome::Failed(cause.to_string())
}

fn io(message: &str) -> Ended {
    Err(Failure::Snapshot(SnapshotError::Io(message.to_string())))
}

fn refused(message: &str) -> Ended {
    Err(Failure::Snapshot(SnapshotError::DeviceRefused(message.to_string())))
}

/// A capture in which one step comes out otherwise than well.
fn capture_with(odd: CaptureStep, outcome: Outcome<Machine>) -> (Vec<CaptureStep>, Ended) {
    let mut outcome = Some(outcome);
    let (done, _, result) = drive(start(Tracker::new()), |step| {
        if *step == odd && outcome.is_some() {
            outcome.take().unwrap()
        } else {
            well(step)
        }
    });
    assert!(outcome.is_none());
    (done, result)
}

fn all_resumed() -> Vec<CaptureStep> {
    let mut steps = resume_devices(&inputs());
    steps.extend(on_vcpus(resume_vcpus(2)));
    steps
}

fn after<'a>(done: &'a [CaptureStep], step: &CaptureStep) -> &'a [CaptureStep] {
    let at = done.iter().position(|s| s == step).unwrap();
    &done[at + 1..]
}

#[test]
fn a_first_capture_writes_a_sparse_image() {
    let (done, states, result) = drive(start(Tracker::new()), well);
    let mut expected = on_vcpus(pause_vcpus(2, &vec![70, 71]));
    expected.extend([
        CaptureStep::PauseDevice { device: 0 },
        CaptureStep::SerializeDevice { device: 0 },
        CaptureStep::ReadTransport { device: 0 },
        CaptureStep::PauseDevice { device: 1 },
        CaptureStep::SerializeDevice { device: 1 },
        CaptureStep::ReadTransport { device: 1 },
        CaptureStep::SnapshotIrqchip,
        CaptureStep::ReadInterruptState,
        CaptureStep::LookForStage,
        CaptureStep::CreateStage,
        CaptureStep::TakeDirtyBlocks,
        CaptureStep::LookForPages,
        CaptureStep::WriteImage { source: ImageSource::Sparse },
        CaptureStep::ReadClock,
        CaptureStep::WriteContainer,
        CaptureStep::LookForTarget,
        CaptureStep::RenameStage { replacing: false },
        CaptureStep::EnableTracking,
        CaptureStep::ResumeDevice { device: 0 },
        CaptureStep::ResumeDevice { device: 1 },
    ]);
    expected.extend(on_vcpus(resume_vcpus(2)));
    assert_eq!(done, expected);
    assert_eq!(states, vec![vec![0, 40], vec![1, 40]]);
    assert_eq!(result, Ok(()));
}

#[test]
fn what_is_found_is_dealt_with_at_once() {
    let tracker = Tracker::restored(b"target".to_vec());
    let (done, _, result) = drive(start(tracker), |step| match step {
        CaptureStep::LookForStage
        | CaptureStep::LookForPages
        | CaptureStep::LookForTarget => Outcome::Found(true),
        _ => well(step),
    });
    assert_eq!(
        after(&done, &CaptureStep::LookForStage)[..2],
        [CaptureStep::RemoveStage, CaptureStep::CreateStage]
    );
    assert_eq!(
        after(&done, &CaptureStep::LookForPages)[..2],
        [CaptureStep::WriteImage { source: ImageSource::Clone }, CaptureStep::ReadClock]
    );
    assert_eq!(
        after(&done, &CaptureStep::LookForTarget)[..4],
        [
            CaptureStep::SetTargetAside,
            CaptureStep::RenameStage { replacing: true },
            CaptureStep::RemoveOld,
            CaptureStep::EnableTracking,
        ]
    );
    assert_eq!(result, Ok(()));
}

fn replacing(step: &CaptureStep) -> Outcome<Machine> {
    match step {
        CaptureStep::LookForTarget => Outcome::Found(true),
        _ => well(step),
    }
}

#[test]
fn a_snapshot_that_cannot_be_replaced_is_put_back() {
    let rename = CaptureStep::RenameStage { replacing: true };
    let (done, _, result) = drive(start(Tracker::new()), |step| {
        if *step == rename {
            Outcome::Raised("no such directory")
        } else {
            replacing(step)
        }
    });
    let mut undone = vec![CaptureStep::PutTargetBack, CaptureStep::DiscardStage];
    undone.extend(all_resumed());
    assert_eq!(after(&done, &rename), undone);
    assert!(!done.contains(&CaptureStep::RemoveOld));
    assert_eq!(result, Err(Failure::Host("no such directory")));
}

#[test]
fn a_stage_that_holds_the_old_snapshot_is_not_discarded() {
    let (done, _, result) = drive(start(Tracker::new()), |step| match step {
        CaptureStep::RenameStage { .. } => Outcome::Raised("no such directory"),
        CaptureStep::PutTargetBack => Outcome::Raised("in use"),
        _ => replacing(step),
    });
    assert_eq!(after(&done, &CaptureStep::PutTargetBack), all_resumed());
    assert!(!done.contains(&CaptureStep::DiscardStage));
    assert_eq!(result, Err(Failure::Host("no such directory")));
}

#[test]
fn a_new_snapshot_stands_whatever_fails_behind_it() {
    let rename = CaptureStep::RenameStage { replacing: true };
    let (done, _, result) = drive(start(Tracker::new()), |step| match step {
        CaptureStep::RemoveOld => Outcome::Raised("in use"),
        CaptureStep::EnableTracking | CaptureStep::ResumeDevice { .. } => failed("no"),
        _ => replacing(step),
    });
    let rest = after(&done, &rename);
    assert!(!rest.contains(&CaptureStep::PutTargetBack));
    assert!(!rest.contains(&CaptureStep::SetTargetAside));
    assert_eq!(result, Err(Failure::Host("in use")));
}

#[test]
fn nothing_is_done_twice_in_a_capture() {
    let odd = [
        None,
        Some(CaptureStep::WriteContainer),
        Some(CaptureStep::RenameStage { replacing: true }),
        Some(CaptureStep::RemoveOld),
    ];
    for odd in odd {
        let (done, _, _) = drive(start(Tracker::new()), |step| {
            if Some(step) == odd.as_ref() {
                Outcome::Raised("no")
            } else {
                replacing(step)
            }
        });
        for (i, step) in done.iter().enumerate() {
            assert!(!done[i + 1..].contains(step));
        }
        let told: Vec<&CaptureStep> = done
            .iter()
            .filter(|step| matches!(step, CaptureStep::Vcpu(VcpuStep::Send { vcpu: 1, .. })))
            .collect();
        assert_eq!(
            told,
            vec![
                &CaptureStep::Vcpu(VcpuStep::Send { vcpu: 1, event: VcpuEvent::Pause }),
                &CaptureStep::Vcpu(VcpuStep::Send { vcpu: 1, event: VcpuEvent::Resume }),
            ]
        );
    }
}

#[test]
fn a_snapshot_that_cannot_be_set_aside_stays() {
    let (done, _, result) = drive(start(Tracker::new()), |step| match step {
        CaptureStep::SetTargetAside => Outcome::Raised("in use"),
        _ => replacing(step),
    });
    let mut undone = vec![CaptureStep::DiscardStage];
    undone.extend(all_resumed());
    assert_eq!(after(&done, &CaptureStep::SetTargetAside), undone);
    assert_eq!(result, Err(Failure::Host("in use")));
}

#[test]
fn an_old_snapshot_that_stays_is_reported_and_the_new_one_is_kept() {
    let mut run = start(Tracker::new());
    let done = drive_on(&mut run, |step| match step {
        CaptureStep::RemoveOld => Outcome::Raised("in use"),
        _ => replacing(step),
    });
    let mut rest = vec![CaptureStep::EnableTracking];
    rest.extend(all_resumed());
    assert_eq!(after(&done, &CaptureStep::RemoveOld), rest);
    let (result, tracker) = run.finish();
    assert_eq!(result, Err(Failure::Host("in use")));
    assert_eq!(tracker.image, LastImage::At(b"target".to_vec()));
}

#[test]
fn what_was_recorded_goes_into_the_state_file() {
    let mut run = start(Tracker::new());
    while run.next() != Some(&CaptureStep::WriteContainer) {
        let outcome = well(run.next().unwrap());
        run.accept(outcome);
    }
    let meta = run.meta().unwrap();
    assert_eq!(meta.ram, layout());
    assert_eq!(meta.virtio_bases, vec![0xa000, 0xb000]);
    assert_eq!((meta.vcpu_count, meta.capture_mach_time), (2, 77));
    let container = run.container(RamExtent { total_ram: 0x1000, ram_base: 0x1000 }, &meta);
    let names: Vec<(SectionId, u32)> = container.sections.iter().map(|s| (s.id, s.index)).collect();
    assert_eq!(
        names,
        vec![
            (SectionId::Meta, 0),
            (SectionId::Vcpu, 0),
            (SectionId::Vcpu, 1),
            (SectionId::GicDist, 0),
            (SectionId::HvfGic, 0),
            (SectionId::GicVcpu, 0),
            (SectionId::VirtioMmio, 0),
            (SectionId::VirtioMmio, 1),
        ]
    );
    match container.sections[7].payload {
        Payload::Virtio(section) => {
            assert_eq!(section.mmio_base, 0xb000);
            assert_eq!(section.device_type, 11);
            assert_eq!(section.transport, 't');
            assert_eq!(section.device, Some("device 1".to_string()));
        }
        _ => panic!("not a virtio section"),
    }
}

#[test]
fn there_is_no_summary_before_there_is_an_image() {
    assert_eq!(start(Tracker::new()).meta(), None);
}

/// The blocks that the image was patched with, how it was written, and what the next
/// capture is told.
fn image_of(
    mut run: CaptureRun<Machine>,
    there: bool,
    odd: Option<CaptureStep>,
) -> (Option<ImageSource>, Vec<DirtyBlock>, Tracker) {
    let mut source = None;
    let mut blocks = Vec::new();
    while let Some(step) = run.next().cloned() {
        if let CaptureStep::WriteImage { source: s } = step {
            source = Some(s);
            blocks = run.dirty_blocks().clone();
        }
        let outcome = if Some(&step) == odd.as_ref() {
            match step {
                CaptureStep::TakeDirtyBlocks | CaptureStep::EnableTracking => failed("no"),
                _ => Outcome::Raised("no"),
            }
        } else if step == CaptureStep::LookForPages {
            Outcome::Found(there)
        } else {
            well(&step)
        };
        run.accept(outcome);
    }
    (source, blocks, run.finish().1)
}

#[test]
fn later_captures_clone_the_image_before_them() {
    let (source, blocks, tracker) = image_of(start(Tracker::new()), false, None);
    assert_eq!((source, blocks), (Some(ImageSource::Sparse), vec![block(1)]));
    assert_eq!(tracker, Tracker { blocks: vec![], image: LastImage::At(b"target".to_vec()) });
    let (source, blocks, _) = image_of(start(tracker), true, None);
    assert_eq!((source, blocks), (Some(ImageSource::Clone), vec![block(1)]));
}

#[test]
fn an_image_of_another_machine_is_not_cloned() {
    let (source, _, tracker) = image_of(start(Tracker::new()), true, None);
    assert_eq!(source, Some(ImageSource::Whole));
    assert_eq!(tracker.image, LastImage::At(b"target".to_vec()));
}

#[test]
fn a_capture_elsewhere_takes_all_of_memory() {
    let before = Tracker { blocks: vec![], image: LastImage::At(b"other".to_vec()) };
    for there in [false, true] {
        let (source, _, tracker) = image_of(start(before.clone()), there, None);
        assert_eq!(source, Some(ImageSource::Whole));
        assert_eq!(tracker.image, LastImage::At(b"target".to_vec()));
    }
    let lost = Tracker { blocks: vec![], image: LastImage::At(b"target".to_vec()) };
    assert_eq!(image_of(start(lost), false, None).0, Some(ImageSource::Whole));
}

#[test]
fn a_restored_machine_clones_the_image_that_it_was_restored_from() {
    let run = start(Tracker::restored(b"target".to_vec()));
    assert_eq!(image_of(run, true, None).0, Some(ImageSource::Clone));
    let run = start(Tracker::restored(b"other".to_vec()));
    assert_eq!(image_of(run, false, None).0, Some(ImageSource::Whole));
}

#[test]
fn blocks_that_a_failed_capture_was_handed_go_into_the_next_image() {
    let before = Tracker { blocks: vec![block(5)], image: LastImage::At(b"target".to_vec()) };
    let odd = Some(CaptureStep::WriteContainer);
    let (_, _, tracker) = image_of(start(before), true, odd);
    assert_eq!(
        tracker,
        Tracker {
            blocks: vec![block(5), block(1)],
            image: LastImage::At(b"target".to_vec()),
        }
    );
    let (source, blocks, tracker) = image_of(start(tracker), true, None);
    assert_eq!(source, Some(ImageSource::Clone));
    assert_eq!(blocks, vec![block(5), block(1), block(1)]);
    assert!(tracker.blocks.is_empty());
}

#[test]
fn a_failed_capture_elsewhere_leaves_the_last_image_known() {
    let before = Tracker { blocks: vec![], image: LastImage::At(b"other".to_vec()) };
    let odd = Some(CaptureStep::RenameStage { replacing: false });
    let (_, _, tracker) = image_of(start(before), false, odd);
    assert_eq!(
        tracker,
        Tracker { blocks: vec![block(1)], image: LastImage::At(b"other".to_vec()) }
    );
}

#[test]
fn tracking_that_fails_makes_the_next_image_whole() {
    for odd in [CaptureStep::TakeDirtyBlocks, CaptureStep::EnableTracking] {
        let (_, _, tracker) = image_of(start(Tracker::new()), false, Some(odd));
        assert_eq!(tracker.image, LastImage::Unknown);
        assert_eq!(image_of(start(tracker), true, None).0, Some(ImageSource::Whole));
    }
}

#[test]
fn a_machine_without_devices_is_captured_too() {
    let bare = CaptureInputs {
        vcpu_count: 0,
        vcpu_ids: vec![],
        virtio_bases: vec![],
        has_irqchip: false,
        has_gic: false,
        nested_enabled: false,
    };
    let steps = capture_paused(&bare);
    assert_eq!(
        steps,
        vec![
            CaptureStep::ReadInterruptState,
            CaptureStep::LookForStage,
            CaptureStep::CreateStage,
            CaptureStep::TakeDirtyBlocks,
            CaptureStep::LookForPages,
            CaptureStep::ReadClock,
            CaptureStep::WriteContainer,
            CaptureStep::LookForTarget,
            CaptureStep::EnableTracking,
        ]
    );
    let (done, states, result) = drive(capture(bare, Tracker::new(), vec![]), well);
    assert_eq!(done.len(), steps.len() + 2);
    assert!(states.is_empty());
    assert_eq!(result, Ok(()));
}

#[test]
fn publishing_starts_with_a_look() {
    assert_eq!(publish_snapshot_dir(), vec![CaptureStep::LookForTarget]);
}

#[test]
fn arming_only_pauses_tracks_and_resumes() {
    let (done, _, result) = drive(arm_dirty_tracking(inputs(), Tracker::new()), well);
    let mut expected = on_vcpus(pause_vcpus(2, &vec![70, 71]));
    expected.push(CaptureStep::EnableTracking);
    expected.extend(on_vcpus(resume_vcpus(2)));
    assert_eq!(done, expected);
    assert_eq!(result, Ok(()));
}

#[test]
fn arming_resumes_when_tracking_fails() {
    let (done, _, result) = drive(arm_dirty_tracking(inputs(), Tracker::new()), |step| match step {
        CaptureStep::EnableTracking => failed("no pages"),
        _ => well(step),
    });
    assert_eq!(after(&done, &CaptureStep::EnableTracking), on_vcpus(resume_vcpus(2)));
    assert_eq!(result, io("enable dirty RAM: no pages"));
}

#[test]
fn arming_resumes_when_pausing_fails() {
    let receive = CaptureStep::Vcpu(VcpuStep::Receive { vcpu: 0, expected: Expected::Paused });
    let (done, _, result) = drive(arm_dirty_tracking(inputs(), Tracker::new()), |step| {
        if *step == receive {
            Outcome::Reply(Err(ReceiveError::Timeout))
        } else {
            well(step)
        }
    });
    assert_eq!(after(&done, &receive), on_vcpus(resume_vcpus(2)));
    assert_eq!(result, io("vcpu 0: pause timeout"));
}

#[test]
fn a_pause_that_cannot_be_sent_resumes_the_vcpus_alone() {
    let send = CaptureStep::Vcpu(VcpuStep::Send { vcpu: 1, event: VcpuEvent::Pause });
    let (done, result) = capture_with(send.clone(), failed("Full"));
    assert_eq!(after(&done, &send), on_vcpus(resume_vcpus(2)));
    assert_eq!(result, io("send Pause: Full"));
}

#[test]
fn a_vcpu_that_does_not_pause_resumes_the_vcpus_alone() {
    let receive = CaptureStep::Vcpu(VcpuStep::Receive { vcpu: 1, expected: Expected::Paused });
    let (done, result) =
        capture_with(receive.clone(), Outcome::Reply(Ok(VcpuResponse::TimerRebased)));
    assert_eq!(after(&done, &receive), on_vcpus(resume_vcpus(2)));
    assert_eq!(result, io("vcpu 1: unexpected response TimerRebased"));
}

#[test]
fn a_device_that_refuses_ends_the_capture_and_all_is_resumed() {
    let steps = [
        CaptureStep::PauseDevice { device: 1 },
        CaptureStep::SerializeDevice { device: 1 },
    ];
    for step in steps {
        let (done, result) = capture_with(step.clone(), failed("unsupported"));
        assert_eq!(after(&done, &step), all_resumed());
        assert_eq!(result, refused("base=0xb000: unsupported"));
    }
    let step = CaptureStep::SnapshotIrqchip;
    let (done, result) = capture_with(step.clone(), failed("Busy"));
    assert_eq!(after(&done, &step), all_resumed());
    assert_eq!(result, refused("irqchip snapshot: Busy"));
}

#[test]
fn a_stage_that_cannot_be_made_is_not_discarded() {
    let step = CaptureStep::CreateStage;
    let (done, result) = capture_with(step.clone(), Outcome::Raised("disk full"));
    assert_eq!(after(&done, &step), all_resumed());
    assert_eq!(result, Err(Failure::Host("disk full")));
}

#[test]
fn a_stage_that_cannot_be_filled_is_discarded() {
    let raising = [
        CaptureStep::WriteImage { source: ImageSource::Sparse },
        CaptureStep::WriteContainer,
        CaptureStep::RenameStage { replacing: false },
    ];
    let mut cleanup = vec![CaptureStep::DiscardStage];
    cleanup.extend(all_resumed());
    for step in raising {
        let (done, result) = capture_with(step.clone(), Outcome::Raised("disk full"));
        assert_eq!(after(&done, &step), cleanup);
        assert_eq!(result, Err(Failure::Host("disk full")));
    }
    let failing = [
        (CaptureStep::TakeDirtyBlocks, "dirty RAM: oops"),
        (CaptureStep::EnableTracking, "enable dirty RAM: oops"),
    ];
    for (step, message) in failing {
        let (done, result) = capture_with(step.clone(), failed("oops"));
        assert_eq!(after(&done, &step), cleanup);
        assert_eq!(result, io(message));
    }
}

#[test]
fn a_published_snapshot_survives_a_failure_before_publication() {
    let (done, _) = capture_with(CaptureStep::WriteContainer, Outcome::Raised("disk full"));
    assert!(!done.contains(&CaptureStep::LookForTarget));
    assert!(!done.contains(&CaptureStep::SetTargetAside));
    assert!(!done.contains(&CaptureStep::RenameStage { replacing: false }));
}

#[test]
fn a_stage_that_stays_ends_the_capture() {
    let (done, _, result) = drive(start(Tracker::new()), |step| match step {
        CaptureStep::LookForStage => Outcome::Found(true),
        CaptureStep::RemoveStage => Outcome::Raised("in use"),
        _ => replacing(step),
    });
    assert_eq!(after(&done, &CaptureStep::RemoveStage), all_resumed());
    assert!(!done.contains(&CaptureStep::SetTargetAside));
    assert_eq!(result, Err(Failure::Host("in use")));
}

#[test]
fn a_device_that_does_not_resume_leaves_the_others_to_resume() {
    let step = CaptureStep::ResumeDevice { device: 0 };
    let (done, result) = capture_with(step.clone(), failed("stuck"));
    let mut rest = vec![CaptureStep::ResumeDevice { device: 1 }];
    rest.extend(on_vcpus(resume_vcpus(2)));
    assert_eq!(after(&done, &step), rest);
    assert_eq!(result, refused("resume: stuck"));
}

fn resume(vcpu: usize) -> CaptureStep {
    CaptureStep::Vcpu(VcpuStep::Send { vcpu, event: VcpuEvent::Resume })
}

fn resumed(vcpu: usize) -> CaptureStep {
    CaptureStep::Vcpu(VcpuStep::Receive { vcpu, expected: Expected::Resumed })
}

#[test]
fn a_vcpu_that_cannot_be_told_to_resume_leaves_the_others_to_be_told() {
    let (done, result) = capture_with(resume(0), failed("Full"));
    assert_eq!(after(&done, &resume(0)), [resume(1)]);
    assert_eq!(result, io("send Resume: Full"));
    let (done, result) = capture_with(resume(1), failed("Full"));
    assert!(after(&done, &resume(1)).is_empty());
    assert_eq!(result, io("send Resume: Full"));
    let (done, _, result) = drive(start(Tracker::new()), |step| match step {
        CaptureStep::Vcpu(VcpuStep::Send { vcpu, event: VcpuEvent::Resume }) => {
            failed(&format!("Full {vcpu}"))
        }
        _ => well(step),
    });
    assert_eq!(after(&done, &resume(0)), [resume(1)]);
    assert_eq!(result, io("send Resume: Full 0"));
}

#[test]
fn no_answer_is_awaited_behind_one_that_does_not_come() {
    let (done, result) = capture_with(resumed(0), Outcome::Reply(Err(ReceiveError::Timeout)));
    assert!(after(&done, &resumed(0)).is_empty());
    assert_eq!(result, io("vcpu 0: resume recv: timed out waiting on receive operation"));
}

#[test]
fn arming_ends_when_a_vcpu_cannot_be_told_to_resume() {
    for odd in [resume(0), resumed(0)] {
        let (done, _, result) = drive(arm_dirty_tracking(inputs(), Tracker::new()), |step| {
            if *step == odd {
                match step {
                    CaptureStep::Vcpu(VcpuStep::Send { .. }) => failed("Full"),
                    _ => Outcome::Reply(Err(ReceiveError::Disconnected)),
                }
            } else {
                well(step)
            }
        });
        assert!(after(&done, &odd).is_empty());
        assert!(result.is_err());
    }
}

#[test]
fn the_first_failure_is_the_one_reported() {
    let (_, _, result) = drive(start(Tracker::new()), |step| match step {
        CaptureStep::WriteContainer => Outcome::Raised("disk full"),
        CaptureStep::ResumeDevice { .. } => failed("stuck"),
        CaptureStep::Vcpu(VcpuStep::Send { event: VcpuEvent::Resume, .. }) => failed("Full"),
        _ => well(step),
    });
    assert_eq!(result, Err(Failure::Host("disk full")));
}

#[test]
fn vcpus_are_frozen_before_devices_and_devices_before_memory() {
    let (done, _, _) = drive(start(Tracker::new()), well);
    let at = |step: CaptureStep| done.iter().position(|s| *s == step).unwrap();
    let frozen = at(CaptureStep::Vcpu(VcpuStep::Receive { vcpu: 1, expected: Expected::Paused }));
    assert!(frozen < at(CaptureStep::PauseDevice { device: 0 }));
    assert!(at(CaptureStep::SerializeDevice { device: 1 }) < at(CaptureStep::TakeDirtyBlocks));
    let image = at(CaptureStep::WriteImage { source: ImageSource::Sparse });
    let rename = CaptureStep::RenameStage { replacing: false };
    assert!(image < at(rename.clone()));
    assert!(at(rename) < at(CaptureStep::ResumeDevice { device: 0 }));
}
