use vm_snapshot::inputs::CaptureInputs;
use vm_snapshot::ram::{RamExtent, RamLayout};
use vm_snapshot::sections::{
    assemble, meta_section, staging_dir, virtio_section, MetaSection, Payload, Recorded, SectionId,
    VirtioMmioSection,
};

type Machine = Recorded<u16, &'static str, char, String>;

fn inputs() -> CaptureInputs {
    CaptureInputs {
        vcpu_count: 2,
        vcpu_ids: vec![1, 2],
        virtio_bases: vec![0xa000, 0xb000],
        has_irqchip: true,
        has_gic: true,
        nested_enabled: true,
    }
}

fn devices() -> Vec<VirtioMmioSection<char, String>> {
    vec![
        virtio_section(&inputs(), 0, 2, 'x', Some("disk".to_string())),
        virtio_section(&inputs(), 1, 5, 'y', None),
    ]
}

fn meta() -> MetaSection {
    meta_section(&inputs(), RamLayout { regions: vec![] }, &devices(), 77)
}

fn recorded(gic: Option<u16>, hvf_gic: Option<Vec<u8>>) -> Machine {
    Recorded {
        vcpu_states: vec![vec![1, 1], vec![2]],
        device: None,
        virtio: devices(),
        hvf_gic,
        gic,
        vcpu_list: Some("pending"),
        ram: None,
        counter: 77,
    }
}

#[test]
fn a_virtio_section_has_the_base_of_its_device() {
    assert_eq!(
        virtio_section(&inputs(), 1, 5, 'y', None::<String>),
        VirtioMmioSection { mmio_base: 0xb000, device_type: 5, transport: 'y', device: None }
    );
}

#[test]
fn the_summary_lists_the_bases_in_order() {
    assert_eq!(
        meta_section(&inputs(), RamLayout { regions: vec![] }, &devices(), 77),
        MetaSection {
            ram: RamLayout { regions: vec![] },
            virtio_bases: vec![0xa000, 0xb000],
            vcpu_count: 2,
            nested_enabled: true,
            capture_mach_time: 77,
        }
    );
}

#[test]
fn sections_come_in_order() {
    let machine = recorded(Some(3), Some(vec![9]));
    let meta = meta();
    let container = assemble(RamExtent { total_ram: 0x3000, ram_base: 0x1000 }, &meta, &machine);
    assert_eq!(container.total_ram, 0x3000);
    assert_eq!(container.ram_base, 0x1000);
    assert_eq!(container.vcpu_count, 2);
    let names: Vec<(SectionId, u32)> = container.sections.iter().map(|s| (s.id, s.index)).collect();
    assert_eq!(
        names,
        vec![
            (SectionId::Meta, 0),
            (SectionId::Vcpu, 0),
            (SectionId::Vcpu, 1),
            (SectionId::GicDist, 0),
            (SectionId::HvfGic, 0),
            (SectionId::GicVcpu, 0),
            (SectionId::VirtioMmio, 0),
            (SectionId::VirtioMmio, 1),
        ]
    );
}

#[test]
fn absent_interrupt_state_has_no_section() {
    let machine = recorded(None, None);
    let meta = meta();
    let container = assemble(RamExtent { total_ram: 0, ram_base: 0 }, &meta, &machine);
    let ids: Vec<SectionId> = container.sections.iter().map(|s| s.id).collect();
    assert_eq!(
        ids,
        vec![
            SectionId::Meta,
            SectionId::Vcpu,
            SectionId::Vcpu,
            SectionId::GicVcpu,
            SectionId::VirtioMmio,
            SectionId::VirtioMmio,
        ]
    );
}

#[test]
fn each_section_is_found_under_its_name() {
    let machine = recorded(Some(3), Some(vec![9]));
    let meta = meta();
    let container = assemble(RamExtent { total_ram: 0, ram_base: 0 }, &meta, &machine);
    let find = |id: SectionId, index: u32| {
        let mut found = container.sections.iter().filter(|s| s.id == id && s.index == index);
        let payload = found.next().map(|s| &s.payload);
        assert!(found.next().is_none());
        payload
    };
    assert!(matches!(find(SectionId::Meta, 0), Some(Payload::Meta(m)) if *m == &meta));
    assert!(matches!(find(SectionId::Vcpu, 0), Some(Payload::Raw(state)) if **state == [1, 1]));
    assert!(matches!(find(SectionId::Vcpu, 1), Some(Payload::Raw(state)) if **state == [2]));
    assert!(find(SectionId::Vcpu, 2).is_none());
    assert!(matches!(find(SectionId::GicDist, 0), Some(Payload::Distributor(3))));
    assert!(matches!(find(SectionId::HvfGic, 0), Some(Payload::Raw(state)) if **state == [9]));
    assert!(matches!(find(SectionId::GicVcpu, 0), Some(Payload::Pending(&"pending"))));
    for i in 0..2u32 {
        let wanted = &machine.virtio[i as usize];
        assert!(matches!(
            find(SectionId::VirtioMmio, i),
            Some(Payload::Virtio(section)) if *section == wanted
        ));
        assert_eq!(meta.virtio_bases[i as usize], wanted.mmio_base);
    }
    assert!(find(SectionId::VirtioMmio, 2).is_none());
}

#[test]
fn the_stage_is_named_after_the_target_and_the_process() {
    assert_eq!(staging_dir(None, Some("base"), 4711).name, ".base.tmp.4711");
    assert_eq!(staging_dir(None, None, 0).name, ".snapshot.tmp.0");
    assert_ne!(staging_dir(None, Some("a"), 1), staging_dir(None, Some("b"), 1));
    assert_ne!(staging_dir(None, Some("a"), 1), staging_dir(None, Some("a"), 11));
    assert_ne!(staging_dir(None, Some("a.tmp.1"), 1), staging_dir(None, Some("a"), 1));
}

#[test]
fn the_stage_stands_beside_the_target() {
    let parent = Some(b"/var/vm".to_vec());
    let stage = staging_dir(parent.clone(), Some("base"), 7);
    assert_eq!(stage.parent, parent);
    assert_ne!(stage.name, "base");
    assert_eq!(staging_dir(None, Some("base"), 7).parent, None);
}
