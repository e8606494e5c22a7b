//! The state sections of a snapshot: what is recorded, under which name, and in
//! which order.
//!
//! The states of devices and of the interrupt controller are opaque here: `T` is
//! that of a virtio transport, `D` that of a device behind it, `G` that of the
//! interrupt distributor and `L` that of the pending interrupts.
use crate::inputs::CaptureInputs;
use crate::ram::{RamExtent, RamLayout};
use crate::text;
use vstd::prelude::*;

verus! {

/// What a section is about. Sections of one kind are told apart by an index.
#[derive(Clone, Copy, Debug, PartialEq, Eq)]
pub enum SectionId {
    Meta,
    /// The registers of a vCPU.
    Vcpu,
    GicDist,
    /// The state that the interrupt controller keeps itself.
    HvfGic,
    GicVcpu,
    VirtioMmio,
}

/// Top-level section: memory layout, and a summary of the machine.
#[derive(Clone, Debug, PartialEq, Eq)]
pub struct MetaSection {
    pub ram: RamLayout,
    /// MMIO base addresses, in registration order. There is one `VirtioMmio`
    /// section per entry, whose index is the position in this list.
    pub virtio_bases: Vec<u64>,
    pub vcpu_count: u32,
    pub nested_enabled: bool,
    /// The virtual counter at capture, for timer re-arm on restore.
    pub capture_mach_time: u64,
}

/// Snapshot of a single virtio device: its transport, and what the device itself
/// reports.
#[derive(Clone, Debug, PartialEq, Eq)]
pub struct VirtioMmioSection<T, D> {
    pub mmio_base: u64,
    pub device_type: u32,
    pub transport: T,
    /// None when the device reports no state of its own. The transport is then
    /// still restored, so that the guest driver sees what it programmed.
    pub device: Option<D>,
}

/// What stands in a section.
#[derive(Debug)]
pub enum Payload<'a, G, L, T, D> {
    Meta(&'a MetaSection),
    Raw(&'a Vec<u8>),
    Distributor(&'a G),
    Pending(&'a L),
    Virtio(&'a VirtioMmioSection<T, D>),
}

/// One section.
#[derive(Debug)]
pub struct Section<'a, G, L, T, D> {
    pub id: SectionId,
    pub index: u32,
    pub payload: Payload<'a, G, L, T, D>,
}

/// The state file of a snapshot: the header's fields, and the sections in order.
#[derive(Debug)]
pub struct Container<'a, G, L, T, D> {
    pub total_ram: u64,
    pub ram_base: u64,
    pub vcpu_count: u32,
    pub sections: Vec<Section<'a, G, L, T, D>>,
}

/// What was recorded of a machine.
#[derive(Debug)]
pub struct Recorded<G, L, T, D> {
    pub vcpu_states: Vec<Vec<u8>>,
    /// The state of the device whose transport is still to be recorded.
    pub device: Option<D>,
    pub virtio: Vec<VirtioMmioSection<T, D>>,
    pub hvf_gic: Option<Vec<u8>>,
    pub gic: Option<G>,
    pub vcpu_list: Option<L>,
    /// The layout of the memory image, once that is written.
    pub ram: Option<RamLayout>,
    /// The virtual counter.
    pub counter: u64,
}

/// A `Recorded` with its lists as sequences.
pub struct RecordedView<G, L, T, D> {
    pub vcpu_states: Seq<Vec<u8>>,
    pub device: Option<D>,
    pub virtio: Seq<VirtioMmioSection<T, D>>,
    pub hvf_gic: Option<Vec<u8>>,
    pub gic: Option<G>,
    pub vcpu_list: Option<L>,
    pub ram: Option<RamLayout>,
    pub counter: u64,
}

impl<G, L, T, D> View for Recorded<G, L, T, D> {
    type V = RecordedView<G, L, T, D>;

    open spec fn view(&self) -> RecordedView<G, L, T, D> {
        RecordedView {
            vcpu_states: self.vcpu_states@,
            device: self.device,
            virtio: self.virtio@,
            hvf_gic: self.hvf_gic,
            gic: self.gic,
            vcpu_list: self.vcpu_list,
            ram: self.ram,
            counter: self.counter,
        }
    }
}

impl<G, L, T, D> RecordedView<G, L, T, D> {
    /// Nothing is recorded.
    pub open spec fn empty() -> Self {
        RecordedView {
            vcpu_states: Seq::empty(),
            device: None,
            virtio: Seq::empty(),
            hvf_gic: None,
            gic: None,
            vcpu_list: None,
            ram: None,
            counter: 0,
        }
    }
}

impl<G, L, T, D> Recorded<G, L, T, D> {
    /// Nothing is recorded.
    pub fn new() -> (recorded: Self)
        ensures
            recorded@ == RecordedView::<G, L, T, D>::empty(),
    {
        let recorded = Recorded {
            vcpu_states: Vec::new(),
            device: None,
            virtio: Vec::new(),
            hvf_gic: None,
            gic: None,
            vcpu_list: None,
            ram: None,
            counter: 0,
        };
        assert(recorded@.vcpu_states =~= Seq::empty());
        assert(recorded@.virtio =~= Seq::empty());
        recorded
    }
}

/// The base addresses of these sections, in order.
pub open spec fn bases_of<T, D>(sections: Seq<VirtioMmioSection<T, D>>) -> Seq<u64> {
    Seq::new(sections.len(), |i: int| sections[i].mmio_base)
}

/// The sections of what was recorded, in order.
pub open spec fn section_list<'a, G, L, T, D>(
    meta: &'a MetaSection,
    recorded: RecordedView<G, L, T, D>,
) -> Seq<Section<'a, G, L, T, D>> {
    seq![Section { id: SectionId::Meta, index: 0, payload: Payload::Meta(meta) }] + Seq::new(
        recorded.vcpu_states.len(),
        |i: int|
            Section {
                id: SectionId::Vcpu,
                index: i as u32,
                payload: Payload::Raw(&recorded.vcpu_states[i]),
            },
    ) + match recorded.gic {
        Some(gic) => seq![
            Section { id: SectionId::GicDist, index: 0, payload: Payload::Distributor(&gic) },
        ],
        None => Seq::empty(),
    } + match recorded.hvf_gic {
        Some(state) => seq![
            Section { id: SectionId::HvfGic, index: 0, payload: Payload::Raw(&state) },
        ],
        None => Seq::empty(),
    } + match recorded.vcpu_list {
        Some(list) => seq![
            Section { id: SectionId::GicVcpu, index: 0, payload: Payload::Pending(&list) },
        ],
        None => Seq::empty(),
    } + Seq::new(
        recorded.virtio.len(),
        |i: int|
            Section {
                id: SectionId::VirtioMmio,
                index: i as u32,
                payload: Payload::Virtio(&recorded.virtio[i]),
            },
    )
}

/// The section of the virtio device at a position of `CaptureInputs::virtio_bases`.
pub fn virtio_section<T, D>(
    inputs: &CaptureInputs,
    position: usize,
    device_type: u32,
    transport: T,
    device: Option<D>,
) -> (section: VirtioMmioSection<T, D>)
    requires
        position < inputs.virtio_bases@.len(),
    ensures
        section.mmio_base == inputs.virtio_bases@[position as int],
        section.device_type == device_type,
        section.transport == transport,
        section.device == device,
{
    VirtioMmioSection { mmio_base: inputs.virtio_bases[position], device_type, transport, device }
}

/// The top-level section of a capture.
pub fn meta_section<T, D>(
    inputs: &CaptureInputs,
    ram: RamLayout,
    virtio: &Vec<VirtioMmioSection<T, D>>,
    counter: u64,
) -> (meta: MetaSection)
    ensures
        meta.ram == ram,
        meta.virtio_bases@ == bases_of(virtio@),
        meta.vcpu_count == inputs.vcpu_count as u32,
        meta.nested_enabled == inputs.nested_enabled,
        meta.capture_mach_time == counter,
{
    let mut virtio_bases: Vec<u64> = Vec::new();
    let mut i: usize = 0;
    while i < virtio.len()
        invariant
            i <= virtio@.len(),
            virtio_bases@ =~= bases_of(virtio@).take(i as int),
        decreases virtio@.len() - i,
    {
        virtio_bases.push(virtio[i].mmio_base);
        i += 1;
    }
    assert(virtio_bases@ =~= bases_of(virtio@));
    MetaSection {
        ram,
        virtio_bases,
        vcpu_count: inputs.vcpu_count as u32,
        nested_enabled: inputs.nested_enabled,
        capture_mach_time: counter,
    }
}

/// The state file of what was recorded of a machine with this much memory.
pub fn assemble<'a, G, L, T, D>(
    extent: RamExtent,
    meta: &'a MetaSection,
    recorded: &'a Recorded<G, L, T, D>,
) -> (container: Container<'a, G, L, T, D>)
    ensures
        container.total_ram == extent.total_ram,
        container.ram_base == extent.ram_base,
        container.vcpu_count == meta.vcpu_count,
        container.sections@ == section_list(meta, recorded@),
{
    let mut sections: Vec<Section<'a, G, L, T, D>> = Vec::new();
    let ghost whole = section_list(meta, recorded@);
    sections.push(Section { id: SectionId::Meta, index: 0, payload: Payload::Meta(meta) });
    let mut i: usize = 0;
    while i < recorded.vcpu_states.len()
        invariant
            i <= recorded.vcpu_states@.len(),
            whole == section_list(meta, recorded@),
            sections@ =~= whole.take(1 + i),
        decreases recorded.vcpu_states@.len() - i,
    {
        sections.push(
            Section {
                id: SectionId::Vcpu,
                index: i as u32,
                payload: Payload::Raw(&recorded.vcpu_states[i]),
            },
        );
        i += 1;
    }
    if let Some(gic) = &recorded.gic {
        sections.push(
            Section { id: SectionId::GicDist, index: 0, payload: Payload::Distributor(gic) },
        );
    }
    if let Some(state) = &recorded.hvf_gic {
        sections.push(Section { id: SectionId::HvfGic, index: 0, payload: Payload::Raw(state) });
    }
    if let Some(list) = &recorded.vcpu_list {
        sections.push(Section { id: SectionId::GicVcpu, index: 0, payload: Payload::Pending(list) });
    }
    let ghost before = sections@;
    assert(before =~= whole.take(before.len() as int));
    i = 0;
    while i < recorded.virtio.len()
        invariant
            i <= recorded.virtio@.len(),
            whole == section_list(meta, recorded@),
            before.len() + recorded.virtio@.len() == whole.len(),
            sections@ =~= whole.take(before.len() + i),
        decreases recorded.virtio@.len() - i,
    {
        sections.push(
            Section {
                id: SectionId::VirtioMmio,
                index: i as u32,
                payload: Payload::Virtio(&recorded.virtio[i]),
            },
        );
        i += 1;
    }
    assert(sections@ =~= whole);
    Container {
        total_ram: extent.total_ram,
        ram_base: extent.ram_base,
        vcpu_count: meta.vcpu_count,
        sections,
    }
}

/// A directory: the directory that it stands in, as a path, if that is given, and its name
/// there.
#[derive(Clone, Debug, PartialEq, Eq)]
pub struct Place {
    pub parent: Option<Vec<u8>>,
    pub name: String,
}

/// A `Place` with its texts as sequences.
pub struct PlaceView {
    pub parent: Option<Seq<u8>>,
    pub name: Seq<char>,
}

impl View for Place {
    type V = PlaceView;

    open spec fn view(&self) -> PlaceView {
        PlaceView { parent: path_bytes(self.parent), name: self.name@ }
    }
}

/// The bytes of a path.
pub open spec fn path_bytes(path: Option<Vec<u8>>) -> Option<Seq<u8>> {
    match path {
        Some(path) => Some(path@),
        None => None,
    }
}

/// The name of the directory in which a snapshot is staged.
pub open spec fn stage_name(name: Option<Seq<char>>, process_id: u32) -> Seq<char> {
    "."@ + (match name {
        Some(name) => name,
        None => "snapshot"@,
    }) + ".tmp."@ + text::decimal(process_id as nat)
}

/// The directory in which a snapshot is staged, for a directory to publish to of this name
/// in `parent`.
pub open spec fn stage_of(
    parent: Option<Seq<u8>>,
    name: Option<Seq<char>>,
    process_id: u32,
) -> PlaceView {
    PlaceView { parent, name: stage_name(name, process_id) }
}

/// The characters of a name.
pub open spec fn characters(name: Option<&str>) -> Option<Seq<char>> {
    match name {
        Some(name) => Some(name@),
        None => None,
    }
}

/// The directory in which a snapshot is staged: in the directory that holds the one to
/// publish to, and named after it and the process. `parent` and `name` are those of the
/// directory to publish to, as far as it has them.
pub fn staging_dir(parent: Option<Vec<u8>>, name: Option<&str>, process_id: u32) -> (stage: Place)
    ensures
        stage@ == stage_of(path_bytes(parent), characters(name), process_id),
{
    let mut stage_name = ".".to_owned();
    match name {
        Some(name) => stage_name.append(name),
        None => stage_name.append("snapshot"),
    }
    stage_name.append(".tmp.");
    text::append_decimal(&mut stage_name, process_id as u64);
    Place { parent, name: stage_name }
}

} // verus!
