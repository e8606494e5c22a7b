//! That a restore gives back what a capture took.
use crate::capture::{CaptureRun, CaptureState, Outcome};
use crate::capture_laws;
use crate::host::Host;
use crate::inputs::CaptureInputs;
use crate::ram::RamExtent;
use crate::restore;
use crate::restore::RestoreState;
use crate::restore_laws;
use crate::section_laws;
use crate::sections;
use crate::sections::{Container, MetaSection, Payload, SectionId};
use crate::vcpu::VcpuResponse;
use vstd::prelude::*;

verus! {

/// The capture is about to write the state file with this top-level section.
pub open spec fn about_to_write<H: Host>(c: CaptureState<H>, meta: &MetaSection) -> bool {
    &&& c.valid()
    &&& !c.finished()
    &&& c.task is Capture
    &&& c.pending[0] is WriteContainer
    &&& meta.virtio_bases@ == sections::bases_of(c.recorded().virtio)
    &&& meta.vcpu_count == c.inputs.vcpu_count as u32
    &&& meta.nested_enabled == c.inputs.nested_enabled
    &&& meta.capture_mach_time == c.recorded().counter
    &&& section_laws::countable(c.recorded())
}

/// The restore has read the state file that the capture wrote.
pub open spec fn reads_back<H: Host, E>(
    c: CaptureState<H>,
    meta: &MetaSection,
    s: RestoreState<E>,
) -> bool {
    &&& restore_laws::meta_of(s) == *meta
    &&& restore_laws::reads_registers(s, sections::section_list(meta, c.recorded()))
    &&& restore_laws::reads_devices(s, sections::section_list(meta, c.recorded()))
}

/// Each vCPU is given the registers that the vCPU at its position reported.
pub proof fn vcpus_come_back<H: Host, E>(
    c: CaptureState<H>,
    meta: &MetaSection,
    s: RestoreState<E>,
    vcpu: int,
)
    requires
        about_to_write(c, meta),
        reads_back(c, meta, s),
        s.valid(),
        restore_laws::got_past(s, 3),
        0 <= vcpu < s.inputs.vcpu_count,
        vcpu < c.inputs.vcpu_count,
    ensures
        exists|k: int| #[trigger]
            restore_laws::given_registers(s, vcpu, c.recorded().vcpu_states[vcpu], k),
        c.history[c.inputs.vcpu_count + c.inputs.vcpu_ids@.len() + vcpu].outcome == Outcome::<
            H,
        >::Reply(Ok(VcpuResponse::Paused(c.recorded().vcpu_states[vcpu]))),
{
    capture_laws::captured_while_frozen(c);
    restore_laws::captured_registers_come_back(meta, c.recorded(), s, vcpu);
}

/// The device at the base address of a captured device, wherever that stands among the
/// devices of the machine, is given the section with the transport and the state that
/// the captured device gave.
pub proof fn devices_come_back<H: Host, E>(
    c: CaptureState<H>,
    meta: &MetaSection,
    s: RestoreState<E>,
    i: int,
)
    requires
        about_to_write(c, meta),
        reads_back(c, meta, s),
        s.valid(),
        restore_laws::got_past(s, 4),
        0 <= i < c.inputs.virtio_bases@.len(),
    ensures
        c.keeps_device(i),
        section_laws::lookup(
            sections::section_list(meta, c.recorded()),
            SectionId::VirtioMmio,
            i as u32,
        ) == Some(
            Payload::<H::Distributor, H::Pending, H::Transport, H::Device>::Virtio(
                &c.recorded().virtio[i],
            ),
        ),
        exists|device: usize, k: int|
            s.inputs.virtio_bases@[device as int] == c.inputs.virtio_bases@[i]
                && #[trigger] restore_laws::section_restored(s, i, device, true, k),
{
    capture_laws::sections_are_what_devices_gave(c);
    assert(c.keeps_device(i));
    restore_laws::captured_devices_come_back(meta, c.recorded(), s, i);
}

/// The virtual timers of all vCPUs are moved on by as much as the counter has moved from
/// the capture to the one time that the restore reads it.
pub proof fn timers_come_back<H: Host, E>(
    c: CaptureState<H>,
    meta: &MetaSection,
    s: RestoreState<E>,
)
    requires
        about_to_write(c, meta),
        reads_back(c, meta, s),
        s.valid(),
        restore_laws::got_past(s, 5),
    ensures
        restore_laws::have_timers(s),
        restore_laws::meta_of(s).capture_mach_time == c.recorded().counter,
{
    restore_laws::timers_are_rebased(s);
}

/// What is recorded of the counter is what was read last.
pub proof fn counter_is_recorded<H: Host>(c: CaptureState<H>)
    requires
        c.history.len() > 0,
        c.history.last().step is ReadClock,
        c.history.last().outcome is Clock,
    ensures
        c.recorded().counter == c.history.last().outcome->Clock_0,
{
}

/// The summary that a capture writes is accepted by a restore into a machine of the same
/// configuration, and into no other. It has the layout of the image, the base addresses of the
/// devices and the counter that were recorded.
pub proof fn captured_summaries_are_accepted<H: Host>(
    run: &CaptureRun<H>,
    meta: MetaSection,
    machine: CaptureInputs,
)
    requires
        call_ensures(CaptureRun::<H>::meta, (run,), Some(meta)),
    ensures
        restore::mismatch(machine, meta) is None <==> machine.vcpu_count as u32
            == run@.inputs.vcpu_count as u32 && machine.nested_enabled
            == run@.inputs.nested_enabled,
        run@.recorded().ram matches Some(ram) && meta.ram.regions@ == ram.regions@,
        meta.virtio_bases@.len() == run@.recorded().virtio.len(),
        forall|i: int|
            0 <= i < meta.virtio_bases@.len() ==> #[trigger] meta.virtio_bases@[i]
                == run@.recorded().virtio[i].mmio_base,
        meta.capture_mach_time == run@.recorded().counter,
{
}

/// There is a summary exactly if the image is written.
pub proof fn captures_have_a_summary<H: Host>(run: &CaptureRun<H>, meta: Option<MetaSection>)
    requires
        call_ensures(CaptureRun::<H>::meta, (run,), meta),
    ensures
        meta is Some <==> run@.recorded().ram is Some,
{
}

/// The state file that a capture writes holds, under their names, what was recorded.
pub proof fn state_files_hold_what_was_recorded<'a, H: Host>(
    run: &'a CaptureRun<H>,
    extent: RamExtent,
    meta: &'a MetaSection,
    container: Container<'a, H::Distributor, H::Pending, H::Transport, H::Device>,
)
    requires
        call_ensures(CaptureRun::<H>::container, (run, extent, meta), container),
        section_laws::countable(run@.recorded()),
    ensures
        container.total_ram == extent.total_ram,
        container.ram_base == extent.ram_base,
        container.vcpu_count == meta.vcpu_count,
        section_laws::lookup(container.sections@, SectionId::Meta, 0) == Some(
            Payload::<H::Distributor, H::Pending, H::Transport, H::Device>::Meta(meta),
        ),
        forall|i: u32| #[trigger]
            section_laws::lookup(container.sections@, SectionId::Vcpu, i) == if i
                < run@.recorded().vcpu_states.len() {
                Some(
                    Payload::<H::Distributor, H::Pending, H::Transport, H::Device>::Raw(
                        &run@.recorded().vcpu_states[i as int],
                    ),
                )
            } else {
                None
            },
{
    section_laws::sections_read_back(meta, run@.recorded());
}

} // verus!
