//! Guest memory as `vm_memory` holds it: which addresses there are, how a range of
//! them is read, and how a memory is put together from mappings.
use crate::text;
use vm_memory::{
    Address, Bytes, GuestAddress, GuestMemory, GuestMemoryMmap, GuestMemoryRegion, GuestRegionMmap,
    MmapRegion,
};
use vstd::prelude::*;

verus! {

#[verifier::external_type_specification]
#[verifier::external_body]
#[verifier::reject_recursive_types(R)]
pub struct ExGuestRegionCollection<R>(vm_memory::GuestRegionCollection<R>);

#[verifier::external_type_specification]
#[verifier::external_body]
#[verifier::reject_recursive_types(B)]
pub struct ExGuestRegionMmap<B>(vm_memory::GuestRegionMmap<B>);

#[verifier::external_type_specification]
#[verifier::external_body]
#[verifier::reject_recursive_types(B)]
pub struct ExMmapRegion<B>(vm_memory::MmapRegion<B>);

/// The length of a mapping.
pub uninterp spec fn mapping_size(mapping: MmapRegion) -> usize;

/// Start address and length of a region.
pub uninterp spec fn region_range(region: GuestRegionMmap) -> (u64, u64);

/// The regions of a guest memory, in order: start address and length of each.
pub uninterp spec fn guest_ranges(mem: GuestMemoryMmap) -> Seq<(u64, u64)>;

/// Each range ends within the address space, and before the next one starts, and none is
/// longer than what can be mapped.
pub open spec fn in_order(ranges: Seq<(u64, u64)>) -> bool {
    &&& forall|i: int|
        0 <= i < ranges.len() ==> (#[trigger] ranges[i]).0 + ranges[i].1 <= u64::MAX
            && ranges[i].1 <= usize::MAX
    &&& forall|i: int, j: int|
        0 <= i < j < ranges.len() ==> (#[trigger] ranges[i]).0 + ranges[i].1 <= (
        #[trigger] ranges[j]).0
}

/// The `i`-th range holds `addr`.
pub open spec fn range_holds(ranges: Seq<(u64, u64)>, i: int, addr: int) -> bool {
    0 <= i < ranges.len() && ranges[i].0 <= addr < ranges[i].0 + ranges[i].1
}

/// One of the ranges holds `addr`.
pub open spec fn covered(ranges: Seq<(u64, u64)>, addr: int) -> bool {
    exists|i: int| range_holds(ranges, i, addr)
}

/// The ranges hold `size` addresses from `addr` on.
pub open spec fn all_covered(ranges: Seq<(u64, u64)>, addr: int, size: int) -> bool {
    forall|a: int| addr <= a < addr + size ==> #[trigger] covered(ranges, a)
}

/// No range is empty.
pub open spec fn none_empty(ranges: Seq<(u64, u64)>) -> bool {
    forall|i: int| 0 <= i < ranges.len() ==> (#[trigger] ranges[i]).1 > 0
}

/// How many addresses from `addr` on, of `size`, come before the first that no
/// range holds.
pub open spec fn covered_run(ranges: Seq<(u64, u64)>, addr: int, size: nat) -> nat
    decreases size,
{
    if size == 0 || !covered(ranges, addr) {
        0
    } else {
        1 + covered_run(ranges, addr + 1, (size - 1) as nat)
    }
}

/// Why `size` bytes from `addr` on cannot be read.
pub open spec fn read_failure_text(ranges: Seq<(u64, u64)>, addr: u64, size: usize) -> Seq<char> {
    if covered(ranges, addr as int) {
        "PartialBuffer { expected: "@ + text::decimal(size as nat) + ", completed: "@
            + text::decimal(covered_run(ranges, addr as int, size as nat)) + " }"@
    } else {
        "InvalidGuestAddress(GuestAddress("@ + text::decimal(addr as nat) + "))"@
    }
}

/// Start address and length of each of the regions.
pub open spec fn region_ranges(regions: Seq<GuestRegionMmap>) -> Seq<(u64, u64)> {
    Seq::new(regions.len(), |i: int| region_range(regions[i]))
}

/// What is wrong with the first two neighbours that are not in order, if any are
/// not.
pub open spec fn order_fault(ranges: Seq<(u64, u64)>) -> Option<Seq<char>>
    decreases ranges.len(),
{
    if ranges.len() < 2 {
        None
    } else {
        let before = order_fault(ranges.drop_last());
        let prev = ranges[ranges.len() - 2];
        let next = ranges.last();
        if before is Some {
            before
        } else if prev.0 > next.0 {
            Some("UnsortedMemoryRegions"@)
        } else if prev.0 + prev.1 > next.0 {
            Some("MemoryRegionOverlap"@)
        } else {
            None
        }
    }
}

/// Why these ranges do not make a memory, if they do not.
pub open spec fn collect_fault(ranges: Seq<(u64, u64)>) -> Option<Seq<char>> {
    if ranges.len() == 0 {
        Some("NoMemoryRegion"@)
    } else {
        order_fault(ranges)
    }
}

/// `GuestMemory::iter` of a `GuestMemoryMmap`, with `start_addr` and `len` of each
/// region. A region's length is the `usize` that its mapping has, its end is checked
/// against overflow when it is made, and the collection refuses regions that are unsorted
/// or overlap; its list of regions never changes.
#[verifier::external_body]
pub(crate) fn memory_ranges(mem: &GuestMemoryMmap) -> (ranges: Vec<(u64, u64)>)
    ensures
        ranges@ == guest_ranges(*mem),
        in_order(ranges@),
{
    mem.iter().map(|region| (region.start_addr().raw_value(), region.len())).collect()
}

/// `Bytes::read_slice` of a `GuestMemoryMmap`, into a new buffer. It succeeds exactly
/// if every address of the range lies in some region. An error comes as its `Debug`
/// text: which address is missing if it is the first, else how many bytes come before
/// it. What the bytes are is not said: vCPUs and devices write them. Regions of
/// length zero, at whose start the look-up of an address panics, are left out, and
/// so are sizes that no buffer can have.
#[verifier::external_body]
pub(crate) fn read_slice(mem: &GuestMemoryMmap, guest_addr: u64, size: usize) -> (bytes: Result<
    Vec<u8>,
    String,
>)
    requires
        none_empty(guest_ranges(*mem)),
        size <= isize::MAX,
    ensures
        bytes is Ok <==> all_covered(guest_ranges(*mem), guest_addr as int, size as int),
        bytes matches Ok(bytes) ==> bytes@.len() == size,
        bytes matches Err(text) ==> text@ == read_failure_text(
            guest_ranges(*mem),
            guest_addr,
            size,
        ),
{
    let mut buffer = vec![0u8; size];
    match mem.read_slice(&mut buffer, GuestAddress(guest_addr)) {
        Ok(()) => Ok(buffer),
        Err(error) => Err(format!("{error:?}")),
    }
}

/// `bytes` is what a read of `size` bytes of this memory from `guest_addr` on gave. Two
/// reads may give different bytes if the guest runs in between.
pub closed spec fn reads(
    mem: &GuestMemoryMmap,
    guest_addr: u64,
    size: usize,
    bytes: Vec<u8>,
) -> bool {
    call_ensures(read_slice, (mem, guest_addr, size), Ok(bytes))
}

/// The memory stands still and holds `memory`: whatever `Bytes::read_slice` gives of it,
/// wherever and however much, is what stands there.
pub closed spec fn stands_still(mem: &GuestMemoryMmap, memory: spec_fn(int) -> u8) -> bool {
    forall|guest_addr: u64, size: usize, bytes: Vec<u8>| #[trigger]
        call_ensures(read_slice, (mem, guest_addr, size), Ok(bytes)) ==> forall|i: int|
            0 <= i < size ==> #[trigger] bytes@[i] == memory(guest_addr + i)
}

/// What a read of a memory that stands still gives is what stands at those addresses.
pub proof fn reads_give_what_stands_there(
    mem: &GuestMemoryMmap,
    memory: spec_fn(int) -> u8,
    guest_addr: u64,
    size: usize,
    bytes: Vec<u8>,
)
    requires
        stands_still(mem, memory),
        reads(mem, guest_addr, size, bytes),
    ensures
        bytes@.len() == size,
        forall|i: int| 0 <= i < size ==> #[trigger] bytes@[i] == memory(guest_addr + i),
{
}

/// Reads `size` bytes of guest memory from `guest_addr` on.
pub(crate) fn read_bytes(mem: &GuestMemoryMmap, guest_addr: u64, size: usize) -> (bytes: Result<
    Vec<u8>,
    String,
>)
    requires
        none_empty(guest_ranges(*mem)),
        size <= isize::MAX,
    ensures
        bytes is Ok <==> all_covered(guest_ranges(*mem), guest_addr as int, size as int),
        bytes matches Ok(bytes) ==> bytes@.len() == size && reads(mem, guest_addr, size, bytes),
        bytes matches Err(text) ==> text@ == read_failure_text(
            guest_ranges(*mem),
            guest_addr,
            size,
        ),
{
    read_slice(mem, guest_addr, size)
}

/// `MmapRegion::size`: the length of the mapping.
#[verifier::external_body]
pub(crate) fn size_of_mapping(mapping: &MmapRegion) -> (size: usize)
    ensures
        size == mapping_size(*mapping),
{
    mapping.size()
}

/// `GuestRegionMmap::new`: the mapping as the memory from `guest_addr` on. There is
/// none exactly if the end would overflow.
#[verifier::external_body]
pub(crate) fn new_region(mapping: MmapRegion, guest_addr: u64) -> (region: Option<GuestRegionMmap>)
    ensures
        region is Some <==> guest_addr + mapping_size(mapping) <= u64::MAX,
        region matches Some(region) ==> region_range(region) == (
            guest_addr,
            mapping_size(mapping) as u64,
        ),
{
    GuestRegionMmap::new(mapping, GuestAddress(guest_addr))
}

/// `GuestRegionCollection::from_regions`: the regions as one memory. It takes one or
/// more regions, each of which starts no earlier than the one before it starts and
/// ends. An error comes as its `Debug` text, that of the first two neighbours not in
/// order. Regions of length zero, whose last address cannot be computed, are left
/// out.
#[verifier::external_body]
pub(crate) fn collect_regions(regions: Vec<GuestRegionMmap>) -> (mem: Result<
    GuestMemoryMmap,
    String,
>)
    requires
        none_empty(region_ranges(regions@)),
    ensures
        match mem {
            Ok(mem) => collect_fault(region_ranges(regions@)) is None && guest_ranges(mem)
                == region_ranges(regions@),
            Err(text) => collect_fault(region_ranges(regions@)) == Some(text@),
        },
{
    GuestMemoryMmap::from_regions(regions).map_err(|error| format!("{error:?}"))
}

} // verus!
