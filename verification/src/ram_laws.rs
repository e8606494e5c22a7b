//! What the memory image of a snapshot keeps of guest memory.
use crate::guest_memory;
use crate::ram;
use crate::ram::{DirtyBlock, ImagePlan, Patch, RamExtent, RamRegion, RegionMapping};
use vm_memory::GuestMemoryMmap;
use vstd::prelude::*;

verus! {

/// A file with `bytes` written at `offset`. It grows to hold them, with zeros between what
/// it held and what is written.
pub open spec fn write_at(image: Seq<u8>, offset: int, bytes: Seq<u8>) -> Seq<u8> {
    let end = offset + bytes.len();
    Seq::new(
        if bytes.len() > 0 && end > image.len() {
            end as nat
        } else {
            image.len()
        },
        |i: int|
            if offset <= i < end {
                bytes[i - offset]
            } else {
                byte_at(image, i)
            },
    )
}

/// The byte of a file at `offset`, zero beyond its end.
pub open spec fn byte_at(image: Seq<u8>, offset: int) -> u8 {
    if 0 <= offset < image.len() {
        image[offset]
    } else {
        0
    }
}

/// `size` bytes of `memory` from `addr` on.
pub open spec fn memory_bytes(memory: spec_fn(int) -> u8, addr: int, size: nat) -> Seq<u8> {
    Seq::new(size, |i: int| memory(addr + i))
}

/// `image` with the patches made in order, each from `memory`.
pub open spec fn patched(image: Seq<u8>, patches: Seq<Patch>, memory: spec_fn(int) -> u8) -> Seq<u8>
    decreases patches.len(),
{
    if patches.len() == 0 {
        image
    } else {
        let patch = patches.last();
        write_at(
            patched(image, patches.drop_last(), memory),
            patch.file_offset as int,
            memory_bytes(memory, patch.guest_addr as int, patch.size as nat),
        )
    }
}

/// The image is as long as the ranges are together, and holds every byte of
/// `memory` where the layout says.
pub open spec fn holds_memory(
    ranges: Seq<(u64, u64)>,
    image: Seq<u8>,
    memory: spec_fn(int) -> u8,
) -> bool {
    &&& image.len() == ram::total_size(ranges)
    &&& forall|addr: int|
        #[trigger] guest_memory::covered(ranges, addr) ==> image[ram::image_offset(
            ram::layout_of(ranges),
            addr,
        )->0] == memory(addr)
}

/// The `i`-th mapping is the first that holds `addr`.
pub open spec fn first_mapping(mappings: Seq<RegionMapping>, addr: int, i: int) -> bool {
    &&& 0 <= i < mappings.len()
    &&& mappings[i].guest_addr <= addr < mappings[i].guest_addr + mappings[i].size
    &&& forall|j: int|
        0 <= j < i ==> !((#[trigger] mappings[j]).guest_addr <= addr < mappings[j].guest_addr
            + mappings[j].size)
}

/// What stands at a guest address once the mappings of `image` are made, and
/// before the guest writes there.
pub open spec fn mapped_byte(
    mappings: Seq<RegionMapping>,
    image: Seq<u8>,
    addr: int,
) -> Option<u8> {
    if exists|i: int| first_mapping(mappings, addr, i) {
        let i = choose|i: int| first_mapping(mappings, addr, i);
        Some(image[mappings[i].file_offset + (addr - mappings[i].guest_addr)])
    } else {
        None
    }
}

/// An address that a range holds stands in the image where that range stands,
/// as far from its start.
pub proof fn offset_in_range(ranges: Seq<(u64, u64)>, addr: int, i: int)
    requires
        guest_memory::in_order(ranges),
        guest_memory::range_holds(ranges, i, addr),
    ensures
        ram::image_offset(ram::layout_of(ranges), addr) == Some(
            ram::total_size(ranges.take(i)) + (addr - ranges[i].0),
        ),
        ram::total_size(ranges.take(i)) + ranges[i].1 <= ram::total_size(ranges),
{
    let regions = ram::layout_of(ranges);
    ram::lemma_total_size(ranges);
    ram::lemma_total_size_grows(ranges, i);
    assert forall|j: int| 0 <= j < regions.len() && j != i implies !(#[trigger] regions[j]).holds(
        addr,
    ) by {
        if j < i {
            assert(ranges[j].0 + ranges[j].1 <= ranges[i].0);
        } else {
            assert(ranges[i].0 + ranges[i].1 <= ranges[j].0);
        }
    }
    assert(regions[i].holds(addr));
    assert(ram::first_holder(regions, addr, i));
    let k = choose|k: int| ram::first_holder(regions, addr, k);
    assert(ram::first_holder(regions, addr, k));
    assert(k == i);
}

/// The image has a place for exactly the addresses that the memory has, and that
/// place lies within the image.
pub proof fn image_has_every_address(ranges: Seq<(u64, u64)>, addr: int)
    requires
        guest_memory::in_order(ranges),
    ensures
        match ram::image_offset(ram::layout_of(ranges), addr) {
            Some(offset) => guest_memory::covered(ranges, addr) && 0 <= offset < ram::total_size(
                ranges,
            ),
            None => !guest_memory::covered(ranges, addr),
        },
{
    let regions = ram::layout_of(ranges);
    if guest_memory::covered(ranges, addr) {
        let i = choose|i: int| guest_memory::range_holds(ranges, i, addr);
        offset_in_range(ranges, addr, i);
    } else if ram::image_offset(regions, addr) is Some {
        let i = choose|i: int| ram::first_holder(regions, addr, i);
        assert(regions[i].holds(addr));
        assert(guest_memory::range_holds(ranges, i, addr));
    }
}

/// No two addresses share a place in the image.
pub proof fn image_places_are_distinct(ranges: Seq<(u64, u64)>, a: int, b: int)
    requires
        guest_memory::in_order(ranges),
        guest_memory::covered(ranges, a),
        guest_memory::covered(ranges, b),
        ram::image_offset(ram::layout_of(ranges), a) == ram::image_offset(
            ram::layout_of(ranges),
            b,
        ),
    ensures
        a == b,
{
    let i = choose|i: int| guest_memory::range_holds(ranges, i, a);
    let j = choose|j: int| guest_memory::range_holds(ranges, j, b);
    offset_in_range(ranges, a, i);
    offset_in_range(ranges, b, j);
    if i < j {
        lemma_sizes_before(ranges, i, j);
    } else if j < i {
        lemma_sizes_before(ranges, j, i);
    }
}

proof fn lemma_sizes_before(ranges: Seq<(u64, u64)>, i: int, j: int)
    requires
        0 <= i < j <= ranges.len(),
    ensures
        ram::total_size(ranges.take(i)) + ranges[i].1 <= ram::total_size(ranges.take(j)),
{
    let head = ranges.take(j);
    assert(head.take(i) =~= ranges.take(i));
    assert(head[i] == ranges[i]);
    ram::lemma_total_size_grows(head, i);
}

/// Every place in the image is that of some address.
pub proof fn image_has_nothing_else(ranges: Seq<(u64, u64)>, offset: int) -> (addr: int)
    requires
        guest_memory::in_order(ranges),
        0 <= offset < ram::total_size(ranges),
    ensures
        guest_memory::covered(ranges, addr),
        ram::image_offset(ram::layout_of(ranges), addr) == Some(offset),
{
    let i = lemma_range_at(ranges, offset);
    let addr = ranges[i].0 + (offset - ram::total_size(ranges.take(i)));
    assert(guest_memory::range_holds(ranges, i, addr));
    offset_in_range(ranges, addr, i);
    addr
}

proof fn lemma_range_at(ranges: Seq<(u64, u64)>, offset: int) -> (i: int)
    requires
        0 <= offset < ram::total_size(ranges),
    ensures
        0 <= i < ranges.len(),
        ram::total_size(ranges.take(i)) <= offset < ram::total_size(ranges.take(i)) + ranges[i].1,
    decreases ranges.len(),
{
    let before = ranges.drop_last();
    let last = ranges.len() - 1;
    assert(ranges.take(last) =~= before);
    if offset < ram::total_size(before) {
        let i = lemma_range_at(before, offset);
        assert(before.take(i) =~= ranges.take(i));
        i
    } else {
        last
    }
}

/// Addresses that follow each other do so in the image.
pub proof fn image_keeps_neighbours(ranges: Seq<(u64, u64)>, addr: int, size: int)
    requires
        guest_memory::in_order(ranges),
        guest_memory::all_covered(ranges, addr, size + 1),
        0 <= size,
    ensures
        ram::image_offset(ram::layout_of(ranges), addr) is Some,
        ram::image_offset(ram::layout_of(ranges), addr + size) == Some(
            ram::image_offset(ram::layout_of(ranges), addr)->0 + size,
        ),
    decreases size,
{
    assert(guest_memory::covered(ranges, addr));
    image_has_every_address(ranges, addr);
    if size > 0 {
        assert(guest_memory::all_covered(ranges, addr, size));
        image_keeps_neighbours(ranges, addr, size - 1);
        let a = addr + size - 1;
        let b = addr + size;
        assert(guest_memory::covered(ranges, a));
        assert(guest_memory::covered(ranges, b));
        let i = choose|i: int| guest_memory::range_holds(ranges, i, a);
        let j = choose|j: int| guest_memory::range_holds(ranges, j, b);
        offset_in_range(ranges, a, i);
        offset_in_range(ranges, b, j);
        if i != j {
            assert(i < j) by {
                if j < i {
                    assert(ranges[j].0 + ranges[j].1 <= ranges[i].0);
                }
            }
            assert(ranges[i].0 + ranges[i].1 <= ranges[j].0);
            assert(a == ranges[i].0 + ranges[i].1 - 1);
            assert(b == ranges[j].0);
            lemma_nothing_between(ranges, i, j);
        }
    }
}

/// Ranges between two that touch are empty.
proof fn lemma_nothing_between(ranges: Seq<(u64, u64)>, i: int, j: int)
    requires
        guest_memory::in_order(ranges),
        0 <= i < j < ranges.len(),
        ranges[i].0 + ranges[i].1 == ranges[j].0,
    ensures
        ram::total_size(ranges.take(i)) + ranges[i].1 == ram::total_size(ranges.take(j)),
    decreases j - i,
{
    ram::lemma_total_size_grows(ranges, j - 1);
    if j > i + 1 {
        let k = j - 1;
        assert(ranges[i].0 + ranges[i].1 <= ranges[k].0);
        assert(ranges[k].0 + ranges[k].1 <= ranges[j].0);
        assert(ranges[k].1 == 0);
        lemma_nothing_between(ranges, i, k);
    }
}

/// One block patched into the image.
proof fn lemma_patch(
    ranges: Seq<(u64, u64)>,
    image: Seq<u8>,
    block: DirtyBlock,
    offset: int,
    memory: spec_fn(int) -> u8,
    addr: int,
)
    requires
        guest_memory::in_order(ranges),
        ram::image_offset(ram::layout_of(ranges), block.guest_addr as int) == Some(offset),
        guest_memory::all_covered(ranges, block.guest_addr as int, block.size as int),
        guest_memory::covered(ranges, addr),
    ensures
        ({
            let place = ram::image_offset(ram::layout_of(ranges), addr)->0;
            let bytes = memory_bytes(memory, block.guest_addr as int, block.size as nat);
            byte_at(write_at(image, offset, bytes), place) == if block.guest_addr <= addr
                < block.guest_addr + block.size {
                memory(addr)
            } else {
                byte_at(image, place)
            }
        }),
{
    let regions = ram::layout_of(ranges);
    let start = block.guest_addr as int;
    let size = block.size as int;
    image_has_every_address(ranges, addr);
    let place = ram::image_offset(regions, addr)->0;
    if start <= addr < start + size {
        assert(guest_memory::all_covered(ranges, start, addr - start + 1));
        image_keeps_neighbours(ranges, start, addr - start);
        assert(place == offset + (addr - start));
    } else if offset <= place < offset + size {
        let other = start + (place - offset);
        assert(guest_memory::all_covered(ranges, start, other - start + 1));
        assert(guest_memory::covered(ranges, other));
        image_keeps_neighbours(ranges, start, other - start);
        image_places_are_distinct(ranges, addr, other);
        assert(false);
    }
}

/// Whether one of the blocks that are patched in holds `addr`.
pub open spec fn block_holds(ranges: Seq<(u64, u64)>, blocks: Seq<DirtyBlock>, addr: int) -> bool {
    exists|b: int|
        0 <= b < blocks.len() && guest_memory::covered(
            ranges,
            (#[trigger] blocks[b]).guest_addr as int,
        ) && blocks[b].guest_addr <= addr < blocks[b].guest_addr + blocks[b].size
}

/// Every block that starts in the memory can be read.
pub open spec fn blocks_readable(ranges: Seq<(u64, u64)>, blocks: Seq<DirtyBlock>) -> bool {
    forall|b: int|
        0 <= b < blocks.len() && guest_memory::covered(
            ranges,
            (#[trigger] blocks[b]).guest_addr as int,
        ) ==> guest_memory::all_covered(
            ranges,
            blocks[b].guest_addr as int,
            blocks[b].size as int,
        )
}

/// Patching blocks into a file, of whatever length, changes exactly the places of the
/// addresses that a block holds, to what the memory holds there.
pub proof fn patching_copies_blocks(
    ranges: Seq<(u64, u64)>,
    image: Seq<u8>,
    blocks: Seq<DirtyBlock>,
    memory: spec_fn(int) -> u8,
    addr: int,
)
    requires
        guest_memory::in_order(ranges),
        blocks_readable(ranges, blocks),
        guest_memory::covered(ranges, addr),
    ensures
        ({
            let regions = ram::layout_of(ranges);
            let after = patched(image, ram::patches_for(regions, blocks), memory);
            let place = ram::image_offset(regions, addr)->0;
            &&& 0 <= place < ram::total_size(ranges)
            &&& byte_at(after, place) == if block_holds(ranges, blocks, addr) {
                memory(addr)
            } else {
                byte_at(image, place)
            }
        }),
    decreases blocks.len(),
{
    let regions = ram::layout_of(ranges);
    image_has_every_address(ranges, addr);
    let place = ram::image_offset(regions, addr)->0;
    if blocks.len() == 0 {
        assert(ram::patches_for(regions, blocks) =~= Seq::empty());
    } else {
        let before = blocks.drop_last();
        let block = blocks.last();
        assert(forall|b: int| 0 <= b < before.len() ==> before[b] == blocks[b]);
        assert(blocks_readable(ranges, before)) by {
            assert forall|b: int|
                0 <= b < before.len() && guest_memory::covered(
                    ranges,
                    (#[trigger] before[b]).guest_addr as int,
                ) implies guest_memory::all_covered(
                ranges,
                before[b].guest_addr as int,
                before[b].size as int,
            ) by {
                assert(before[b] == blocks[b]);
            }
        }
        patching_copies_blocks(ranges, image, before, memory, addr);
        let so_far = patched(image, ram::patches_for(regions, before), memory);
        assert(blocks[blocks.len() - 1] == block);
        image_has_every_address(ranges, block.guest_addr as int);
        if block_holds(ranges, before, addr) {
            let b = choose|b: int|
                0 <= b < before.len() && guest_memory::covered(
                    ranges,
                    (#[trigger] before[b]).guest_addr as int,
                ) && before[b].guest_addr <= addr < before[b].guest_addr + before[b].size;
            assert(before[b] == blocks[b]);
            assert(block_holds(ranges, blocks, addr));
        }
        if block_holds(ranges, blocks, addr) && !block_holds(ranges, before, addr) {
            let b = choose|b: int|
                0 <= b < blocks.len() && guest_memory::covered(
                    ranges,
                    (#[trigger] blocks[b]).guest_addr as int,
                ) && blocks[b].guest_addr <= addr < blocks[b].guest_addr + blocks[b].size;
            if b < before.len() {
                assert(before[b] == blocks[b]);
            }
        }
        match ram::image_offset(regions, block.guest_addr as int) {
            Some(offset) => {
                ram::lemma_total_size(ranges);
                let patch = Patch {
                    guest_addr: block.guest_addr,
                    size: block.size,
                    file_offset: offset as u64,
                };
                assert(ram::patches_for(regions, blocks) == ram::patches_for(regions, before).push(
                    patch,
                ));
                assert(ram::patches_for(regions, blocks).drop_last() =~= ram::patches_for(
                    regions,
                    before,
                ));
                lemma_patch(ranges, so_far, block, offset, memory, addr);
            },
            None => {
                assert(ram::patches_for(regions, blocks) == ram::patches_for(regions, before));
            },
        }
    }
}

/// An image that held the memory holds it again once the blocks written since
/// are patched in: if the blocks hold every address that changed.
pub proof fn incremental_image_holds_memory(
    ranges: Seq<(u64, u64)>,
    image: Seq<u8>,
    before: spec_fn(int) -> u8,
    after: spec_fn(int) -> u8,
    blocks: Seq<DirtyBlock>,
)
    requires
        guest_memory::in_order(ranges),
        holds_memory(ranges, image, before),
        blocks_readable(ranges, blocks),
        forall|addr: int| #[trigger]
            guest_memory::covered(ranges, addr) && before(addr) != after(addr) ==> block_holds(
                ranges,
                blocks,
                addr,
            ),
    ensures
        holds_memory(
            ranges,
            patched(image, ram::patches_for(ram::layout_of(ranges), blocks), after),
            after,
        ),
{
    let next = patched(image, ram::patches_for(ram::layout_of(ranges), blocks), after);
    patching_leaves_the_rest(ranges, image, blocks, after);
    assert forall|addr: int| #[trigger] guest_memory::covered(ranges, addr) implies next[
    ram::image_offset(ram::layout_of(ranges), addr)->0] == after(addr) by {
        patching_copies_blocks(ranges, image, blocks, after, addr);
    }
}

/// A file that is patched gets as long as the patches reach, if it is not that long
/// already.
proof fn lemma_patched_len(image: Seq<u8>, patches: Seq<Patch>, memory: spec_fn(int) -> u8)
    ensures
        ({
            let after = patched(image, patches, memory);
            &&& after.len() >= image.len()
            &&& forall|k: int|
                0 <= k < patches.len() && (#[trigger] patches[k]).size > 0 ==> after.len()
                    >= patches[k].file_offset + patches[k].size
            &&& after.len() == image.len() || exists|k: int|
                0 <= k < patches.len() && (#[trigger] patches[k]).size > 0 && after.len()
                    == patches[k].file_offset + patches[k].size
        }),
    decreases patches.len(),
{
    if patches.len() > 0 {
        let before = patches.drop_last();
        let last = patches.len() - 1;
        lemma_patched_len(image, before, memory);
        let so_far = patched(image, before, memory);
        let after = patched(image, patches, memory);
        assert forall|k: int| 0 <= k < patches.len() && (#[trigger] patches[k]).size
            > 0 implies after.len() >= patches[k].file_offset + patches[k].size by {
            if k < last {
                assert(before[k] == patches[k]);
            }
        }
        if after.len() == so_far.len() && so_far.len() != image.len() {
            let k = choose|k: int|
                0 <= k < before.len() && (#[trigger] before[k]).size > 0 && so_far.len()
                    == before[k].file_offset + before[k].size;
            assert(patches[k] == before[k]);
        } else if after.len() != so_far.len() {
            assert(patches[last].size > 0);
        }
    }
}

/// Beyond the patches, a file stays as it is.
proof fn lemma_patched_beyond(
    image: Seq<u8>,
    patches: Seq<Patch>,
    memory: spec_fn(int) -> u8,
    end: int,
    offset: int,
)
    requires
        forall|k: int|
            0 <= k < patches.len() ==> (#[trigger] patches[k]).file_offset + patches[k].size <= end,
        end <= offset,
    ensures
        byte_at(patched(image, patches, memory), offset) == byte_at(image, offset),
    decreases patches.len(),
{
    if patches.len() > 0 {
        let before = patches.drop_last();
        assert forall|k: int| 0 <= k < before.len() implies (#[trigger] before[k]).file_offset
            + before[k].size <= end by {
            assert(before[k] == patches[k]);
        }
        lemma_patched_beyond(image, before, memory, end, offset);
        assert(patches[patches.len() - 1].file_offset + patches[patches.len() - 1].size <= end);
    }
}

/// Patching changes nothing beyond the memory, and a file that is as long as the memory,
/// or longer, stays as long as it is.
pub proof fn patching_leaves_the_rest(
    ranges: Seq<(u64, u64)>,
    image: Seq<u8>,
    blocks: Seq<DirtyBlock>,
    memory: spec_fn(int) -> u8,
)
    requires
        guest_memory::in_order(ranges),
        blocks_readable(ranges, blocks),
    ensures
        ({
            let after = patched(image, ram::patches_for(ram::layout_of(ranges), blocks), memory);
            let total = ram::total_size(ranges);
            &&& image.len() <= after.len()
            &&& after.len() <= if image.len() < total {
                total
            } else {
                image.len()
            }
            &&& forall|offset: int|
                total <= offset < image.len() ==> #[trigger] after[offset] == image[offset]
        }),
{
    let patches = ram::patches_for(ram::layout_of(ranges), blocks);
    let after = patched(image, patches, memory);
    let total = ram::total_size(ranges) as int;
    assert forall|k: int| 0 <= k < patches.len() implies (#[trigger] patches[k]).file_offset
        + patches[k].size <= total by {
        patches_stay_in_image(ranges, blocks, k);
    }
    lemma_patched_len(image, patches, memory);
    assert forall|offset: int| total <= offset < image.len() implies #[trigger] after[offset]
        == image[offset] by {
        lemma_patched_beyond(image, patches, memory, total, offset);
    }
}

/// A new image, all zeros, holds the memory once the written blocks are patched
/// in: if the blocks hold every address that is not zero.
pub proof fn sparse_image_holds_memory(
    ranges: Seq<(u64, u64)>,
    memory: spec_fn(int) -> u8,
    blocks: Seq<DirtyBlock>,
)
    requires
        guest_memory::in_order(ranges),
        blocks_readable(ranges, blocks),
        forall|addr: int| #[trigger]
            guest_memory::covered(ranges, addr) && memory(addr) != 0 ==> block_holds(
                ranges,
                blocks,
                addr,
            ),
    ensures
        holds_memory(
            ranges,
            patched(
                Seq::new(ram::total_size(ranges), |i: int| 0u8),
                ram::patches_for(ram::layout_of(ranges), blocks),
                memory,
            ),
            memory,
        ),
{
    let image = Seq::new(ram::total_size(ranges), |i: int| 0u8);
    let zero = |addr: int| 0u8;
    assert(holds_memory(ranges, image, zero)) by {
        assert forall|addr: int| #[trigger] guest_memory::covered(ranges, addr) implies image[
        ram::image_offset(ram::layout_of(ranges), addr)->0] == zero(addr) by {
            image_has_every_address(ranges, addr);
        }
    }
    incremental_image_holds_memory(ranges, image, zero, memory, blocks);
}

/// A restore gives back the memory that the image holds: at every address that
/// the memory had, what stood there; and it makes no other address.
pub proof fn restore_gives_memory_back(
    ranges: Seq<(u64, u64)>,
    image: Seq<u8>,
    memory: spec_fn(int) -> u8,
    addr: int,
)
    requires
        guest_memory::in_order(ranges),
        holds_memory(ranges, image, memory),
    ensures
        mapped_byte(ram::mappings_of(ram::layout_of(ranges)), image, addr)
            == if guest_memory::covered(ranges, addr) {
            Some(memory(addr))
        } else {
            None::<u8>
        },
{
    let regions = ram::layout_of(ranges);
    let mappings = ram::mappings_of(regions);
    assert forall|i: int| #[trigger] first_mapping(mappings, addr, i) == ram::first_holder(
        regions,
        addr,
        i,
    ) by {
        if 0 <= i < ranges.len() {
            assert(ranges[i].1 <= usize::MAX);
        }
        assert forall|j: int| 0 <= j < ranges.len() implies (#[trigger] regions[j]).holds(addr) == (
        mappings[j].guest_addr <= addr < mappings[j].guest_addr + mappings[j].size) by {
            assert(ranges[j].1 <= usize::MAX);
        }
        if first_mapping(mappings, addr, i) {
            assert forall|j: int| 0 <= j < i implies !(#[trigger] regions[j]).holds(addr) by {
                assert(!(mappings[j].guest_addr <= addr < mappings[j].guest_addr
                    + mappings[j].size));
            }
            assert(regions[i].holds(addr));
        }
        if ram::first_holder(regions, addr, i) {
            assert forall|j: int| 0 <= j < i implies !((#[trigger] mappings[j]).guest_addr <= addr
                < mappings[j].guest_addr + mappings[j].size) by {
                assert(!regions[j].holds(addr));
            }
            assert(regions[i].holds(addr));
        }
    }
    image_has_every_address(ranges, addr);
    if guest_memory::covered(ranges, addr) {
        let h = choose|i: int| ram::first_holder(regions, addr, i);
        assert(ram::first_holder(regions, addr, h));
        assert(first_mapping(mappings, addr, h));
        let m = choose|i: int| first_mapping(mappings, addr, i);
        assert(first_mapping(mappings, addr, m));
        assert(ram::first_holder(regions, addr, m));
        assert(m == h) by {
            if m < h {
                assert(!regions[m].holds(addr));
            } else if h < m {
                assert(!regions[h].holds(addr));
            }
        }
    } else if exists|i: int| first_mapping(mappings, addr, i) {
        let m = choose|i: int| first_mapping(mappings, addr, i);
        assert(ram::first_holder(regions, addr, m));
    }
}

/// Neighbours in order have no fault.
proof fn lemma_no_order_fault(ranges: Seq<(u64, u64)>)
    requires
        guest_memory::in_order(ranges),
    ensures
        guest_memory::order_fault(ranges) is None,
    decreases ranges.len(),
{
    if ranges.len() >= 2 {
        let before = ranges.drop_last();
        assert(forall|i: int| 0 <= i < before.len() ==> before[i] == ranges[i]);
        assert(guest_memory::in_order(before)) by {
            assert forall|i: int| 0 <= i < before.len() implies (#[trigger] before[i]).0
                + before[i].1 <= u64::MAX && before[i].1 <= usize::MAX by {
                assert(before[i] == ranges[i]);
            }
            assert forall|i: int, j: int| 0 <= i < j < before.len() implies (
            #[trigger] before[i]).0 + before[i].1 <= (#[trigger] before[j]).0 by {
                assert(before[i] == ranges[i] && before[j] == ranges[j]);
            }
        }
        lemma_no_order_fault(before);
        assert(ranges[ranges.len() - 2].0 + ranges[ranges.len() - 2].1 <= ranges[ranges.len()
            - 1].0);
    }
}

/// Start address and length of what the mappings make.
pub open spec fn mapped_ranges(mappings: Seq<RegionMapping>) -> Seq<(u64, u64)> {
    Seq::new(mappings.len(), |i: int| (mappings[i].guest_addr, mappings[i].size as u64))
}

/// A restore puts the same memory together: the mappings make the regions that were
/// captured, none of which ends beyond the address space, and together they are
/// accepted.
pub proof fn restore_rebuilds_regions(ranges: Seq<(u64, u64)>)
    requires
        guest_memory::in_order(ranges),
    ensures
        mapped_ranges(ram::mappings_of(ram::layout_of(ranges))) == ranges,
        forall|i: int|
            0 <= i < ranges.len() ==> (#[trigger] ram::mappings_of(
                ram::layout_of(ranges),
            )[i]).guest_addr + ram::mappings_of(ram::layout_of(ranges))[i].size <= u64::MAX,
        ranges.len() > 0 ==> guest_memory::collect_fault(ranges) is None,
{
    let mappings = ram::mappings_of(ram::layout_of(ranges));
    assert forall|i: int| 0 <= i < ranges.len() implies (#[trigger] mappings[i]).guest_addr
        == ranges[i].0 && mappings[i].size == ranges[i].1 by {
        assert(ranges[i].1 <= usize::MAX);
    }
    assert(mapped_ranges(mappings) =~= ranges);
    lemma_no_order_fault(ranges);
}

/// What is patched in lies within the image, so that its length stays that of the
/// memory.
pub proof fn patches_stay_in_image(ranges: Seq<(u64, u64)>, blocks: Seq<DirtyBlock>, k: int)
    requires
        guest_memory::in_order(ranges),
        blocks_readable(ranges, blocks),
        0 <= k < ram::patches_for(ram::layout_of(ranges), blocks).len(),
    ensures
        ({
            let patch = ram::patches_for(ram::layout_of(ranges), blocks)[k];
            patch.file_offset + patch.size <= ram::total_size(ranges)
        }),
    decreases blocks.len(),
{
    let regions = ram::layout_of(ranges);
    if blocks.len() > 0 {
        let before = blocks.drop_last();
        let block = blocks.last();
        assert(blocks_readable(ranges, before)) by {
            assert forall|b: int|
                0 <= b < before.len() && guest_memory::covered(
                    ranges,
                    (#[trigger] before[b]).guest_addr as int,
                ) implies guest_memory::all_covered(
                ranges,
                before[b].guest_addr as int,
                before[b].size as int,
            ) by {
                assert(before[b] == blocks[b]);
            }
        }
        if k < ram::patches_for(regions, before).len() {
            patches_stay_in_image(ranges, before, k);
        } else {
            let start = block.guest_addr as int;
            assert(blocks[blocks.len() - 1] == block);
            image_has_every_address(ranges, start);
            ram::lemma_total_size(ranges);
            if block.size > 0 {
                let last = start + block.size - 1;
                assert(guest_memory::covered(ranges, last));
                image_keeps_neighbours(ranges, start, block.size - 1);
                image_has_every_address(ranges, last);
            }
        }
    }
}

/// Whether a block holds an address does not depend on the order of the blocks, nor on
/// how often they come.
proof fn lemma_same_blocks(
    ranges: Seq<(u64, u64)>,
    a: Seq<DirtyBlock>,
    b: Seq<DirtyBlock>,
    addr: int,
)
    requires
        forall|block: DirtyBlock| a.contains(block) ==> #[trigger] b.contains(block),
        block_holds(ranges, a, addr),
    ensures
        block_holds(ranges, b, addr),
{
    let i = choose|i: int|
        0 <= i < a.len() && guest_memory::covered(ranges, (#[trigger] a[i]).guest_addr as int)
            && a[i].guest_addr <= addr < a[i].guest_addr + a[i].size;
    assert(a.contains(a[i]));
    assert(b.contains(a[i]));
    let j = b.index_of(a[i]);
    assert(b[j] == a[i]);
}

/// The patch of a block is among the patches of the blocks, and every patch is one of a
/// block.
proof fn lemma_patches(regions: Seq<RamRegion>, blocks: Seq<DirtyBlock>)
    ensures
        forall|i: int|
            0 <= i < blocks.len() && ram::image_offset(
                regions,
                (#[trigger] blocks[i]).guest_addr as int,
            ) is Some ==> ram::patches_for(regions, blocks).contains(
                patch_of(regions, blocks[i]),
            ),
        forall|k: int|
            0 <= k < ram::patches_for(regions, blocks).len() ==> comes_from(
                regions,
                blocks,
                #[trigger] ram::patches_for(regions, blocks)[k],
            ),
    decreases blocks.len(),
{
    if blocks.len() > 0 {
        let before = blocks.drop_last();
        let last = blocks.len() - 1;
        let some = ram::patches_for(regions, before);
        let all = ram::patches_for(regions, blocks);
        lemma_patches(regions, before);
        assert forall|i: int|
            0 <= i < blocks.len() && ram::image_offset(
                regions,
                (#[trigger] blocks[i]).guest_addr as int,
            ) is Some implies all.contains(patch_of(regions, blocks[i])) by {
            if i < last {
                assert(before[i] == blocks[i]);
                assert(some.contains(patch_of(regions, before[i])));
                let k = some.index_of(patch_of(regions, before[i]));
                assert(all[k] == some[k]);
            } else {
                assert(all[all.len() - 1] == patch_of(regions, blocks[i]));
            }
        }
        assert forall|k: int| 0 <= k < all.len() implies comes_from(
            regions,
            blocks,
            #[trigger] all[k],
        ) by {
            if k < some.len() {
                assert(all[k] == some[k]);
                assert(comes_from(regions, before, some[k]));
                let i = choose|i: int|
                    0 <= i < before.len() && ram::image_offset(
                        regions,
                        (#[trigger] before[i]).guest_addr as int,
                    ) is Some && patch_of(regions, before[i]) == some[k];
                assert(blocks[i] == before[i]);
            } else {
                assert(patch_of(regions, blocks[last]) == all[k]);
            }
        }
    }
}

/// How a block that starts in a region is patched in.
spec fn patch_of(regions: Seq<RamRegion>, block: DirtyBlock) -> Patch {
    Patch {
        guest_addr: block.guest_addr,
        size: block.size,
        file_offset: ram::image_offset(regions, block.guest_addr as int)->0 as u64,
    }
}

/// The patch is that of one of the blocks.
spec fn comes_from(regions: Seq<RamRegion>, blocks: Seq<DirtyBlock>, patch: Patch) -> bool {
    exists|i: int|
        0 <= i < blocks.len() && ram::image_offset(
            regions,
            (#[trigger] blocks[i]).guest_addr as int,
        ) is Some && patch_of(regions, blocks[i]) == patch
}

/// More blocks make a file no shorter.
proof fn lemma_same_len(
    regions: Seq<RamRegion>,
    image: Seq<u8>,
    a: Seq<DirtyBlock>,
    b: Seq<DirtyBlock>,
    memory: spec_fn(int) -> u8,
)
    requires
        forall|block: DirtyBlock| a.contains(block) ==> #[trigger] b.contains(block),
    ensures
        patched(image, ram::patches_for(regions, a), memory).len() <= patched(
            image,
            ram::patches_for(regions, b),
            memory,
        ).len(),
{
    let x = ram::patches_for(regions, a);
    let y = ram::patches_for(regions, b);
    lemma_patched_len(image, x, memory);
    lemma_patched_len(image, y, memory);
    lemma_patches(regions, a);
    lemma_patches(regions, b);
    if patched(image, x, memory).len() != image.len() {
        let k = choose|k: int|
            0 <= k < x.len() && (#[trigger] x[k]).size > 0 && patched(image, x, memory).len()
                == x[k].file_offset + x[k].size;
        assert(comes_from(regions, a, x[k]));
        let i = choose|i: int|
            0 <= i < a.len() && ram::image_offset(
                regions,
                (#[trigger] a[i]).guest_addr as int,
            ) is Some && patch_of(regions, a[i]) == x[k];
        assert(a.contains(a[i]));
        assert(b.contains(a[i]));
        let j = b.index_of(a[i]);
        assert(b[j] == a[i]);
        assert(y.contains(patch_of(regions, b[j])));
        let h = y.index_of(patch_of(regions, b[j]));
        assert(y[h] == x[k]);
    }
}

/// A file does not depend on the order in which blocks are patched into it, nor on how
/// often they are, whatever its length.
pub proof fn patching_ignores_order(
    ranges: Seq<(u64, u64)>,
    image: Seq<u8>,
    a: Seq<DirtyBlock>,
    b: Seq<DirtyBlock>,
    memory: spec_fn(int) -> u8,
)
    requires
        guest_memory::in_order(ranges),
        blocks_readable(ranges, a),
        forall|block: DirtyBlock| #[trigger] a.contains(block) <==> #[trigger] b.contains(block),
    ensures
        patched(image, ram::patches_for(ram::layout_of(ranges), a), memory) == patched(
            image,
            ram::patches_for(ram::layout_of(ranges), b),
            memory,
        ),
{
    let regions = ram::layout_of(ranges);
    let x = patched(image, ram::patches_for(regions, a), memory);
    let y = patched(image, ram::patches_for(regions, b), memory);
    assert(blocks_readable(ranges, b)) by {
        assert forall|i: int|
            0 <= i < b.len() && guest_memory::covered(
                ranges,
                (#[trigger] b[i]).guest_addr as int,
            ) implies guest_memory::all_covered(
            ranges,
            b[i].guest_addr as int,
            b[i].size as int,
        ) by {
            assert(b.contains(b[i]));
            assert(a.contains(b[i]));
            let j = a.index_of(b[i]);
            assert(a[j] == b[i]);
        }
    }
    lemma_same_len(regions, image, a, b, memory);
    lemma_same_len(regions, image, b, a, memory);
    patching_leaves_the_rest(ranges, image, a, memory);
    patching_leaves_the_rest(ranges, image, b, memory);
    assert forall|offset: int| 0 <= offset < x.len() implies x[offset] == y[offset] by {
        if offset < ram::total_size(ranges) {
            let addr = image_has_nothing_else(ranges, offset);
            patching_copies_blocks(ranges, image, a, memory, addr);
            patching_copies_blocks(ranges, image, b, memory, addr);
            if block_holds(ranges, a, addr) {
                lemma_same_blocks(ranges, a, b, addr);
            }
            if block_holds(ranges, b, addr) {
                lemma_same_blocks(ranges, b, a, addr);
            }
            assert(byte_at(x, offset) == byte_at(y, offset));
        } else {
            assert(x[offset] == image[offset] && y[offset] == image[offset]);
        }
    }
    assert(x =~= y);
}

/// Patching the same blocks into a file once more changes nothing, whatever its length.
pub proof fn patching_twice_is_patching_once(
    ranges: Seq<(u64, u64)>,
    image: Seq<u8>,
    blocks: Seq<DirtyBlock>,
    memory: spec_fn(int) -> u8,
)
    requires
        guest_memory::in_order(ranges),
        blocks_readable(ranges, blocks),
    ensures
        ({
            let patches = ram::patches_for(ram::layout_of(ranges), blocks);
            patched(patched(image, patches, memory), patches, memory) == patched(
                image,
                patches,
                memory,
            )
        }),
{
    let patches = ram::patches_for(ram::layout_of(ranges), blocks);
    let once = patched(image, patches, memory);
    let twice = patched(once, patches, memory);
    lemma_patched_len(image, patches, memory);
    lemma_patched_len(once, patches, memory);
    patching_leaves_the_rest(ranges, image, blocks, memory);
    patching_leaves_the_rest(ranges, once, blocks, memory);
    assert(twice.len() == once.len());
    assert forall|offset: int| 0 <= offset < once.len() implies twice[offset] == once[offset] by {
        if offset < ram::total_size(ranges) {
            let addr = image_has_nothing_else(ranges, offset);
            patching_copies_blocks(ranges, image, blocks, memory, addr);
            patching_copies_blocks(ranges, once, blocks, memory, addr);
            assert(byte_at(twice, offset) == byte_at(once, offset));
        }
    }
    assert(twice =~= once);
}

/// What is written sparsely and then restored is the same memory: the same regions, in
/// the same layout, and the same byte at every address, if the blocks hold every
/// address that is not zero.
pub proof fn sparse_image_restores_memory(
    ranges: Seq<(u64, u64)>,
    memory: spec_fn(int) -> u8,
    blocks: Seq<DirtyBlock>,
    addr: int,
)
    requires
        guest_memory::in_order(ranges),
        ranges.len() > 0,
        blocks_readable(ranges, blocks),
        forall|a: int| #[trigger]
            guest_memory::covered(ranges, a) && memory(a) != 0 ==> block_holds(ranges, blocks, a),
    ensures
        ({
            let layout = ram::layout_of(ranges);
            let mappings = ram::mappings_of(layout);
            let image = patched(
                Seq::new(ram::total_size(ranges), |i: int| 0u8),
                ram::patches_for(layout, blocks),
                memory,
            );
            &&& mapped_ranges(mappings) == ranges
            &&& guest_memory::collect_fault(mapped_ranges(mappings)) is None
            &&& ram::layout_of(mapped_ranges(mappings)) == layout
            &&& mapped_byte(mappings, image, addr) == if guest_memory::covered(ranges, addr) {
                Some(memory(addr))
            } else {
                None::<u8>
            }
        }),
{
    sparse_image_holds_memory(ranges, memory, blocks);
    restore_rebuilds_regions(ranges);
    let image = patched(
        Seq::new(ram::total_size(ranges), |i: int| 0u8),
        ram::patches_for(ram::layout_of(ranges), blocks),
        memory,
    );
    restore_gives_memory_back(ranges, image, memory, addr);
}

/// Every block is a part of what is cut up, and every address of that lies in a block.
proof fn lemma_chunks(addr: int, size: nat, at: int)
    requires
        0 <= addr,
        addr + size <= u64::MAX,
    ensures
        forall|i: int|
            0 <= i < ram::chunks(addr, size).len() ==> addr <= (#[trigger] ram::chunks(
                addr,
                size,
            )[i]).guest_addr && ram::chunks(addr, size)[i].size > 0 && ram::chunks(addr, size)[
            i].guest_addr + ram::chunks(addr, size)[i].size <= addr + size,
        addr <= at < addr + size ==> exists|i: int|
            0 <= i < ram::chunks(addr, size).len() && (#[trigger] ram::chunks(
                addr,
                size,
            )[i]).guest_addr <= at < ram::chunks(addr, size)[i].guest_addr + ram::chunks(
                addr,
                size,
            )[i].size,
    decreases size,
{
    if size > 0 {
        let part: nat = if size < ram::COPY_BLOCK_SIZE {
            size
        } else {
            ram::COPY_BLOCK_SIZE as nat
        };
        let rest = ram::chunks(addr + part, (size - part) as nat);
        let all = ram::chunks(addr, size);
        lemma_chunks(addr + part, (size - part) as nat, at);
        assert forall|i: int| 0 <= i < all.len() implies addr <= (#[trigger] all[i]).guest_addr
            && all[i].size > 0 && all[i].guest_addr + all[i].size <= addr + size by {
            if i > 0 {
                assert(all[i] == rest[i - 1]);
            }
        }
        if addr <= at < addr + part {
            assert(all[0].guest_addr <= at < all[0].guest_addr + all[0].size);
        } else if addr + part <= at < addr + size {
            let i = choose|i: int|
                0 <= i < rest.len() && (#[trigger] rest[i]).guest_addr <= at < rest[i].guest_addr
                    + rest[i].size;
            assert(all[i + 1] == rest[i]);
        }
    }
}

/// The block is not empty, and lies in the `r`-th range.
pub open spec fn within(ranges: Seq<(u64, u64)>, block: DirtyBlock, r: int) -> bool {
    &&& 0 <= r < ranges.len()
    &&& ranges[r].0 <= block.guest_addr
    &&& block.size > 0
    &&& block.guest_addr + block.size <= ranges[r].0 + ranges[r].1
}

/// The block is not empty, and lies in one of the ranges.
pub open spec fn within_some(ranges: Seq<(u64, u64)>, block: DirtyBlock) -> bool {
    exists|r: int| within(ranges, block, r)
}

proof fn lemma_whole_blocks(ranges: Seq<(u64, u64)>, r: int, at: int)
    requires
        forall|i: int| 0 <= i < ranges.len() ==> (#[trigger] ranges[i]).0 + ranges[i].1 <= u64::MAX,
    ensures
        forall|i: int|
            0 <= i < ram::whole_blocks(ranges).len() ==> within_some(
                ranges,
                #[trigger] ram::whole_blocks(ranges)[i],
            ),
        guest_memory::range_holds(ranges, r, at) ==> exists|i: int|
            0 <= i < ram::whole_blocks(ranges).len() && (#[trigger] ram::whole_blocks(
                ranges,
            )[i]).guest_addr <= at < ram::whole_blocks(ranges)[i].guest_addr + ram::whole_blocks(
                ranges,
            )[i].size,
    decreases ranges.len(),
{
    if ranges.len() > 0 {
        let before = ranges.drop_last();
        let last = ranges.len() - 1;
        let cut = ram::chunks(ranges[last].0 as int, ranges[last].1 as nat);
        let all = ram::whole_blocks(ranges);
        let some = ram::whole_blocks(before);
        assert forall|i: int| 0 <= i < before.len() implies (#[trigger] before[i]).0 + before[i].1
            <= u64::MAX by {
            assert(before[i] == ranges[i]);
        }
        lemma_whole_blocks(before, r, at);
        assert(ranges[last].0 + ranges[last].1 <= u64::MAX);
        lemma_chunks(ranges[last].0 as int, ranges[last].1 as nat, at);
        assert forall|i: int| 0 <= i < all.len() implies within_some(ranges, #[trigger] all[i]) by {
            if i < some.len() {
                assert(all[i] == some[i]);
                assert(within_some(before, some[i]));
                let q = choose|q: int| within(before, some[i], q);
                assert(before[q] == ranges[q]);
                assert(within(ranges, all[i], q));
            } else {
                assert(all[i] == cut[i - some.len()]);
                assert(within(ranges, all[i], last));
            }
        }
        if guest_memory::range_holds(ranges, r, at) {
            if r < last {
                assert(before[r] == ranges[r]);
                assert(guest_memory::range_holds(before, r, at));
                let i = choose|i: int|
                    0 <= i < some.len() && (#[trigger] some[i]).guest_addr <= at
                        < some[i].guest_addr + some[i].size;
                assert(all[i] == some[i]);
            } else {
                let i = choose|i: int|
                    0 <= i < cut.len() && (#[trigger] cut[i]).guest_addr <= at < cut[i].guest_addr
                        + cut[i].size;
                assert(all[some.len() + i] == cut[i]);
            }
        }
    }
}

/// The blocks of all of memory can be read, and hold every address of it.
pub proof fn whole_blocks_hold_memory(ranges: Seq<(u64, u64)>)
    requires
        guest_memory::in_order(ranges),
    ensures
        blocks_readable(ranges, ram::whole_blocks(ranges)),
        forall|addr: int| #[trigger]
            guest_memory::covered(ranges, addr) ==> block_holds(
                ranges,
                ram::whole_blocks(ranges),
                addr,
            ),
{
    let blocks = ram::whole_blocks(ranges);
    assert forall|b: int|
        0 <= b < blocks.len() implies (#[trigger] guest_memory::all_covered(
        ranges,
        blocks[b].guest_addr as int,
        blocks[b].size as int,
    )) && guest_memory::covered(ranges, blocks[b].guest_addr as int) by {
        lemma_whole_blocks(ranges, 0, 0);
        assert(within_some(ranges, blocks[b]));
        let q = choose|q: int| within(ranges, blocks[b], q);
        assert forall|a: int|
            blocks[b].guest_addr <= a < blocks[b].guest_addr
                + blocks[b].size implies #[trigger] guest_memory::covered(ranges, a) by {
            assert(guest_memory::range_holds(ranges, q, a));
        }
        assert(guest_memory::covered(ranges, blocks[b].guest_addr as int));
    }
    assert forall|addr: int| #[trigger] guest_memory::covered(ranges, addr) implies block_holds(
        ranges,
        blocks,
        addr,
    ) by {
        let r = choose|r: int| guest_memory::range_holds(ranges, r, addr);
        lemma_whole_blocks(ranges, r, addr);
        let i = choose|i: int|
            0 <= i < blocks.len() && (#[trigger] blocks[i]).guest_addr <= addr
                < blocks[i].guest_addr + blocks[i].size;
        assert(guest_memory::all_covered(
            ranges,
            blocks[i].guest_addr as int,
            blocks[i].size as int,
        ));
    }
}

/// What is handed out for a patch is what the memory holds: as many bytes as the patch has,
/// each that of its address. So the image that is patched with it is the image that the
/// memory calls for.
pub proof fn patches_take_what_memory_holds(
    mem: &GuestMemoryMmap,
    memory: spec_fn(int) -> u8,
    patch: &Patch,
    bytes: Vec<u8>,
    image: Seq<u8>,
    patches: Seq<Patch>,
)
    requires
        call_ensures(ram::read_dirty_block, (mem, patch), Ok(bytes)),
        guest_memory::stands_still(mem, memory),
        patch.size <= isize::MAX,
    ensures
        bytes@.len() == patch.size,
        forall|i: int|
            0 <= i < patch.size ==> #[trigger] bytes@[i] == memory(patch.guest_addr + i),
        write_at(patched(image, patches, memory), patch.file_offset as int, bytes@) == patched(
            image,
            patches.push(*patch),
            memory,
        ),
{
    guest_memory::reads_give_what_stands_there(
        mem,
        memory,
        patch.guest_addr,
        patch.size as usize,
        bytes,
    );
    assert(bytes@ =~= memory_bytes(memory, patch.guest_addr as int, patch.size as nat));
    assert(patches.push(*patch).drop_last() =~= patches);
}

/// Two reads of the same patch of a memory that stands still give the same bytes, and a
/// longer one starts with a shorter one.
pub proof fn reads_agree(
    mem: &GuestMemoryMmap,
    memory: spec_fn(int) -> u8,
    a: &Patch,
    b: &Patch,
    x: Vec<u8>,
    y: Vec<u8>,
    i: int,
    j: int,
)
    requires
        call_ensures(ram::read_dirty_block, (mem, a), Ok(x)),
        call_ensures(ram::read_dirty_block, (mem, b), Ok(y)),
        guest_memory::stands_still(mem, memory),
        a.size <= isize::MAX,
        b.size <= isize::MAX,
        0 <= i < a.size,
        0 <= j < b.size,
        a.guest_addr + i == b.guest_addr + j,
    ensures
        x@[i] == y@[j],
{
    guest_memory::reads_give_what_stands_there(mem, memory, a.guest_addr, a.size as usize, x);
    guest_memory::reads_give_what_stands_there(mem, memory, b.guest_addr, b.size as usize, y);
}

/// The image holds the regions of the memory one after the other: each as it is, the first
/// at the start, and each next one where the one before it ends.
pub proof fn regions_stand_one_after_the_other(ranges: Seq<(u64, u64)>)
    requires
        ram::total_size(ranges) <= u64::MAX,
    ensures
        ram::layout_of(ranges).len() == ranges.len(),
        forall|i: int|
            0 <= i < ranges.len() ==> (#[trigger] ram::layout_of(ranges)[i]).guest_addr
                == ranges[i].0 && ram::layout_of(ranges)[i].size == ranges[i].1,
        ranges.len() > 0 ==> ram::layout_of(ranges)[0].file_offset == 0,
        forall|i: int, j: int|
            0 <= i < ranges.len() && j == i + 1 && j < ranges.len() ==> (#[trigger] ram::layout_of(
                ranges,
            )[i]).file_offset + ranges[i].1 == (#[trigger] ram::layout_of(ranges)[j]).file_offset,
        ram::total_size(ranges) == if ranges.len() == 0 {
            0
        } else {
            ram::layout_of(ranges).last().file_offset + ranges.last().1
        },
{
    assert(ranges.take(0) =~= Seq::empty());
    assert forall|i: int, j: int|
        0 <= i < ranges.len() && j == i + 1 && j < ranges.len() implies (#[trigger] ram::layout_of(
        ranges,
    )[i]).file_offset + ranges[i].1 == (#[trigger] ram::layout_of(ranges)[j]).file_offset by {
        ram::lemma_total_size_grows(ranges, i);
        ram::lemma_total_size_grows(ranges, j);
    }
    if ranges.len() > 0 {
        assert(ranges.take(ranges.len() - 1) =~= ranges.drop_last());
    }
}

/// The length of ranges grows by the length of each, and does not depend on where they
/// start.
pub proof fn lengths_add_up(ranges: Seq<(u64, u64)>, range: (u64, u64), other: u64)
    ensures
        ram::total_size(Seq::empty()) == 0,
        ram::total_size(ranges.push(range)) == ram::total_size(ranges) + range.1,
        ram::total_size(ranges.push((other, range.1))) == ram::total_size(ranges.push(range)),
{
    assert(ranges.push(range).drop_last() =~= ranges);
    assert(ranges.push((other, range.1)).drop_last() =~= ranges);
}

/// An address stands as far from the start of the first region that holds it in the image
/// as in the memory; an address that no region holds stands nowhere.
pub proof fn addresses_keep_their_distance(regions: Seq<RamRegion>, addr: int, i: int)
    requires
        0 <= i < regions.len(),
        forall|j: int|
            0 <= j < i ==> addr < (#[trigger] regions[j]).guest_addr || regions[j].guest_addr
                + regions[j].size <= addr,
    ensures
        regions[i].guest_addr <= addr < regions[i].guest_addr + regions[i].size
            ==> ram::image_offset(regions, addr) == Some(
            regions[i].file_offset + (addr - regions[i].guest_addr),
        ),
        i == regions.len() - 1 && !(regions[i].guest_addr <= addr < regions[i].guest_addr
            + regions[i].size) ==> ram::image_offset(regions, addr) is None,
{
    assert forall|j: int| 0 <= j < i implies !(#[trigger] regions[j]).holds(addr) by {
        assert(addr < regions[j].guest_addr || regions[j].guest_addr + regions[j].size <= addr);
    }
    if regions[i].guest_addr <= addr < regions[i].guest_addr + regions[i].size {
        assert(regions[i].holds(addr));
        assert(ram::first_holder(regions, addr, i));
        let k = choose|k: int| ram::first_holder(regions, addr, k);
        assert(ram::first_holder(regions, addr, k));
        assert(k == i) by {
            if k < i {
                assert(!regions[k].holds(addr));
            } else if i < k {
                assert(!regions[i].holds(addr));
            }
        }
    } else if i == regions.len() - 1 && ram::image_offset(regions, addr) is Some {
        let k = choose|k: int| ram::first_holder(regions, addr, k);
        assert(ram::first_holder(regions, addr, k));
        assert(regions[k].holds(addr));
        if k < i {
            assert(!regions[k].holds(addr));
        }
    }
}

/// An image without regions holds no address.
pub proof fn no_region_holds_no_address(addr: int)
    ensures
        ram::image_offset(Seq::empty(), addr) is None,
{
    if exists|i: int| ram::first_holder(Seq::<RamRegion>::empty(), addr, i) {
        let i = choose|i: int| ram::first_holder(Seq::<RamRegion>::empty(), addr, i);
        assert(ram::first_holder(Seq::<RamRegion>::empty(), addr, i));
    }
}

/// A new image is exactly as long as its furthest region reaches.
pub proof fn image_ends_with_its_furthest_region(regions: Seq<RamRegion>)
    ensures
        forall|i: int|
            0 <= i < regions.len() ==> (#[trigger] regions[i]).file_offset + regions[i].size
                <= ram::image_end(regions),
        if regions.len() == 0 {
            ram::image_end(regions) == 0
        } else {
            exists|i: int|
                0 <= i < regions.len() && (#[trigger] regions[i]).file_offset + regions[i].size
                    == ram::image_end(regions)
        },
    decreases regions.len(),
{
    if regions.len() > 0 {
        let before = regions.drop_last();
        let last = regions.len() - 1;
        image_ends_with_its_furthest_region(before);
        assert forall|i: int| 0 <= i < regions.len() implies (#[trigger] regions[i]).file_offset
            + regions[i].size <= ram::image_end(regions) by {
            if i < last {
                assert(before[i] == regions[i]);
            }
        }
        if regions[last].file_offset + regions[last].size != ram::image_end(regions) {
            let i = choose|i: int|
                0 <= i < before.len() && (#[trigger] before[i]).file_offset + before[i].size
                    == ram::image_end(before);
            assert(regions[i] == before[i]);
        }
    }
}

/// One more block adds one patch, with its address and its size, at the place of that
/// address; a block that starts where there is no memory adds none. What was to be patched
/// before stays.
pub proof fn each_block_adds_its_patch(
    regions: Seq<RamRegion>,
    blocks: Seq<DirtyBlock>,
    block: DirtyBlock,
)
    ensures
        ram::patches_for(regions, Seq::empty()).len() == 0,
        ({
            let before = ram::patches_for(regions, blocks);
            let after = ram::patches_for(regions, blocks.push(block));
            match ram::image_offset(regions, block.guest_addr as int) {
                Some(offset) => {
                    &&& after.len() == before.len() + 1
                    &&& after.drop_last() == before
                    &&& after.last().guest_addr == block.guest_addr
                    &&& after.last().size == block.size
                    &&& 0 <= offset <= u64::MAX ==> after.last().file_offset == offset
                },
                None => after == before,
            }
        }),
{
    assert(blocks.push(block).drop_last() =~= blocks);
    let before = ram::patches_for(regions, blocks);
    let after = ram::patches_for(regions, blocks.push(block));
    if ram::image_offset(regions, block.guest_addr as int) is Some {
        assert(after.drop_last() =~= before);
    }
}

/// A region is mapped at its address, with its size, from its place in the image.
pub proof fn each_region_is_mapped_as_it_stands(regions: Seq<RamRegion>, i: int)
    requires
        0 <= i < regions.len(),
        regions[i].size <= usize::MAX,
    ensures
        ram::mappings_of(regions).len() == regions.len(),
        ram::mappings_of(regions)[i].guest_addr == regions[i].guest_addr,
        ram::mappings_of(regions)[i].size == regions[i].size,
        ram::mappings_of(regions)[i].file_offset == regions[i].file_offset,
{
}

/// How long these blocks are together.
pub open spec fn blocks_len(blocks: Seq<DirtyBlock>) -> int
    decreases blocks.len(),
{
    if blocks.len() == 0 {
        0
    } else {
        blocks_len(blocks.drop_last()) + blocks.last().size
    }
}

proof fn lemma_blocks_len(a: Seq<DirtyBlock>, b: Seq<DirtyBlock>)
    ensures
        blocks_len(a + b) == blocks_len(a) + blocks_len(b),
    decreases b.len(),
{
    if b.len() == 0 {
        assert(a + b =~= a);
    } else {
        lemma_blocks_len(a, b.drop_last());
        assert((a + b).drop_last() =~= a + b.drop_last());
    }
}

proof fn lemma_chunks_len(addr: int, size: nat)
    ensures
        size <= u64::MAX ==> blocks_len(ram::chunks(addr, size)) == size,
        forall|k: int|
            0 <= k < ram::chunks(addr, size).len() ==> 0 < (#[trigger] ram::chunks(
                addr,
                size,
            )[k]).size <= ram::COPY_BLOCK_SIZE,
    decreases size,
{
    if size > 0 {
        let part: nat = if size < ram::COPY_BLOCK_SIZE {
            size
        } else {
            ram::COPY_BLOCK_SIZE as nat
        };
        let first = seq![DirtyBlock { guest_addr: addr as u64, size: part as u64 }];
        let rest = ram::chunks(addr + part, (size - part) as nat);
        lemma_chunks_len(addr + part, (size - part) as nat);
        lemma_blocks_len(first, rest);
        assert(first.drop_last() =~= Seq::empty());
        assert(blocks_len(first.drop_last()) == 0);
        assert(blocks_len(first) == part);
        assert forall|k: int| 0 <= k < ram::chunks(addr, size).len() implies 0 < (
        #[trigger] ram::chunks(addr, size)[k]).size <= ram::COPY_BLOCK_SIZE by {
            assert(ram::chunks(addr, size) == first + rest);
            if k > 0 {
                assert(rest[k - 1] == ram::chunks(addr, size)[k]);
            }
        }
    }
}

/// Where all of memory is copied, it is copied once, and in blocks that are neither empty nor
/// larger than is copied at a time.
pub proof fn whole_memory_is_copied_in_small_blocks(ranges: Seq<(u64, u64)>)
    ensures
        blocks_len(ram::whole_blocks(ranges)) == ram::total_size(ranges),
        forall|k: int|
            0 <= k < ram::whole_blocks(ranges).len() ==> 0 < (#[trigger] ram::whole_blocks(
                ranges,
            )[k]).size <= ram::COPY_BLOCK_SIZE,
    decreases ranges.len(),
{
    if ranges.len() > 0 {
        let before = ram::whole_blocks(ranges.drop_last());
        let last = ram::chunks(ranges.last().0 as int, ranges.last().1 as nat);
        whole_memory_is_copied_in_small_blocks(ranges.drop_last());
        lemma_chunks_len(ranges.last().0 as int, ranges.last().1 as nat);
        lemma_blocks_len(before, last);
        assert forall|k: int| 0 <= k < ram::whole_blocks(ranges).len() implies 0 < (
        #[trigger] ram::whole_blocks(ranges)[k]).size <= ram::COPY_BLOCK_SIZE by {
            assert(ram::whole_blocks(ranges) == before + last);
            if k < before.len() {
                assert(before[k] == ram::whole_blocks(ranges)[k]);
            } else {
                assert(last[k - before.len()] == ram::whole_blocks(ranges)[k]);
            }
        }
    }
}

/// Ranges make a memory exactly if there are any, and each ends before the next one starts.
pub proof fn memory_is_made_of_ranges_in_order(ranges: Seq<(u64, u64)>)
    ensures
        guest_memory::collect_fault(ranges) is None <==> ranges.len() > 0 && forall|i: int, j: int|
            0 <= i < ranges.len() && j == i + 1 && j < ranges.len() ==> (#[trigger] ranges[i]).0
                <= (#[trigger] ranges[j]).0 && ranges[i].0 + ranges[i].1 <= ranges[j].0,
    decreases ranges.len(),
{
    if ranges.len() >= 2 {
        let before = ranges.drop_last();
        let last = ranges.len() - 1;
        memory_is_made_of_ranges_in_order(before);
        assert(ranges.last() == ranges[last]);
        assert forall|i: int| 0 <= i < before.len() implies #[trigger] before[i] == ranges[i] by {}
        if guest_memory::collect_fault(ranges) is None {
            assert forall|i: int, j: int|
                0 <= i < ranges.len() && j == i + 1 && j < ranges.len() implies (
            #[trigger] ranges[i]).0 <= (#[trigger] ranges[j]).0 && ranges[i].0 + ranges[i].1
                <= ranges[j].0 by {
                if j < last {
                    assert(before[i] == ranges[i] && before[j] == ranges[j]);
                }
            }
        } else if guest_memory::collect_fault(before) is Some {
            let (i, j) = choose|i: int, j: int|
                0 <= i < before.len() && j == i + 1 && j < before.len() && !((
                #[trigger] before[i]).0 <= (#[trigger] before[j]).0 && before[i].0 + before[i].1
                    <= before[j].0);
            assert(before[i] == ranges[i] && before[j] == ranges[j]);
        } else {
            assert(!(ranges[last - 1].0 <= ranges[last].0 && ranges[last - 1].0 + ranges[last
                - 1].1 <= ranges[last].0));
        }
    }
}

/// A read that fails midway tells how many bytes there are before the first that no region
/// holds.
pub proof fn failed_reads_tell_how_far_they_got(ranges: Seq<(u64, u64)>, addr: int, size: nat)
    ensures
        ({
            let run = guest_memory::covered_run(ranges, addr, size);
            &&& run <= size
            &&& guest_memory::all_covered(ranges, addr, run as int)
            &&& run < size ==> !guest_memory::covered(ranges, addr + run)
        }),
    decreases size,
{
    if size > 0 && guest_memory::covered(ranges, addr) {
        failed_reads_tell_how_far_they_got(ranges, addr + 1, (size - 1) as nat);
    }
}

/// The plan for a new image gives one that holds the memory, if what is not zero was written;
/// and its layout is that of the memory.
pub proof fn sparse_plans_hold_memory(
    mem: &GuestMemoryMmap,
    blocks: &Vec<DirtyBlock>,
    plan: ImagePlan,
    memory: spec_fn(int) -> u8,
)
    requires
        call_ensures(ram::write_sparse_pages_img, (mem, blocks), plan),
        guest_memory::in_order(guest_memory::guest_ranges(*mem)),
        blocks_readable(guest_memory::guest_ranges(*mem), blocks@),
        forall|addr: int| #[trigger]
            guest_memory::covered(guest_memory::guest_ranges(*mem), addr) && memory(addr) != 0
                ==> block_holds(guest_memory::guest_ranges(*mem), blocks@, addr),
    ensures
        plan.new_len matches Some(len) && holds_memory(
            guest_memory::guest_ranges(*mem),
            patched(Seq::new(len as nat, |i: int| 0u8), plan.patches@, memory),
            memory,
        ),
        mapped_ranges(ram::mappings_of(plan.layout.regions@)) == guest_memory::guest_ranges(*mem),
{
    sparse_image_holds_memory(guest_memory::guest_ranges(*mem), memory, blocks@);
    restore_rebuilds_regions(guest_memory::guest_ranges(*mem));
}

/// The plan for a later image starts from the one before it, and gives one that holds the
/// memory, if what has changed was written; and its layout is that of the memory.
pub proof fn clone_plans_hold_memory(
    mem: &GuestMemoryMmap,
    blocks: &Vec<DirtyBlock>,
    plan: ImagePlan,
    image: Seq<u8>,
    before: spec_fn(int) -> u8,
    memory: spec_fn(int) -> u8,
)
    requires
        call_ensures(ram::clone_and_patch_dirty_pages_img, (mem, blocks), plan),
        guest_memory::in_order(guest_memory::guest_ranges(*mem)),
        holds_memory(guest_memory::guest_ranges(*mem), image, before),
        blocks_readable(guest_memory::guest_ranges(*mem), blocks@),
        forall|addr: int| #[trigger]
            guest_memory::covered(guest_memory::guest_ranges(*mem), addr) && before(addr) != memory(
                addr,
            ) ==> block_holds(guest_memory::guest_ranges(*mem), blocks@, addr),
    ensures
        plan.new_len is None,
        holds_memory(
            guest_memory::guest_ranges(*mem),
            patched(image, plan.patches@, memory),
            memory,
        ),
        mapped_ranges(ram::mappings_of(plan.layout.regions@)) == guest_memory::guest_ranges(*mem),
{
    incremental_image_holds_memory(
        guest_memory::guest_ranges(*mem),
        image,
        before,
        memory,
        blocks@,
    );
    restore_rebuilds_regions(guest_memory::guest_ranges(*mem));
}

/// The plan for an image of all of memory gives one that holds the memory, whatever was
/// written; and its layout is that of the memory.
pub proof fn whole_plans_hold_memory(
    mem: &GuestMemoryMmap,
    plan: ImagePlan,
    memory: spec_fn(int) -> u8,
)
    requires
        call_ensures(ram::write_whole_pages_img, (mem,), plan),
        guest_memory::in_order(guest_memory::guest_ranges(*mem)),
    ensures
        plan.new_len matches Some(len) && holds_memory(
            guest_memory::guest_ranges(*mem),
            patched(Seq::new(len as nat, |i: int| 0u8), plan.patches@, memory),
            memory,
        ),
        mapped_ranges(ram::mappings_of(plan.layout.regions@)) == guest_memory::guest_ranges(*mem),
{
    let ranges = guest_memory::guest_ranges(*mem);
    whole_blocks_hold_memory(ranges);
    sparse_image_holds_memory(ranges, memory, ram::whole_blocks(ranges));
    restore_rebuilds_regions(ranges);
}

/// Writes are tracked in all of memory, and what is said of its extent is so: the lowest
/// address of a region, and the length of all regions together.
pub proof fn all_of_memory_is_accounted_for(
    mem: &GuestMemoryMmap,
    watched: Vec<(u64, u64)>,
    extent: RamExtent,
    addr: int,
)
    requires
        call_ensures(ram::enable_dirty_tracking, (mem,), watched),
        call_ensures(ram::memory_extent, (mem,), extent),
    ensures
        guest_memory::covered(watched@, addr) <==> guest_memory::covered(
            guest_memory::guest_ranges(*mem),
            addr,
        ),
        guest_memory::covered(watched@, addr) ==> extent.ram_base <= addr,
        watched@.len() > 0 ==> watched@[0].0 == extent.ram_base,
        extent.total_ram == ram::total_size(watched@),
{
    let ranges = watched@;
    if guest_memory::covered(ranges, addr) {
        let i = choose|i: int| guest_memory::range_holds(ranges, i, addr);
        assert(extent.ram_base <= ranges[i].0);
    }
    if ranges.len() > 0 {
        let i = choose|i: int|
            0 <= i < ranges.len() && extent.ram_base == (#[trigger] ranges[i]).0;
        assert(extent.ram_base <= ranges[0].0);
        if 0 < i {
            assert(ranges[0].0 + ranges[0].1 <= ranges[i].0);
        }
    }
}

} // verus!
