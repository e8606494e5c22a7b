//! Where guest memory stands in the memory image of a snapshot.
//!
//! The image holds the regions of the guest one after the other, in order. The
//! first capture writes a sparse image and patches the written blocks in; a later
//! one clones the image before it and patches the blocks written since. A restore
//! maps the image back, each region at its address.
use crate::error::{SnapshotError, SnapshotErrorView};
use crate::guest_memory;
use crate::guest_memory::{collect_regions, memory_ranges, new_region, read_bytes, size_of_mapping};
use crate::text;
use vm_memory::{GuestMemoryMmap, GuestRegionMmap, MmapRegion};
use vstd::prelude::*;

verus! {

/// Description of one guest memory region as preserved in the snapshot.
#[derive(Clone, Copy, Debug, PartialEq, Eq)]
pub struct RamRegion {
    pub guest_addr: u64,
    pub size: u64,
    /// Offset within the memory image.
    pub file_offset: u64,
}

/// The guest's memory layout. The contents live in the memory image.
#[derive(Clone, Debug, PartialEq, Eq)]
pub struct RamLayout {
    pub regions: Vec<RamRegion>,
}

/// A block of guest memory that was written.
#[derive(Clone, Copy, Debug, PartialEq, Eq)]
pub struct DirtyBlock {
    pub guest_addr: u64,
    pub size: u64,
}

/// `size` bytes of guest memory from `guest_addr` on go to `file_offset` in the
/// memory image.
#[derive(Clone, Copy, Debug, PartialEq, Eq)]
pub struct Patch {
    pub guest_addr: u64,
    pub size: u64,
    pub file_offset: u64,
}

/// How a memory image is written.
#[derive(Clone, Debug, PartialEq, Eq)]
pub struct ImagePlan {
    pub layout: RamLayout,
    /// The length that a new image is given; none if an image is cloned.
    pub new_len: Option<u64>,
    /// What is then patched in, in order.
    pub patches: Vec<Patch>,
}

/// `size` bytes from `file_offset` in the memory image on are mapped at
/// `guest_addr`, privately: what the guest writes does not reach the image.
#[derive(Clone, Copy, Debug, PartialEq, Eq)]
pub struct RegionMapping {
    pub guest_addr: u64,
    pub size: usize,
    pub file_offset: u64,
}

/// How much memory a machine has, and where it starts.
#[derive(Clone, Copy, Debug, PartialEq, Eq)]
pub struct RamExtent {
    pub total_ram: u64,
    /// The lowest address of a region; the highest address there is, if there is
    /// no region.
    pub ram_base: u64,
}

impl RamRegion {
    /// The region holds this guest address.
    pub open spec fn holds(self, addr: int) -> bool {
        self.guest_addr <= addr < self.guest_addr + self.size
    }
}

impl RamLayout {
    /// Neither a guest address nor an image offset of a region overflows.
    pub open spec fn addressable(self) -> bool {
        forall|i: int|
            0 <= i < self.regions@.len() ==> (#[trigger] self.regions@[i]).guest_addr
                + self.regions@[i].size <= u64::MAX && self.regions@[i].file_offset
                + self.regions@[i].size <= u64::MAX
    }
}

/// The length of all the ranges together.
pub open spec fn total_size(ranges: Seq<(u64, u64)>) -> nat
    decreases ranges.len(),
{
    if ranges.len() == 0 {
        0
    } else {
        total_size(ranges.drop_last()) + ranges.last().1 as nat
    }
}

/// The regions of the ranges, one after the other in the image.
pub open spec fn layout_of(ranges: Seq<(u64, u64)>) -> Seq<RamRegion> {
    Seq::new(
        ranges.len(),
        |i: int|
            RamRegion {
                guest_addr: ranges[i].0,
                size: ranges[i].1,
                file_offset: total_size(ranges.take(i)) as u64,
            },
    )
}

/// The `i`-th region is the first that holds `addr`.
pub open spec fn first_holder(regions: Seq<RamRegion>, addr: int, i: int) -> bool {
    &&& 0 <= i < regions.len()
    &&& regions[i].holds(addr)
    &&& forall|j: int| 0 <= j < i ==> !(#[trigger] regions[j]).holds(addr)
}

/// Where the byte at a guest address stands in the image.
pub open spec fn image_offset(regions: Seq<RamRegion>, addr: int) -> Option<int> {
    if exists|i: int| first_holder(regions, addr, i) {
        let i = choose|i: int| first_holder(regions, addr, i);
        Some(regions[i].file_offset + (addr - regions[i].guest_addr))
    } else {
        None
    }
}

/// No region before the `i`-th holds `addr`.
pub open spec fn reached(regions: Seq<RamRegion>, addr: int, i: int) -> bool {
    &&& 0 <= i < regions.len()
    &&& forall|j: int| 0 <= j < i ==> !(#[trigger] regions[j]).holds(addr)
}

/// Nothing overflows on the way to the offset of `addr`: not the end of a region
/// that is looked at, and not the offset.
pub open spec fn translatable(regions: Seq<RamRegion>, addr: int) -> bool {
    forall|i: int| #[trigger]
        reached(regions, addr, i) && regions[i].guest_addr <= addr ==> {
            &&& regions[i].guest_addr + regions[i].size <= u64::MAX
            &&& regions[i].holds(addr) ==> regions[i].file_offset + (addr - regions[i].guest_addr)
                <= u64::MAX
        }
}

/// Every address can be translated by a layout that does not overflow.
proof fn lemma_translatable(layout: RamLayout, addr: int)
    requires
        layout.addressable(),
    ensures
        translatable(layout.regions@, addr),
{
    assert forall|i: int| #[trigger]
        reached(layout.regions@, addr, i) && layout.regions@[i].guest_addr <= addr implies {
        &&& layout.regions@[i].guest_addr + layout.regions@[i].size <= u64::MAX
        &&& layout.regions@[i].holds(addr) ==> layout.regions@[i].file_offset + (addr
            - layout.regions@[i].guest_addr) <= u64::MAX
    } by {
        assert(layout.regions@[i].guest_addr + layout.regions@[i].size <= u64::MAX);
    }
}

/// The end of the region that reaches furthest into the image.
pub open spec fn image_end(regions: Seq<RamRegion>) -> int
    decreases regions.len(),
{
    if regions.len() == 0 {
        0
    } else {
        let rest = image_end(regions.drop_last());
        let end = regions.last().file_offset + regions.last().size;
        if rest <= end {
            end
        } else {
            rest
        }
    }
}

/// The patches for these blocks, in order. A block that does not start in a
/// region has none.
pub open spec fn patches_for(regions: Seq<RamRegion>, blocks: Seq<DirtyBlock>) -> Seq<Patch>
    decreases blocks.len(),
{
    if blocks.len() == 0 {
        Seq::empty()
    } else {
        let before = patches_for(regions, blocks.drop_last());
        let block = blocks.last();
        match image_offset(regions, block.guest_addr as int) {
            Some(offset) => before.push(
                Patch {
                    guest_addr: block.guest_addr,
                    size: block.size,
                    file_offset: offset as u64,
                },
            ),
            None => before,
        }
    }
}

/// How much memory is copied at a time where all of it is.
pub const COPY_BLOCK_SIZE: u64 = 0x10_0000;

/// `size` bytes from `addr` on, in blocks that can be copied at a time.
pub open spec fn chunks(addr: int, size: nat) -> Seq<DirtyBlock>
    decreases size,
{
    if size == 0 {
        Seq::empty()
    } else {
        let part: nat = if size < COPY_BLOCK_SIZE {
            size
        } else {
            COPY_BLOCK_SIZE as nat
        };
        seq![DirtyBlock { guest_addr: addr as u64, size: part as u64 }] + chunks(
            addr + part,
            (size - part) as nat,
        )
    }
}

/// All of the ranges, in blocks.
pub open spec fn whole_blocks(ranges: Seq<(u64, u64)>) -> Seq<DirtyBlock>
    decreases ranges.len(),
{
    if ranges.len() == 0 {
        Seq::empty()
    } else {
        whole_blocks(ranges.drop_last()) + chunks(
            ranges.last().0 as int,
            ranges.last().1 as nat,
        )
    }
}

/// The mappings of these regions.
pub open spec fn mappings_of(regions: Seq<RamRegion>) -> Seq<RegionMapping> {
    Seq::new(
        regions.len(),
        |i: int|
            RegionMapping {
                guest_addr: regions[i].guest_addr,
                size: regions[i].size as usize,
                file_offset: regions[i].file_offset,
            },
    )
}

/// Ranges in order together end no later than the last of them does.
pub(crate) proof fn lemma_total_size(ranges: Seq<(u64, u64)>)
    requires
        guest_memory::in_order(ranges),
    ensures
        ranges.len() > 0 ==> total_size(ranges) <= ranges.last().0 + ranges.last().1,
        total_size(ranges) <= u64::MAX,
    decreases ranges.len(),
{
    if ranges.len() > 0 {
        let before = ranges.drop_last();
        assert(guest_memory::in_order(before)) by {
            assert forall|i: int| 0 <= i < before.len() implies (#[trigger] before[i]).0
                + before[i].1 <= u64::MAX by {
                assert(before[i] == ranges[i]);
            }
            assert forall|i: int, j: int| 0 <= i < j < before.len() implies (
            #[trigger] before[i]).0 + before[i].1 <= (#[trigger] before[j]).0 by {
                assert(before[i] == ranges[i] && before[j] == ranges[j]);
            }
        }
        lemma_total_size(before);
        if before.len() > 0 {
            assert(before.last() == ranges[ranges.len() - 2]);
        }
    }
}

/// Fewer ranges are together no longer.
pub(crate) proof fn lemma_total_size_grows(ranges: Seq<(u64, u64)>, i: int)
    requires
        0 <= i <= ranges.len(),
    ensures
        total_size(ranges.take(i)) <= total_size(ranges),
        i < ranges.len() ==> total_size(ranges.take(i)) + ranges[i].1 == total_size(
            ranges.take(i + 1),
        ),
        i < ranges.len() ==> total_size(ranges.take(i)) + ranges[i].1 <= total_size(ranges),
    decreases ranges.len() - i,
{
    if i < ranges.len() {
        assert(ranges.take(i + 1).drop_last() =~= ranges.take(i));
        lemma_total_size_grows(ranges, i + 1);
    } else {
        assert(ranges.take(i) =~= ranges);
    }
}

/// An image that holds ranges one after the other is as long as they are together.
proof fn lemma_image_end(ranges: Seq<(u64, u64)>)
    requires
        total_size(ranges) <= u64::MAX,
    ensures
        image_end(layout_of(ranges)) == total_size(ranges),
    decreases ranges.len(),
{
    if ranges.len() > 0 {
        let before = ranges.drop_last();
        lemma_image_end(before);
        assert(ranges.take(ranges.len() - 1) =~= before);
        assert(layout_of(ranges).drop_last() =~= layout_of(before)) by {
            assert forall|i: int| 0 <= i < before.len() implies #[trigger] layout_of(ranges)[i]
                == layout_of(before)[i] by {
                assert(ranges.take(i) =~= before.take(i));
            }
        }
    }
}

/// The layout of ranges that fit in an image.
pub fn layout_from_ranges(ranges: &Vec<(u64, u64)>) -> (layout: RamLayout)
    requires
        total_size(ranges@) <= u64::MAX,
    ensures
        layout.regions@ == layout_of(ranges@),
{
    let mut regions: Vec<RamRegion> = Vec::new();
    let mut cursor: u64 = 0;
    let mut i: usize = 0;
    while i < ranges.len()
        invariant
            i <= ranges@.len(),
            total_size(ranges@) <= u64::MAX,
            cursor == total_size(ranges@.take(i as int)),
            regions@ =~= layout_of(ranges@).take(i as int),
        decreases ranges@.len() - i,
    {
        proof {
            lemma_total_size_grows(ranges@, i as int);
        }
        regions.push(RamRegion { guest_addr: ranges[i].0, size: ranges[i].1, file_offset: cursor });
        cursor = cursor + ranges[i].1;
        i += 1;
    }
    assert(regions@ =~= layout_of(ranges@));
    RamLayout { regions }
}

/// The layout of the regions of a guest memory.
pub fn layout_from_memory(mem: &GuestMemoryMmap) -> (layout: RamLayout)
    ensures
        layout.regions@ == layout_of(guest_memory::guest_ranges(*mem)),
        layout.addressable(),
        total_size(guest_memory::guest_ranges(*mem)) <= u64::MAX,
{
    let ranges = memory_ranges(mem);
    proof {
        lemma_total_size(ranges@);
    }
    let layout = layout_from_ranges(&ranges);
    assert forall|i: int| 0 <= i < layout.regions@.len() implies (
    #[trigger] layout.regions@[i]).guest_addr + layout.regions@[i].size <= u64::MAX
        && layout.regions@[i].file_offset + layout.regions@[i].size <= u64::MAX by {
        lemma_total_size_grows(ranges@, i);
        assert(ranges@[i].0 + ranges@[i].1 <= u64::MAX);
    }
    layout
}

/// The same layout once more.
pub(crate) fn copy_layout(layout: &RamLayout) -> (copy: RamLayout)
    ensures
        copy.regions@ == layout.regions@,
{
    let mut regions: Vec<RamRegion> = Vec::new();
    let mut i: usize = 0;
    while i < layout.regions.len()
        invariant
            i <= layout.regions@.len(),
            regions@ =~= layout.regions@.take(i as int),
        decreases layout.regions@.len() - i,
    {
        regions.push(layout.regions[i]);
        i += 1;
    }
    assert(regions@ =~= layout.regions@);
    RamLayout { regions }
}

/// Where the byte at a guest address stands in the memory image, if the layout
/// holds that address.
pub fn guest_addr_to_file_offset(layout: &RamLayout, guest_addr: u64) -> (offset: Option<u64>)
    requires
        translatable(layout.regions@, guest_addr as int),
    ensures
        match offset {
            Some(offset) => image_offset(layout.regions@, guest_addr as int) == Some(offset as int)
                && exists|i: int| #[trigger]
                first_holder(layout.regions@, guest_addr as int, i) && offset
                    == layout.regions@[i].file_offset + (guest_addr
                    - layout.regions@[i].guest_addr),
            None => image_offset(layout.regions@, guest_addr as int) is None && forall|i: int|
                0 <= i < layout.regions@.len() ==> !(#[trigger] layout.regions@[i]).holds(
                    guest_addr as int,
                ),
        },
{
    let mut i: usize = 0;
    while i < layout.regions.len()
        invariant
            i <= layout.regions@.len(),
            translatable(layout.regions@, guest_addr as int),
            forall|j: int|
                0 <= j < i ==> !(#[trigger] layout.regions@[j]).holds(guest_addr as int),
        decreases layout.regions@.len() - i,
    {
        let region = layout.regions[i];
        assert(region == layout.regions@[i as int]);
        assert(reached(layout.regions@, guest_addr as int, i as int));
        if guest_addr >= region.guest_addr && guest_addr < region.guest_addr + region.size {
            proof {
                assert(first_holder(layout.regions@, guest_addr as int, i as int));
                let k = choose|k: int| first_holder(layout.regions@, guest_addr as int, k);
                assert(first_holder(layout.regions@, guest_addr as int, k));
                assert(k == i) by {
                    if k < i {
                        assert(!layout.regions@[k].holds(guest_addr as int));
                    } else if i < k {
                        assert(!layout.regions@[i as int].holds(guest_addr as int));
                    }
                }
            }
            return Some(region.file_offset + (guest_addr - region.guest_addr));
        }
        i += 1;
    }
    None
}

/// The length of the image that holds all the regions.
pub fn image_len(layout: &RamLayout) -> (len: u64)
    requires
        forall|i: int|
            0 <= i < layout.regions@.len() ==> (#[trigger] layout.regions@[i]).file_offset
                + layout.regions@[i].size <= u64::MAX,
    ensures
        len == image_end(layout.regions@),
{
    let mut len: u64 = 0;
    let mut i: usize = 0;
    while i < layout.regions.len()
        invariant
            i <= layout.regions@.len(),
            forall|i: int|
            0 <= i < layout.regions@.len() ==> (#[trigger] layout.regions@[i]).file_offset
                + layout.regions@[i].size <= u64::MAX,
            len == image_end(layout.regions@.take(i as int)),
        decreases layout.regions@.len() - i,
    {
        let region = layout.regions[i];
        assert(region == layout.regions@[i as int]);
        let end: u64 = region.file_offset + region.size;
        assert(layout.regions@.take(i + 1).drop_last() =~= layout.regions@.take(i as int));
        if len <= end {
            len = end;
        }
        i += 1;
    }
    assert(layout.regions@.take(i as int) =~= layout.regions@);
    len
}

/// Where in the memory image the written blocks go. Blocks that do not start in a
/// region are left out.
pub fn patch_dirty_blocks(layout: &RamLayout, dirty_blocks: &Vec<DirtyBlock>) -> (patches: Vec<
    Patch,
>)
    requires
        forall|i: int|
            0 <= i < dirty_blocks@.len() ==> translatable(
                layout.regions@,
                (#[trigger] dirty_blocks@[i]).guest_addr as int,
            ),
    ensures
        patches@ == patches_for(layout.regions@, dirty_blocks@),
{
    let mut patches: Vec<Patch> = Vec::new();
    let mut i: usize = 0;
    while i < dirty_blocks.len()
        invariant
            i <= dirty_blocks@.len(),
            forall|i: int|
                0 <= i < dirty_blocks@.len() ==> translatable(
                    layout.regions@,
                    (#[trigger] dirty_blocks@[i]).guest_addr as int,
                ),
            patches@ == patches_for(layout.regions@, dirty_blocks@.take(i as int)),
        decreases dirty_blocks@.len() - i,
    {
        let block = dirty_blocks[i];
        assert(block == dirty_blocks@[i as int]);
        assert(dirty_blocks@.take(i + 1).drop_last() =~= dirty_blocks@.take(i as int));
        assert(dirty_blocks@.take(i + 1).last() == block);
        if let Some(file_offset) = guest_addr_to_file_offset(layout, block.guest_addr) {
            patches.push(Patch { guest_addr: block.guest_addr, size: block.size, file_offset });
        }
        i += 1;
    }
    assert(dirty_blocks@.take(i as int) =~= dirty_blocks@);
    patches
}

/// The error of a block that could not be read for the reason `cause`.
pub open spec fn read_error_view(guest_addr: u64, cause: Seq<char>) -> SnapshotErrorView {
    SnapshotErrorView::Io(
        "read dirty block 0x"@ + text::hexadecimal(guest_addr as nat) + ": "@ + cause,
    )
}

/// The error of a block that could not be read for the reason `cause`.
pub fn read_error(guest_addr: u64, cause: &str) -> (error: SnapshotError)
    ensures
        error@ == read_error_view(guest_addr, cause@),
{
    let mut message = "read dirty block 0x".to_owned();
    text::append_hexadecimal(&mut message, guest_addr);
    message.append(": ");
    message.append(cause);
    SnapshotError::Io(message)
}

/// Whether blocks can be read from this memory: none of its regions is empty.
pub fn is_readable(mem: &GuestMemoryMmap) -> (readable: bool)
    ensures
        readable == guest_memory::none_empty(guest_memory::guest_ranges(*mem)),
{
    let ranges = memory_ranges(mem);
    let mut i: usize = 0;
    while i < ranges.len()
        invariant
            i <= ranges@.len(),
            ranges@ == guest_memory::guest_ranges(*mem),
            forall|j: int| 0 <= j < i ==> (#[trigger] ranges@[j]).1 > 0,
        decreases ranges@.len() - i,
    {
        if ranges[i].1 == 0 {
            assert(!(ranges@[i as int].1 > 0));
            return false;
        }
        i += 1;
    }
    true
}

/// The bytes that a patch takes from guest memory. They can be had exactly if
/// all of them lie in regions of the memory, and are then what a read of the memory, at
/// the address and of the size of the patch, gives.
pub fn read_dirty_block(mem: &GuestMemoryMmap, patch: &Patch) -> (bytes: Result<
    Vec<u8>,
    SnapshotError,
>)
    requires
        guest_memory::none_empty(guest_memory::guest_ranges(*mem)),
        patch.size <= isize::MAX,
    ensures
        bytes is Ok <==> guest_memory::all_covered(
            guest_memory::guest_ranges(*mem),
            patch.guest_addr as int,
            patch.size as int,
        ),
        bytes matches Ok(bytes) ==> bytes@.len() == patch.size && guest_memory::reads(
            mem,
            patch.guest_addr,
            patch.size as usize,
            bytes,
        ),
        bytes matches Err(error) ==> error@ == read_error_view(
            patch.guest_addr,
            guest_memory::read_failure_text(
                guest_memory::guest_ranges(*mem),
                patch.guest_addr,
                patch.size as usize,
            ),
        ),
{
    match read_bytes(mem, patch.guest_addr, patch.size as usize) {
        Ok(bytes) => Ok(bytes),
        Err(cause) => Err(read_error(patch.guest_addr, cause.as_str())),
    }
}

/// How the first memory image is written: all zeros, as long as the memory, with
/// the written blocks patched in. What the guest has not written stays a hole.
pub fn write_sparse_pages_img(mem: &GuestMemoryMmap, dirty_blocks: &Vec<DirtyBlock>) -> (plan:
    ImagePlan)
    ensures
        plan.layout.regions@ == layout_of(guest_memory::guest_ranges(*mem)),
        plan.new_len matches Some(len) && len == total_size(guest_memory::guest_ranges(*mem)),
        plan.patches@ == patches_for(plan.layout.regions@, dirty_blocks@),
{
    let layout = layout_from_memory(mem);
    let len = image_len(&layout);
    proof {
        lemma_image_end(guest_memory::guest_ranges(*mem));
    }
    proof {
        assert forall|i: int| 0 <= i < dirty_blocks@.len() implies translatable(
            layout.regions@,
            (#[trigger] dirty_blocks@[i]).guest_addr as int,
        ) by {
            lemma_translatable(layout, dirty_blocks@[i].guest_addr as int);
        }
    }
    let patches = patch_dirty_blocks(&layout, dirty_blocks);
    ImagePlan { layout, new_len: Some(len), patches }
}

/// How a later memory image is written: a clone of the image before it, with the
/// blocks written since patched in.
pub fn clone_and_patch_dirty_pages_img(
    mem: &GuestMemoryMmap,
    dirty_blocks: &Vec<DirtyBlock>,
) -> (plan: ImagePlan)
    ensures
        plan.layout.regions@ == layout_of(guest_memory::guest_ranges(*mem)),
        plan.new_len is None,
        plan.patches@ == patches_for(plan.layout.regions@, dirty_blocks@),
{
    let layout = layout_from_memory(mem);
    proof {
        assert forall|i: int| 0 <= i < dirty_blocks@.len() implies translatable(
            layout.regions@,
            (#[trigger] dirty_blocks@[i]).guest_addr as int,
        ) by {
            lemma_translatable(layout, dirty_blocks@[i].guest_addr as int);
        }
    }
    let patches = patch_dirty_blocks(&layout, dirty_blocks);
    ImagePlan { layout, new_len: None, patches }
}

/// All of the ranges, in blocks.
pub fn memory_blocks(ranges: &Vec<(u64, u64)>) -> (blocks: Vec<DirtyBlock>)
    requires
        forall|i: int|
            0 <= i < ranges@.len() ==> (#[trigger] ranges@[i]).0 + ranges@[i].1 <= u64::MAX,
    ensures
        blocks@ == whole_blocks(ranges@),
{
    let mut blocks: Vec<DirtyBlock> = Vec::new();
    let mut i: usize = 0;
    while i < ranges.len()
        invariant
            i <= ranges@.len(),
            forall|i: int|
                0 <= i < ranges@.len() ==> (#[trigger] ranges@[i]).0 + ranges@[i].1 <= u64::MAX,
            blocks@ == whole_blocks(ranges@.take(i as int)),
        decreases ranges@.len() - i,
    {
        let (start, size) = ranges[i];
        assert(ranges@[i as int] == (start, size));
        let ghost before = blocks@;
        let mut at: u64 = start;
        let mut left: u64 = size;
        while left > 0
            invariant
                at + left <= u64::MAX,
                blocks@ + chunks(at as int, left as nat) =~= before + chunks(
                    start as int,
                    size as nat,
                ),
            decreases left,
        {
            let part: u64 = if left < COPY_BLOCK_SIZE {
                left
            } else {
                COPY_BLOCK_SIZE
            };
            blocks.push(DirtyBlock { guest_addr: at, size: part });
            at = at + part;
            left = left - part;
        }
        assert(ranges@.take(i + 1).drop_last() =~= ranges@.take(i as int));
        assert(blocks@ =~= before + chunks(start as int, size as nat));
        i += 1;
    }
    assert(ranges@.take(i as int) =~= ranges@);
    blocks
}

/// How a memory image is written that holds all of memory, whatever was written
/// before: all zeros, as long as the memory, with all of it patched in.
pub fn write_whole_pages_img(mem: &GuestMemoryMmap) -> (plan: ImagePlan)
    ensures
        plan.layout.regions@ == layout_of(guest_memory::guest_ranges(*mem)),
        plan.new_len matches Some(len) && len == total_size(guest_memory::guest_ranges(*mem)),
        plan.patches@ == patches_for(
            plan.layout.regions@,
            whole_blocks(guest_memory::guest_ranges(*mem)),
        ),
{
    let blocks = memory_blocks(&memory_ranges(mem));
    write_sparse_pages_img(mem, &blocks)
}

/// What a restore maps where: each region of the layout at its guest address.
pub fn restore_pages_img(layout: &RamLayout) -> (mappings: Vec<RegionMapping>)
    ensures
        mappings@ == mappings_of(layout.regions@),
{
    let mut mappings: Vec<RegionMapping> = Vec::new();
    let mut i: usize = 0;
    while i < layout.regions.len()
        invariant
            i <= layout.regions@.len(),
            mappings@ =~= mappings_of(layout.regions@).take(i as int),
        decreases layout.regions@.len() - i,
    {
        let region = layout.regions[i];
        mappings.push(
            RegionMapping {
                guest_addr: region.guest_addr,
                size: region.size as usize,
                file_offset: region.file_offset,
            },
        );
        i += 1;
    }
    assert(mappings@ =~= mappings_of(layout.regions@));
    mappings
}

/// Whether a mapping can serve as guest memory: it is not empty.
pub fn is_mapped(mapping: &MmapRegion) -> (mapped: bool)
    ensures
        mapped == (guest_memory::mapping_size(*mapping) > 0),
{
    size_of_mapping(mapping) > 0
}

/// The regions of a guest memory that is being put back together.
pub struct RestoredRegions {
    regions: Vec<GuestRegionMmap>,
}

impl View for RestoredRegions {
    type V = Seq<(u64, u64)>;

    closed spec fn view(&self) -> Seq<(u64, u64)> {
        guest_memory::region_ranges(self.regions@)
    }
}

impl RestoredRegions {
    /// No region is empty.
    pub open spec fn wf(self) -> bool {
        guest_memory::none_empty(self@)
    }

    /// No region yet.
    pub fn new() -> (regions: Self)
        ensures
            regions@ == Seq::<(u64, u64)>::empty(),
            regions.wf(),
    {
        let regions = RestoredRegions { regions: Vec::new() };
        assert(regions@ =~= Seq::empty());
        regions
    }

    /// Puts a mapping of the memory image at its guest address.
    pub fn add_region(&mut self, mapping: MmapRegion, guest_addr: u64) -> (added: Result<
        (),
        SnapshotError,
    >)
        requires
            old(self).wf(),
            guest_memory::mapping_size(mapping) > 0,
        ensures
            final(self).wf(),
            match added {
                Ok(()) => {
                    &&& guest_addr + guest_memory::mapping_size(mapping) <= u64::MAX
                    &&& final(self)@ == old(self)@.push(
                        (guest_addr, guest_memory::mapping_size(mapping) as u64),
                    )
                },
                Err(error) => {
                    &&& guest_addr + guest_memory::mapping_size(mapping) > u64::MAX
                    &&& error@ == SnapshotErrorView::Io("invalid guest region"@)
                    &&& final(self)@ == old(self)@
                },
            },
    {
        match new_region(mapping, guest_addr) {
            Some(region) => {
                self.regions.push(region);
                assert(self@ =~= old(self)@.push(
                    (guest_addr, guest_memory::mapping_size(mapping) as u64),
                ));
                assert forall|i: int| 0 <= i < self@.len() implies (#[trigger] self@[i]).1 > 0 by {
                    if i < old(self)@.len() {
                        assert(self@[i] == old(self)@[i]);
                    }
                }
                Ok(())
            },
            None => Err(SnapshotError::Io("invalid guest region".to_owned())),
        }
    }

    /// The memory that the regions make.
    pub fn finish(self) -> (mem: Result<GuestMemoryMmap, SnapshotError>)
        requires
            self.wf(),
        ensures
            match mem {
                Ok(mem) => guest_memory::collect_fault(self@) is None && guest_memory::guest_ranges(
                    mem,
                ) == self@,
                Err(error) => guest_memory::collect_fault(self@) matches Some(text) && error@
                    == SnapshotErrorView::Io(text),
            },
    {
        match collect_regions(self.regions) {
            Ok(mem) => Ok(mem),
            Err(text) => Err(SnapshotError::Io(text)),
        }
    }
}

/// The ranges of guest memory in which writes are to be tracked: all there are.
pub fn enable_dirty_tracking(mem: &GuestMemoryMmap) -> (ranges: Vec<(u64, u64)>)
    ensures
        ranges@ == guest_memory::guest_ranges(*mem),
        guest_memory::in_order(ranges@),
{
    memory_ranges(mem)
}

/// The extent of ranges that fit in an image.
pub fn extent_of_ranges(ranges: &Vec<(u64, u64)>) -> (extent: RamExtent)
    requires
        total_size(ranges@) <= u64::MAX,
    ensures
        extent.total_ram == total_size(ranges@),
        forall|i: int| 0 <= i < ranges@.len() ==> extent.ram_base <= (#[trigger] ranges@[i]).0,
        if ranges@.len() == 0 {
            extent.ram_base == u64::MAX
        } else {
            exists|i: int| 0 <= i < ranges@.len() && extent.ram_base == (#[trigger] ranges@[i]).0
        },
{
    let mut total_ram: u64 = 0;
    let mut ram_base: u64 = u64::MAX;
    let mut i: usize = 0;
    while i < ranges.len()
        invariant
            i <= ranges@.len(),
            total_size(ranges@) <= u64::MAX,
            total_ram == total_size(ranges@.take(i as int)),
            forall|j: int| 0 <= j < i ==> ram_base <= (#[trigger] ranges@[j]).0,
            ram_base == u64::MAX || exists|j: int|
                0 <= j < i && ram_base == (#[trigger] ranges@[j]).0,
        decreases ranges@.len() - i,
    {
        proof {
            lemma_total_size_grows(ranges@, i as int);
        }
        total_ram = total_ram + ranges[i].1;
        if ranges[i].0 < ram_base {
            ram_base = ranges[i].0;
            assert(ram_base == ranges@[i as int].0);
        }
        i += 1;
    }
    assert(ranges@.take(i as int) =~= ranges@);
    proof {
        if ranges@.len() > 0 && ram_base == u64::MAX {
            assert(ram_base == ranges@[0].0);
        }
    }
    RamExtent { total_ram, ram_base }
}

/// How much memory there is, and where it starts.
pub fn memory_extent(mem: &GuestMemoryMmap) -> (extent: RamExtent)
    ensures
        extent.total_ram == total_size(guest_memory::guest_ranges(*mem)),
        forall|i: int|
            0 <= i < guest_memory::guest_ranges(*mem).len() ==> extent.ram_base <= (
            #[trigger] guest_memory::guest_ranges(*mem)[i]).0,
        if guest_memory::guest_ranges(*mem).len() == 0 {
            extent.ram_base == u64::MAX
        } else {
            exists|i: int|
                0 <= i < guest_memory::guest_ranges(*mem).len() && extent.ram_base == (
                #[trigger] guest_memory::guest_ranges(*mem)[i]).0
        },
{
    let ranges = memory_ranges(mem);
    proof {
        lemma_total_size(ranges@);
    }
    extent_of_ranges(&ranges)
}

} // verus!
