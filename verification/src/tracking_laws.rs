//! That every image is complete: across captures into different directories, and after
//! captures that failed.
use crate::capture;
use crate::capture::{CaptureState, CaptureStep, Outcome, Performed};
use crate::guest_memory;
use crate::host::Host;
use crate::ram;
use crate::ram::DirtyBlock;
use crate::ram_laws;
use crate::tracking;
use crate::tracking::{BacklogView, Base, ImageSource, LastImageView};
use vstd::prelude::*;

verus! {

/// The blocks hold every address at which the memory differs.
pub open spec fn written_since(
    ranges: Seq<(u64, u64)>,
    before: spec_fn(int) -> u8,
    after: spec_fn(int) -> u8,
    blocks: Seq<DirtyBlock>,
) -> bool {
    forall|addr: int| #[trigger]
        guest_memory::covered(ranges, addr) && before(addr) != after(addr) ==> ram_laws::block_holds(
            ranges,
            blocks,
            addr,
        )
}

/// An image of zeros.
pub open spec fn zeros(ranges: Seq<(u64, u64)>) -> Seq<u8> {
    Seq::new(ram::total_size(ranges), |i: int| 0u8)
}

/// The image that is written from `source` with these blocks. `previous` is the image of
/// the directory to publish to.
pub open spec fn image_written(
    ranges: Seq<(u64, u64)>,
    source: ImageSource,
    previous: Seq<u8>,
    blocks: Seq<DirtyBlock>,
    memory: spec_fn(int) -> u8,
) -> Seq<u8> {
    let layout = ram::layout_of(ranges);
    match source {
        ImageSource::Sparse => ram_laws::patched(
            zeros(ranges),
            ram::patches_for(layout, blocks),
            memory,
        ),
        ImageSource::Clone => ram_laws::patched(previous, ram::patches_for(layout, blocks), memory),
        ImageSource::Whole => ram_laws::patched(
            zeros(ranges),
            ram::patches_for(layout, ram::whole_blocks(ranges)),
            memory,
        ),
    }
}

/// What is known between captures is so. `base` is the memory that the last image holds,
/// zeros if there is none, `memory` the memory now, `images` the images there are by
/// directory, and `untaken` the blocks that the hypervisor has yet to hand out.
pub open spec fn sound(
    ranges: Seq<(u64, u64)>,
    image: LastImageView,
    blocks: Seq<DirtyBlock>,
    images: Map<Seq<u8>, Seq<u8>>,
    base: spec_fn(int) -> u8,
    memory: spec_fn(int) -> u8,
    untaken: Seq<DirtyBlock>,
) -> bool {
    !(image is Unknown) ==> {
        &&& written_since(ranges, base, memory, blocks + untaken)
        &&& match image {
            LastImageView::Nowhere => forall|addr: int| #[trigger]
                guest_memory::covered(ranges, addr) ==> base(addr) == 0,
            LastImageView::At(dir) => images.contains_key(dir) ==> ram_laws::holds_memory(
                ranges,
                images[dir],
                base,
            ),
            LastImageView::Unknown => true,
        }
    }
}

/// The blocks that were handed out in the course of these steps.
pub open spec fn taken<H: Host>(history: Seq<Performed<H>>) -> Seq<DirtyBlock>
    decreases history.len(),
{
    if history.len() == 0 {
        Seq::empty()
    } else {
        match (history.last().step, history.last().outcome) {
            (CaptureStep::TakeDirtyBlocks, Outcome::Blocks(blocks)) => taken(history.drop_last())
                + blocks@,
            _ => taken(history.drop_last()),
        }
    }
}

/// An image that is written from the right source, with all the blocks written since, holds
/// the memory.
pub proof fn written_image_is_complete(
    ranges: Seq<(u64, u64)>,
    source: ImageSource,
    previous: Seq<u8>,
    base: spec_fn(int) -> u8,
    memory: spec_fn(int) -> u8,
    blocks: Seq<DirtyBlock>,
)
    requires
        guest_memory::in_order(ranges),
        !(source is Whole) ==> ram_laws::blocks_readable(ranges, blocks) && written_since(
            ranges,
            base,
            memory,
            blocks,
        ),
        source is Sparse ==> forall|addr: int| #[trigger]
            guest_memory::covered(ranges, addr) ==> base(addr) == 0,
        source is Clone ==> ram_laws::holds_memory(ranges, previous, base),
    ensures
        ram_laws::holds_memory(
            ranges,
            image_written(ranges, source, previous, blocks, memory),
            memory,
        ),
{
    match source {
        ImageSource::Sparse => {
            assert forall|addr: int| #[trigger]
                guest_memory::covered(ranges, addr) && memory(addr)
                    != 0 implies ram_laws::block_holds(ranges, blocks, addr) by {
                assert(base(addr) != memory(addr));
            }
            ram_laws::sparse_image_holds_memory(ranges, memory, blocks);
        },
        ImageSource::Clone => {
            ram_laws::incremental_image_holds_memory(ranges, previous, base, memory, blocks);
        },
        ImageSource::Whole => {
            ram_laws::whole_blocks_hold_memory(ranges);
            ram_laws::sparse_image_holds_memory(ranges, memory, ram::whole_blocks(ranges));
        },
    }
}

/// More blocks hold more.
proof fn lemma_more_blocks(
    ranges: Seq<(u64, u64)>,
    a: Seq<DirtyBlock>,
    b: Seq<DirtyBlock>,
    addr: int,
)
    requires
        ram_laws::block_holds(ranges, a, addr) || ram_laws::block_holds(ranges, b, addr),
    ensures
        ram_laws::block_holds(ranges, a + b, addr),
{
    if ram_laws::block_holds(ranges, a, addr) {
        let i = choose|i: int|
            0 <= i < a.len() && guest_memory::covered(ranges, (#[trigger] a[i]).guest_addr as int)
                && a[i].guest_addr <= addr < a[i].guest_addr + a[i].size;
        assert((a + b)[i] == a[i]);
    } else {
        let i = choose|i: int|
            0 <= i < b.len() && guest_memory::covered(ranges, (#[trigger] b[i]).guest_addr as int)
                && b[i].guest_addr <= addr < b[i].guest_addr + b[i].size;
        assert((a + b)[a.len() + i] == b[i]);
    }
}

/// What is known stays so while the guest runs, if the hypervisor has the blocks that it
/// writes.
pub proof fn running_stays_sound(
    ranges: Seq<(u64, u64)>,
    image: LastImageView,
    blocks: Seq<DirtyBlock>,
    images: Map<Seq<u8>, Seq<u8>>,
    base: spec_fn(int) -> u8,
    memory: spec_fn(int) -> u8,
    later: spec_fn(int) -> u8,
    untaken: Seq<DirtyBlock>,
    fresh: Seq<DirtyBlock>,
)
    requires
        sound(ranges, image, blocks, images, base, memory, untaken),
        written_since(ranges, memory, later, fresh),
    ensures
        sound(ranges, image, blocks, images, base, later, untaken + fresh),
{
    if !(image is Unknown) {
        assert forall|addr: int| #[trigger]
            guest_memory::covered(ranges, addr) && base(addr)
                != later(addr) implies ram_laws::block_holds(
            ranges,
            blocks + (untaken + fresh),
            addr,
        ) by {
            assert((blocks + untaken) + fresh =~= blocks + (untaken + fresh));
            lemma_more_blocks(ranges, blocks + untaken, fresh, addr);
        }
    }
}

/// Whether a step changes the base that is known.
spec fn rebases<H: Host>(performed: Performed<H>) -> bool {
    match (performed.step, performed.outcome) {
        (CaptureStep::RenameStage { .. }, Outcome::Done)
        | (CaptureStep::TakeDirtyBlocks, Outcome::Failed(_))
        | (CaptureStep::EnableTracking, Outcome::Failed(_)) => true,
        _ => false,
    }
}

/// Blocks are kept as long as no image is published.
proof fn lemma_kept<H: Host>(initial: BacklogView, history: Seq<Performed<H>>)
    requires
        forall|k: int|
            0 <= k < history.len() ==> !((#[trigger] history[k]).step is RenameStage
                && history[k].outcome is Done),
    ensures
        capture::backlog_after(initial, history).blocks == initial.blocks + taken(history),
        capture::backlog_after(initial, history).base == initial.base || capture::backlog_after(
            initial,
            history,
        ).base is Unknown,
        (forall|k: int| 0 <= k < history.len() ==> !rebases(#[trigger] history[k]))
            ==> capture::backlog_after(initial, history).base == initial.base,
    decreases history.len(),
{
    if history.len() == 0 {
        assert(initial.blocks + taken(history) =~= initial.blocks);
    } else {
        let before = history.drop_last();
        let last = history.len() - 1;
        assert(forall|k: int| 0 <= k < before.len() ==> before[k] == history[k]);
        assert forall|k: int| 0 <= k < before.len() implies !((#[trigger] before[
        k]).step is RenameStage && before[k].outcome is Done) by {
            assert(before[k] == history[k]);
        }
        lemma_kept(initial, before);
        assert(!(history[last].step is RenameStage && history[last].outcome is Done));
        if forall|k: int| 0 <= k < history.len() ==> !rebases(#[trigger] history[k]) {
            assert forall|k: int| 0 <= k < before.len() implies !rebases(#[trigger] before[k]) by {
                assert(before[k] == history[k]);
            }
            assert(!rebases(history[last]));
        }
        assert(capture::backlog_after(initial, history).blocks =~= initial.blocks + taken(history));
    }
}

/// Once an image is published, none of the blocks is left.
proof fn lemma_published<H: Host>(initial: BacklogView, history: Seq<Performed<H>>, r: int)
    requires
        0 <= r < history.len(),
        history[r].step is RenameStage,
        history[r].outcome is Done,
        forall|j: int|
            r < j < history.len() ==> !((#[trigger] history[j]).step is TakeDirtyBlocks),
    ensures
        capture::backlog_after(initial, history).blocks == Seq::<DirtyBlock>::empty(),
        capture::backlog_after(initial, history).base is Target || capture::backlog_after(
            initial,
            history,
        ).base is Unknown,
    decreases history.len(),
{
    if r < history.len() - 1 {
        let before = history.drop_last();
        assert(before[r] == history[r]);
        assert forall|j: int| r < j < before.len() implies !((#[trigger] before[
        j]).step is TakeDirtyBlocks) by {
            assert(before[j] == history[j]);
        }
        lemma_published(initial, before, r);
        assert(!(history[history.len() - 1].step is TakeDirtyBlocks));
    }
}

/// Before an image is looked for, the base is that of the start.
pub(crate) proof fn lemma_base_kept<H: Host>(s: CaptureState<H>, k: int)
    requires
        s.valid(),
        0 <= k < s.history.len(),
        s.history[k].step is LookForPages,
    ensures
        s.backlog_at(k).base == s.initial.base,
{
    assert(s.steps()[k] == s.history[k].step);
    let a = s.history.take(k);
    assert forall|j: int| 0 <= j < a.len() implies !rebases(#[trigger] a[j]) && !(
    a[j].step is RenameStage) by {
        assert(a[j] == s.history[j]);
        assert(s.steps()[j] == s.history[j].step);
        assert(capture::phase(s.steps()[j]) <= capture::phase(s.steps()[k]));
        if rebases(s.history[j]) {
            assert(s.diverted(j));
            assert(capture::phase(s.steps()[k]) >= 10);
        }
    }
    lemma_kept(s.initial, a);
}

/// Before an image is written nothing was refused, and the base is that of the start.
proof fn lemma_before_image<H: Host>(s: CaptureState<H>, k: int)
    requires
        s.valid(),
        0 <= k < s.history.len(),
        s.history[k].step is WriteImage,
    ensures
        s.sourced_at(k),
        s.backlog_at(k - 1).base == s.initial.base,
        s.backlog_at(k).blocks == s.initial.blocks + taken(s.history.take(k)),
{
    assert(s.steps()[k] == s.history[k].step);
    assert(s.sourced_at(k));
    assert forall|j: int| 0 <= j < k implies !rebases(#[trigger] s.history[j]) && !(
    s.history[j].step is RenameStage) by {
        assert(s.steps()[j] == s.history[j].step);
        assert(capture::phase(s.steps()[j]) <= capture::phase(s.steps()[k]));
        if rebases(s.history[j]) {
            assert(s.diverted(j));
            assert(capture::phase(s.steps()[k]) >= 10);
        }
    }
    let a = s.history.take(k - 1);
    let b = s.history.take(k);
    assert(forall|j: int| 0 <= j < k - 1 ==> a[j] == s.history[j]);
    assert(forall|j: int| 0 <= j < k ==> b[j] == s.history[j]);
    assert forall|j: int| 0 <= j < a.len() implies !rebases(#[trigger] a[j]) && !(
    a[j].step is RenameStage) by {
        assert(a[j] == s.history[j]);
    }
    assert forall|j: int| 0 <= j < b.len() implies !(#[trigger] b[j].step is RenameStage) by {
        assert(b[j] == s.history[j]);
    }
    lemma_kept(s.initial, a);
    lemma_kept(s.initial, b);
}

/// A capture that does not publish, wherever it stops, leaves what is known so: the blocks
/// that it was handed are kept.
pub proof fn failed_capture_stays_sound<H: Host>(
    s: CaptureState<H>,
    ranges: Seq<(u64, u64)>,
    image: LastImageView,
    target: Seq<u8>,
    images: Map<Seq<u8>, Seq<u8>>,
    base: spec_fn(int) -> u8,
    memory: spec_fn(int) -> u8,
    left: Seq<DirtyBlock>,
)
    requires
        s.valid(),
        s.initial.base == tracking::base_for(image, target),
        forall|k: int|
            0 <= k < s.history.len() ==> !((#[trigger] s.history[k]).step is RenameStage
                && s.history[k].outcome is Done),
        sound(
            ranges,
            image,
            s.initial.blocks,
            images,
            base,
            memory,
            taken(s.history) + left,
        ),
    ensures
        sound(
            ranges,
            tracking::image_after(image, target, s.backlog().base),
            s.backlog().blocks,
            images,
            base,
            memory,
            left,
        ),
{
    lemma_kept(s.initial, s.history);
    assert(s.initial.blocks + (taken(s.history) + left) =~= (s.initial.blocks + taken(s.history))
        + left);
}

/// A capture that publishes has a complete image, wherever the last image was and whatever
/// failed since: every byte of it is that of the memory. And what is known afterwards is
/// so.
pub proof fn capture_is_complete<H: Host>(
    s: CaptureState<H>,
    k: int,
    r: int,
    ranges: Seq<(u64, u64)>,
    image: LastImageView,
    target: Seq<u8>,
    images: Map<Seq<u8>, Seq<u8>>,
    base: spec_fn(int) -> u8,
    memory: spec_fn(int) -> u8,
)
    requires
        s.valid(),
        guest_memory::in_order(ranges),
        s.initial.base == tracking::base_for(image, target),
        0 <= k < s.history.len(),
        s.history[k].step is WriteImage,
        0 <= r < s.history.len(),
        s.history[r].step is RenameStage,
        s.history[r].outcome is Done,
        sound(
            ranges,
            image,
            s.initial.blocks,
            images,
            base,
            memory,
            taken(s.history.take(k)),
        ),
        ram_laws::blocks_readable(ranges, s.backlog_at(k).blocks),
        s.history[k - 1].outcome == Outcome::<H>::Found(images.contains_key(target)),
    ensures
        ({
            let source = s.history[k].step->source;
            let written = image_written(
                ranges,
                source,
                images[target],
                s.backlog_at(k).blocks,
                memory,
            );
            &&& source == tracking::image_source(s.initial.base, images.contains_key(target))
            &&& ram_laws::holds_memory(ranges, written, memory)
            &&& sound(
                ranges,
                tracking::image_after(image, target, s.backlog().base),
                s.backlog().blocks,
                images.insert(target, written),
                memory,
                memory,
                Seq::empty(),
            )
        }),
{
    lemma_before_image(s, k);
    let there = images.contains_key(target);
    let source = tracking::image_source(s.initial.base, there);
    assert(s.steps()[k] == s.history[k].step);
    assert(s.steps()[r] == s.history[r].step);
    written_image_is_complete(
        ranges,
        source,
        images[target],
        base,
        memory,
        s.backlog_at(k).blocks,
    );
    assert forall|j: int| r < j < s.history.len() implies !((#[trigger] s.history[
    j]).step is TakeDirtyBlocks) by {
        assert(s.steps()[j] == s.history[j].step);
        assert(capture::phase(s.steps()[r]) <= capture::phase(s.steps()[j]));
    }
    lemma_published(s.initial, s.history, r);
}

/// A capture that neither publishes nor loses track leaves the last image where it was; one
/// that publishes is found again by the next capture to the same directory, and by no other;
/// and what cannot be told is told by no later capture either.
pub proof fn last_image_is_found_again(
    image: LastImageView,
    target: Seq<u8>,
    next: Seq<u8>,
    there: bool,
)
    ensures
        tracking::image_after(image, target, tracking::base_for(image, target)) == image,
        ({
            let after = tracking::image_after(image, target, Base::Target);
            &&& tracking::base_for(after, next) is Target <==> next == target
            &&& tracking::base_for(after, next) is Elsewhere <==> next != target
            &&& tracking::image_source(tracking::base_for(after, next), there) is Clone <==> next
                == target && there
            &&& next != target ==> tracking::image_source(
                tracking::base_for(after, next),
                there,
            ) is Whole
        }),
        ({
            let lost = tracking::image_after(image, target, Base::Unknown);
            &&& tracking::base_for(lost, next) is Unknown
            &&& tracking::image_source(tracking::base_for(lost, next), there) is Whole
        }),
        tracking::base_for(LastImageView::Nowhere, target) is Nothing,
        tracking::image_source(Base::Nothing, false) is Sparse,
        tracking::base_for(LastImageView::Unknown, target) is Unknown,
{
}

} // verus!
