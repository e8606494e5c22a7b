//! What is known, from one capture to the next, of the memory that an image lacks.
//!
//! The hypervisor hands a written block out once. So that an image is complete
//! wherever it is written and whatever failed before, the blocks that a failed
//! capture was handed are kept, and so is the place of the last image.
use crate::ram::DirtyBlock;
use vstd::prelude::*;

verus! {

/// Where the image is to which the written blocks have to be added.
#[derive(Clone, Debug, PartialEq, Eq)]
pub enum LastImage {
    /// There is none yet: the memory was all zeros when the tracking began.
    Nowhere,
    /// In the directory of this path.
    At(Vec<u8>),
    /// It cannot be told what was written since the last image.
    Unknown,
}

/// A `LastImage` with its path as a sequence of bytes.
pub enum LastImageView {
    Nowhere,
    At(Seq<u8>),
    Unknown,
}

impl View for LastImage {
    type V = LastImageView;

    open spec fn view(&self) -> LastImageView {
        match *self {
            LastImage::Nowhere => LastImageView::Nowhere,
            LastImage::At(dir) => LastImageView::At(dir@),
            LastImage::Unknown => LastImageView::Unknown,
        }
    }
}

/// Where the last image is, seen from a capture.
#[derive(Clone, Copy, Debug, PartialEq, Eq)]
pub enum Base {
    Nothing,
    /// In the directory that the capture publishes to.
    Target,
    /// In another directory.
    Elsewhere,
    Unknown,
}

/// How a memory image comes about.
#[derive(Clone, Copy, Debug, PartialEq, Eq)]
pub enum ImageSource {
    /// All zeros, with the written blocks patched in.
    Sparse,
    /// The image of the directory to publish to, with the written blocks patched in.
    Clone,
    /// All of memory.
    Whole,
}

/// What one capture leaves to the next.
#[derive(Clone, Debug, PartialEq, Eq)]
pub struct Tracker {
    /// The blocks that were handed out since the last image.
    pub blocks: Vec<DirtyBlock>,
    pub image: LastImage,
}

/// What a capture knows of the tracking.
#[derive(Clone, Debug, PartialEq, Eq)]
pub struct Backlog {
    pub base: Base,
    pub blocks: Vec<DirtyBlock>,
}

/// A `Backlog` with its blocks as a sequence.
pub struct BacklogView {
    pub base: Base,
    pub blocks: Seq<DirtyBlock>,
}

impl View for Backlog {
    type V = BacklogView;

    open spec fn view(&self) -> BacklogView {
        BacklogView { base: self.base, blocks: self.blocks@ }
    }
}

/// Where the last image is, seen from a capture that publishes to `target`.
pub open spec fn base_for(image: LastImageView, target: Seq<u8>) -> Base {
    match image {
        LastImageView::Nowhere => Base::Nothing,
        LastImageView::At(dir) => if dir == target {
            Base::Target
        } else {
            Base::Elsewhere
        },
        LastImageView::Unknown => Base::Unknown,
    }
}

/// Where the last image is after a capture to `target` that ends with `base`.
pub open spec fn image_after(image: LastImageView, target: Seq<u8>, base: Base) -> LastImageView {
    match base {
        Base::Nothing => LastImageView::Nowhere,
        Base::Target => LastImageView::At(target),
        Base::Elsewhere => image,
        Base::Unknown => LastImageView::Unknown,
    }
}

/// How the image is written, given whether the directory to publish to holds one. One
/// that is not the last image may hold anything.
pub open spec fn image_source(base: Base, there: bool) -> ImageSource {
    match (base, there) {
        (Base::Nothing, false) => ImageSource::Sparse,
        (Base::Target, true) => ImageSource::Clone,
        _ => ImageSource::Whole,
    }
}

fn same_bytes(a: &Vec<u8>, b: &Vec<u8>) -> (same: bool)
    ensures
        same == (a@ == b@),
{
    if a.len() != b.len() {
        return false;
    }
    let mut i: usize = 0;
    while i < a.len()
        invariant
            i <= a@.len(),
            a@.len() == b@.len(),
            forall|j: int| 0 <= j < i ==> a@[j] == b@[j],
        decreases a@.len() - i,
    {
        if a[i] != b[i] {
            return false;
        }
        i += 1;
    }
    assert(a@ =~= b@);
    true
}

impl Tracker {
    /// The tracker of a machine whose memory starts out as zeros.
    pub fn new() -> (tracker: Self)
        ensures
            tracker.blocks@ == Seq::<DirtyBlock>::empty(),
            tracker.image@ == LastImageView::Nowhere,
    {
        Tracker { blocks: Vec::new(), image: LastImage::Nowhere }
    }

    /// The tracker of a machine whose memory is mapped from the image in `dir`.
    pub fn restored(dir: Vec<u8>) -> (tracker: Self)
        ensures
            tracker.blocks@ == Seq::<DirtyBlock>::empty(),
            tracker.image@ == LastImageView::At(dir@),
    {
        Tracker { blocks: Vec::new(), image: LastImage::At(dir) }
    }

    /// Where the last image is, seen from a capture that publishes to `target`.
    pub fn base(&self, target: &Vec<u8>) -> (base: Base)
        ensures
            base == base_for(self.image@, target@),
    {
        match &self.image {
            LastImage::Nowhere => Base::Nothing,
            LastImage::At(dir) => if same_bytes(dir, target) {
                Base::Target
            } else {
                Base::Elsewhere
            },
            LastImage::Unknown => Base::Unknown,
        }
    }
}

/// How the image is written, given whether the directory to publish to holds one.
pub fn choose_source(base: Base, there: bool) -> (source: ImageSource)
    ensures
        source == image_source(base, there),
{
    match base {
        Base::Nothing => if there {
            ImageSource::Whole
        } else {
            ImageSource::Sparse
        },
        Base::Target => if there {
            ImageSource::Clone
        } else {
            ImageSource::Whole
        },
        Base::Elsewhere | Base::Unknown => ImageSource::Whole,
    }
}

/// Where the last image is after a capture to `target` that ends with `base`.
pub fn next_image(image: LastImage, target: Vec<u8>, base: Base) -> (next: LastImage)
    ensures
        next@ == image_after(image@, target@, base),
{
    match base {
        Base::Nothing => LastImage::Nowhere,
        Base::Target => LastImage::At(target),
        Base::Elsewhere => image,
        Base::Unknown => LastImage::Unknown,
    }
}

} // verus!
