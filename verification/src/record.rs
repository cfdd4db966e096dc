//! Records whose meaning the reader does not know, kept by their tag.
use vstd::prelude::*;

verus! {

/// The source of an unknown block or object: the tag of the record it came from, if any.
#[derive(Debug, Clone, Copy, PartialEq, Eq)]
pub struct UnknownRecordKind {
    tag: Option<u32>,
}

impl View for UnknownRecordKind {
    type V = Option<u32>;

    closed spec fn view(&self) -> Option<u32> {
        self.tag
    }
}

impl UnknownRecordKind {
    pub fn new(tag: Option<u32>) -> (r: Self)
        ensures
            r@ == tag,
    {
        UnknownRecordKind { tag }
    }

    pub fn tag(&self) -> (r: Option<u32>)
        ensures
            r == self@,
    {
        self.tag
    }
}

} // verus!
