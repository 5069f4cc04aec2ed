//! One piece of an erasure-coded string.

use vstd::prelude::*;

verus! {

/// One piece of an erasure-coded string, as mathematical values.
pub struct ShareView {
    pub number: usize,
    pub data: Seq<u8>,
}

/// One piece of an erasure-coded string with its position.
#[derive(Debug)]
pub struct Share {
    pub number: usize,
    pub data: Vec<u8>,
}

impl View for Share {
    type V = ShareView;

    open spec fn view(&self) -> ShareView {
        ShareView { number: self.number, data: self.data@ }
    }
}

impl Share {
    /// Copies the value.
    pub fn duplicate(&self) -> (r: Share)
        ensures
            r@ == self@,
    {
        Share { number: self.number, data: self.data.clone() }
    }
}

} // verus!
