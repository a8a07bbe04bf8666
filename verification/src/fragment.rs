//! The identity of a KFX fragment.
use vstd::prelude::*;

verus! {

/// A fragment is identified by its type and its exact fid string; two
/// fragments with the same fid but different types are different.
#[derive(Clone, Debug, PartialEq, Eq, PartialOrd, Ord, Hash)]
pub struct FragmentKey {
    pub fragment_type: u32,
    pub fid: String,
}

pub struct FragmentKeyView {
    pub fragment_type: u32,
    pub fid: Seq<char>,
}

impl View for FragmentKey {
    type V = FragmentKeyView;

    open spec fn view(&self) -> FragmentKeyView {
        FragmentKeyView { fragment_type: self.fragment_type, fid: self.fid@ }
    }
}

impl FragmentKey {
    pub fn new(fragment_type: u32, fid: String) -> (r: Self)
        ensures
            r@ == (FragmentKeyView { fragment_type, fid: fid@ }),
    {
        FragmentKey { fragment_type, fid }
    }
}

} // verus!
