//! Times kept under names.

use vstd::prelude::*;

use super::store::Row;

verus! {

/// A time under a name.
pub struct Stamp {
    pub name: String,
    pub at: u64,
}

/// What a [`Stamp`] holds.
pub struct StampView {
    pub name: Seq<char>,
    pub at: u64,
}

impl View for Stamp {
    type V = StampView;

    open spec fn view(&self) -> StampView {
        StampView { name: self.name@, at: self.at }
    }
}

impl Row for Stamp {
    open spec fn key(v: StampView) -> Seq<char> {
        v.name
    }

    open spec fn rank(v: StampView) -> int {
        0
    }

    fn row_key(&self) -> (r: &str) {
        self.name.as_str()
    }

    fn row_rank(&self) -> (r: i128) {
        0
    }

    fn copy_row(&self) -> (r: Self) {
        Stamp { name: self.name.clone(), at: self.at }
    }
}

} // verus!
