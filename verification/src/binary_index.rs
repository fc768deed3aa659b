use vstd::prelude::*;

verus! {

/// Selects one of the two children of an internal node: `Left` is the
/// branch taken when the variable is 0, `Right` when it is 1.
#[derive(Clone, Copy, Debug)]
pub enum BinaryIndex {
    Left,
    Right,
}

impl From<BinaryIndex> for bool {
    fn from(child_index: BinaryIndex) -> (r: Self) {
        match child_index {
            BinaryIndex::Left => false,
            BinaryIndex::Right => true,
        }
    }
}

impl vstd::std_specs::convert::FromSpecImpl<BinaryIndex> for bool {
    open spec fn obeys_from_spec() -> bool {
        true
    }

    open spec fn from_spec(v: BinaryIndex) -> Self {
        v is Right
    }
}

impl From<BinaryIndex> for usize {
    fn from(child_index: BinaryIndex) -> (r: Self) {
        match child_index {
            BinaryIndex::Left => 0usize,
            BinaryIndex::Right => 1usize,
        }
    }
}

impl vstd::std_specs::convert::FromSpecImpl<BinaryIndex> for usize {
    open spec fn obeys_from_spec() -> bool {
        true
    }

    open spec fn from_spec(v: BinaryIndex) -> Self {
        if v is Right {
            1
        } else {
            0
        }
    }
}

} // verus!
