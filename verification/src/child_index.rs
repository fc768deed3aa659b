use vstd::prelude::*;

verus! {

/// Selects a child by position, as [`crate::BinaryIndex`] does; kept as a
/// separate name for callers that speak of children positionally.
#[derive(Clone, Copy, Debug)]
pub enum ChildIndex {
    Left,
    Right,
}

impl From<ChildIndex> for bool {
    fn from(child_index: ChildIndex) -> (r: Self) {
        match child_index {
            ChildIndex::Left => false,
            ChildIndex::Right => true,
        }
    }
}

impl vstd::std_specs::convert::FromSpecImpl<ChildIndex> for bool {
    open spec fn obeys_from_spec() -> bool {
        true
    }

    open spec fn from_spec(v: ChildIndex) -> Self {
        v is Right
    }
}

impl From<ChildIndex> for usize {
    fn from(child_index: ChildIndex) -> (r: Self) {
        match child_index {
            ChildIndex::Left => 0usize,
            ChildIndex::Right => 1usize,
        }
    }
}

impl vstd::std_specs::convert::FromSpecImpl<ChildIndex> for usize {
    open spec fn obeys_from_spec() -> bool {
        true
    }

    open spec fn from_spec(v: ChildIndex) -> Self {
        if v is Right {
            1
        } else {
            0
        }
    }
}

} // verus!
