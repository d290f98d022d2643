//! A neighbour candidate: the index pointer of a node and its distance to
//! the node under consideration, with the total order the pruning and the
//! candidate lists sort by: distance first, pointer as the stable
//! tie-break.

use vstd::prelude::*;
use crate::util::IndexPointer;

verus! {

#[derive(Clone, Copy, PartialEq, Eq, Structural, Debug)]
pub struct NeighborWithDistance {
    pub index_pointer: IndexPointer,
    pub distance: u64,
}

impl NeighborWithDistance {
    pub fn new(index_pointer: IndexPointer, distance: u64) -> (r: Self)
        ensures
            r == (NeighborWithDistance { index_pointer, distance }),
    {
        NeighborWithDistance { index_pointer, distance }
    }

    pub fn get_index_pointer_to_neighbor(&self) -> (r: IndexPointer)
        ensures
            r == self.index_pointer,
    {
        self.index_pointer
    }

    pub fn get_distance(&self) -> (r: u64)
        ensures
            r == self.distance,
    {
        self.distance
    }

    /// The sort order: by distance, ties broken by the stable pointer
    /// order (block, then offset).
    pub open spec fn spec_le(self, other: Self) -> bool {
        if self.distance != other.distance {
            self.distance < other.distance
        } else if self.index_pointer.block_number != other.index_pointer.block_number {
            self.index_pointer.block_number < other.index_pointer.block_number
        } else {
            self.index_pointer.offset <= other.index_pointer.offset
        }
    }

    pub fn le(&self, other: &Self) -> (r: bool)
        ensures
            r == self.spec_le(*other),
    {
        if self.distance != other.distance {
            self.distance < other.distance
        } else if self.index_pointer.block_number != other.index_pointer.block_number {
            self.index_pointer.block_number < other.index_pointer.block_number
        } else {
            self.index_pointer.offset <= other.index_pointer.offset
        }
    }
}

/// The order is total: any two candidates compare one way or the other.
pub proof fn lemma_le_total(a: NeighborWithDistance, b: NeighborWithDistance)
    ensures
        a.spec_le(b) || b.spec_le(a),
        a.spec_le(b) && b.spec_le(a) ==> a.index_pointer == b.index_pointer && a.distance
            == b.distance,
{
}

/// The order is transitive.
pub proof fn lemma_le_trans(a: NeighborWithDistance, b: NeighborWithDistance, c: NeighborWithDistance)
    requires
        a.spec_le(b),
        b.spec_le(c),
    ensures
        a.spec_le(c),
{
}

/// A sequence sorted by the candidate order.
pub open spec fn spec_sorted(s: Seq<NeighborWithDistance>) -> bool {
    forall|i: int, j: int| 0 <= i < j < s.len() ==> #[trigger] s[i].spec_le(#[trigger] s[j])
}

/// No two entries name the same node.
pub open spec fn spec_distinct_ips(s: Seq<NeighborWithDistance>) -> bool {
    forall|i: int, j: int|
        0 <= i < j < s.len() ==> (#[trigger] s[i]).index_pointer != (#[trigger] s[j]).index_pointer
}

} // verus!
