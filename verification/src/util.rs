//! Item pointers: stable (block, offset) addresses of items, either inside
//! the index's own pages (`IndexPointer`) or inside the host table
//! (`HeapPointer`).

use vstd::prelude::*;

verus! {

/// Offset value that never addresses a real item.  A heap pointer whose
/// offset equals this value marks a tombstoned (deleted) row.
pub const INVALID_OFFSET_NUMBER: u16 = 0;

/// Block value that never addresses a real page; used as the sentinel in
/// unused neighbour slots.
pub const INVALID_BLOCK_NUMBER: u32 = 0xFFFF_FFFF;

/// The failure kinds the index surfaces to the host.  Every error aborts
/// the current access-method call; the host rolls the transaction back.
#[derive(Clone, Copy, PartialEq, Eq, Structural, Debug)]
pub enum IndexError {
    /// Option values out of range or mutually inconsistent; rejected at
    /// build start, before any page is written.
    Config,
    /// Vector dimension or null-handling mismatch at row level.
    Schema,
    /// Page-type mismatch, version mismatch without a migration path, or a
    /// short or malformed read.
    Storage,
    /// Too few samples for the requested quantizer parameters.
    Training,
    /// Host cancellation observed during a scan or build.
    Interrupted,
    /// An internal check failed; treated as fatal.
    Invariant,
}

/// A stable address of an item: the page (block) it lives on and its
/// one-based offset inside that page's item array.
#[derive(Clone, Copy, PartialEq, Eq, Structural, Debug)]
pub struct ItemPointer {
    pub block_number: u32,
    pub offset: u16,
}

/// Address of an item inside the index's own pages.
pub type IndexPointer = ItemPointer;

/// Address of a row in the host table.
pub type HeapPointer = ItemPointer;

impl ItemPointer {
    pub fn new(block_number: u32, offset: u16) -> (r: Self)
        ensures
            r == (ItemPointer { block_number, offset }),
    {
        ItemPointer { block_number, offset }
    }

    /// A heap pointer with this offset marks a deleted row.
    pub open spec fn spec_is_tombstone(self) -> bool {
        self.offset == INVALID_OFFSET_NUMBER
    }

    pub fn is_tombstone(&self) -> (r: bool)
        ensures
            r == self.spec_is_tombstone(),
    {
        self.offset == INVALID_OFFSET_NUMBER
    }
}

} // verus!
