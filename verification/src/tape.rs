//! A tape is an append-only write cursor over the page substrate, bound to
//! one relation and one page type.  Writing appends the item to the tape's
//! current page, or to a freshly allocated page of the same type when the
//! current page lacks the space.

use vstd::prelude::*;
use crate::page::{ITEM_OVERHEAD, PAGE_DATA_SIZE, PageType, Relation, used_bytes};
use crate::util::ItemPointer;

verus! {

/// An append cursor: the page type it writes and the block it is filling.
pub struct Tape {
    page_type: PageType,
    current: u32,
}

impl Tape {
    /// The page type this tape writes.
    pub closed spec fn spec_page_type(self) -> PageType {
        self.page_type
    }

    /// The block the tape is currently filling.
    pub closed spec fn spec_current(self) -> int {
        self.current as int
    }

    /// The tape's cursor addresses a page of the tape's type.
    pub open spec fn wf(self, rel: Relation) -> bool {
        &&& 0 <= self.spec_current() < rel.num_pages()
        &&& rel.page_ty(self.spec_current()) == self.spec_page_type()
    }

    /// Start a tape on a fresh page of the given type.
    pub fn new(rel: &mut Relation, page_type: PageType) -> (t: Tape)
        requires
            old(rel).num_pages() < 0xFFFF_FFFEu32,
        ensures
            t.wf(*final(rel)),
            t.spec_page_type() == page_type,
            t.spec_current() == old(rel).num_pages(),
            final(rel).num_pages() == old(rel).num_pages() + 1,
            forall|p: int|
                0 <= p < old(rel).num_pages() ==> final(rel).page_ty(p) == old(rel).page_ty(p),
            forall|p: int|
                0 <= p < old(rel).num_pages() ==> final(rel).items(p) == old(rel).items(p),
            final(rel).items(t.spec_current()) =~= Seq::<Seq<u8>>::empty(),
    {
        let block = rel.new_page(page_type);
        Tape { page_type, current: block }
    }

    /// Append `bytes` as a new item, allocating a follow-on page of the same
    /// type when the current page lacks the space.  The returned pointer is
    /// fresh: it addressed nothing before the call, and it addresses exactly
    /// `bytes` after it.  All previously existing items are untouched.
    pub fn write(&mut self, rel: &mut Relation, bytes: &Vec<u8>) -> (r: ItemPointer)
        requires
            old(self).wf(*old(rel)),
            bytes@.len() + ITEM_OVERHEAD <= PAGE_DATA_SIZE,
            old(rel).num_pages() < 0xFFFF_FFFEu32,
        ensures
            final(self).wf(*final(rel)),
            final(self).spec_page_type() == old(self).spec_page_type(),
            !old(rel).valid_ip(r),
            final(rel).valid_ip(r),
            final(rel).item_at(r) == bytes@,
            final(rel).page_ty(r.block_number as int) == old(self).spec_page_type(),
            r.block_number as int == final(self).spec_current(),
            final(rel).num_pages() <= old(rel).num_pages() + 1,
            final(rel).num_pages() >= old(rel).num_pages(),
            forall|p: int|
                0 <= p < old(rel).num_pages() ==> final(rel).page_ty(p) == old(rel).page_ty(p),
            forall|p: int|
                0 <= p < old(rel).num_pages() && old(rel).page_ty(p) != old(self).spec_page_type()
                    ==> final(rel).items(p) == old(rel).items(p),
            forall|ip: ItemPointer|
                old(rel).valid_ip(ip) ==> #[trigger] final(rel).valid_ip(ip) && final(rel).item_at(
                    ip,
                ) == old(rel).item_at(ip),
            forall|ip: ItemPointer|
                #[trigger] final(rel).valid_ip(ip) ==> old(rel).valid_ip(ip) || ip == r,
    {
        match rel.add_item(self.current, bytes) {
            Some(off) => {
                ItemPointer { block_number: self.current, offset: off }
            },
            None => {
                let block = rel.new_page(self.page_type);
                self.current = block;
                match rel.add_item(block, bytes) {
                    Some(off) => ItemPointer { block_number: block, offset: off },
                    None => {
                        // An empty page always has room for an item of
                        // `MAX_ITEM_SIZE` bytes, which the caller bounds.
                        proof {
                            assert(false);
                        }
                        ItemPointer { block_number: block, offset: 1 }
                    },
                }
            },
        }
    }
}

} // verus!
