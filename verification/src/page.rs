//! The page substrate: fixed-size pages holding variable-length items,
//! addressed by (block, one-based offset).  A `Relation` is the ordered set
//! of pages backing one index.  Every page carries a `PageType`
//! discriminator in its opaque area; readers check it before trusting the
//! page's items.

use vstd::prelude::*;
use crate::util::ItemPointer;

verus! {

/// Discriminator stored in every page's opaque area.
#[derive(Clone, Copy, PartialEq, Eq, Structural, Debug)]
pub enum PageType {
    Meta,
    MetaV1,
    Node,
    PqBlob,
    BqBlob,
}

/// Bytes of a page available to items and their line pointers.
pub const PAGE_DATA_SIZE: usize = 8168;

/// Cost of one item's line pointer and alignment, beyond its own bytes.
pub const ITEM_OVERHEAD: usize = 8;

/// Largest item that fits an otherwise empty page.
pub const MAX_ITEM_SIZE: usize = 8160;

/// Space taken inside a page by the given items.
pub open spec fn used_bytes(items: Seq<Seq<u8>>) -> int
    decreases items.len(),
{
    if items.len() == 0 {
        0
    } else {
        used_bytes(items.drop_last()) + items.last().len() + ITEM_OVERHEAD
    }
}

proof fn lemma_used_bytes_lower(items: Seq<Seq<u8>>)
    ensures
        used_bytes(items) >= ITEM_OVERHEAD * items.len(),
    decreases items.len(),
{
    if items.len() > 0 {
        lemma_used_bytes_lower(items.drop_last());
    }
}

proof fn lemma_used_bytes_push(items: Seq<Seq<u8>>, x: Seq<u8>)
    ensures
        used_bytes(items.push(x)) == used_bytes(items) + x.len() + ITEM_OVERHEAD,
{
    assert(items.push(x).drop_last() =~= items);
}

proof fn lemma_used_bytes_update_same_len(items: Seq<Seq<u8>>, i: int, x: Seq<u8>)
    requires
        0 <= i < items.len(),
        x.len() == items[i].len(),
    ensures
        used_bytes(items.update(i, x)) == used_bytes(items),
    decreases items.len(),
{
    if i == items.len() - 1 {
        assert(items.update(i, x).drop_last() =~= items.drop_last());
    } else {
        assert(items.update(i, x).drop_last() =~= items.drop_last().update(i, x));
        lemma_used_bytes_update_same_len(items.drop_last(), i, x);
    }
}

proof fn lemma_used_bytes_take_step(s: Seq<Seq<u8>>, i: int)
    requires
        0 <= i < s.len(),
    ensures
        used_bytes(s.take(i + 1)) == used_bytes(s.take(i)) + s[i].len() + ITEM_OVERHEAD,
{
    assert(s.take(i + 1).drop_last() =~= s.take(i));
}

proof fn lemma_used_bytes_take_le(s: Seq<Seq<u8>>, i: int)
    requires
        0 <= i <= s.len(),
    ensures
        used_bytes(s.take(i)) <= used_bytes(s),
    decreases s.len() - i,
{
    if i < s.len() {
        lemma_used_bytes_take_step(s, i);
        lemma_used_bytes_lower(s.take(i));
        lemma_used_bytes_take_le(s, i + 1);
    } else {
        assert(s.take(i) =~= s);
    }
}

/// One fixed-size page: its type tag and its item array.
struct Page {
    page_type: PageType,
    items: Vec<Vec<u8>>,
}

impl Page {
    spec fn view_items(self) -> Seq<Seq<u8>> {
        self.items@.map_values(|v: Vec<u8>| v@)
    }

    #[verifier::type_invariant]
    spec fn inv(self) -> bool {
        used_bytes(self.view_items()) <= PAGE_DATA_SIZE
    }

    fn empty(page_type: PageType) -> (r: Page)
        ensures
            r.page_type == page_type,
            r.view_items() =~= Seq::<Seq<u8>>::empty(),
    {
        let items: Vec<Vec<u8>> = Vec::new();
        proof {
            assert(items@.map_values(|v: Vec<u8>| v@) =~= Seq::<Seq<u8>>::empty());
        }
        Page { page_type, items }
    }

    /// Space already taken inside this page.
    fn used_space(&self) -> (r: usize)
        ensures
            r as int == used_bytes(self.view_items()),
            r <= PAGE_DATA_SIZE,
    {
        proof {
            use_type_invariant(&*self);
            lemma_used_bytes_lower(self.view_items());
            assert(self.view_items().take(0) =~= Seq::<Seq<u8>>::empty());
        }
        let mut sum: usize = 0;
        let mut i: usize = 0;
        while i < self.items.len()
            invariant
                0 <= i <= self.items.len(),
                sum as int == used_bytes(self.view_items().take(i as int)),
                used_bytes(self.view_items()) <= PAGE_DATA_SIZE,
                self.view_items().len() == self.items.len(),
            decreases self.items.len() - i,
        {
            proof {
                lemma_used_bytes_take_step(self.view_items(), i as int);
                lemma_used_bytes_take_le(self.view_items(), i as int + 1);
                lemma_used_bytes_lower(self.view_items().take(i as int));
            }
            assert(self.view_items()[i as int].len() == self.items@[i as int]@.len());
            sum = sum + self.items[i].len() + ITEM_OVERHEAD;
            i = i + 1;
        }
        proof {
            assert(self.view_items().take(self.items.len() as int) =~= self.view_items());
        }
        sum
    }
}

/// The ordered set of pages backing one index: the model of the host's
/// buffer manager as the index sees it.
pub struct Relation {
    pages: Vec<Page>,
}

impl Relation {
    /// Number of pages in the relation.
    pub closed spec fn num_pages(self) -> int {
        self.pages@.len() as int
    }

    /// The type tag of page `b`.
    pub closed spec fn page_ty(self, b: int) -> PageType {
        self.pages@[b].page_type
    }

    /// The items of page `b`, in offset order (offset `o` is `items(b)[o - 1]`).
    pub closed spec fn items(self, b: int) -> Seq<Seq<u8>> {
        self.pages@[b].view_items()
    }

    /// Whether `ip` addresses an existing item.
    pub open spec fn valid_ip(self, ip: ItemPointer) -> bool {
        &&& 0 <= ip.block_number < self.num_pages()
        &&& 1 <= ip.offset <= self.items(ip.block_number as int).len()
    }

    /// The bytes of the item addressed by `ip`.
    pub open spec fn item_at(self, ip: ItemPointer) -> Seq<u8> {
        self.items(ip.block_number as int)[ip.offset - 1]
    }

    /// Every page other than `b` is exactly as it was in `r0`, type and items.
    pub open spec fn same_except(self, r0: Relation, b: int) -> bool {
        &&& self.num_pages() == r0.num_pages()
        &&& forall|p: int|
            0 <= p < self.num_pages() && p != b ==> self.page_ty(p) == r0.page_ty(p)
        &&& forall|p: int|
            0 <= p < self.num_pages() && p != b ==> self.items(p) == r0.items(p)
    }

    pub fn new() -> (r: Relation)
        ensures
            r.num_pages() == 0,
    {
        Relation { pages: Vec::new() }
    }

    pub fn page_count(&self) -> (r: usize)
        ensures
            r as int == self.num_pages(),
    {
        self.pages.len()
    }

    /// Allocate a fresh, empty page of the given type at the end of the
    /// relation and return its block number.
    pub fn new_page(&mut self, ty: PageType) -> (block: u32)
        requires
            old(self).num_pages() < 0xFFFF_FFFEu32,
        ensures
            block as int == old(self).num_pages(),
            final(self).num_pages() == old(self).num_pages() + 1,
            forall|p: int|
                0 <= p < old(self).num_pages() ==> final(self).page_ty(p) == old(self).page_ty(p),
            forall|p: int|
                0 <= p < old(self).num_pages() ==> final(self).items(p) == old(self).items(p),
            final(self).page_ty(block as int) == ty,
            final(self).items(block as int) =~= Seq::<Seq<u8>>::empty(),
    {
        let block = self.pages.len();
        self.pages.push(Page::empty(ty));
        block as u32
    }

    /// The type tag of page `block`, or `None` when no such page exists.
    pub fn page_type(&self, block: u32) -> (r: Option<PageType>)
        ensures
            match r {
                Some(ty) => block < self.num_pages() && ty == self.page_ty(block as int),
                None => block >= self.num_pages(),
            },
    {
        if (block as usize) < self.pages.len() {
            Some(self.pages[block as usize].page_type)
        } else {
            None
        }
    }

    /// Number of items on page `block`, or `None` when no such page exists.
    pub fn item_count(&self, block: u32) -> (r: Option<usize>)
        ensures
            match r {
                Some(n) => block < self.num_pages() && n as int == self.items(block as int).len(),
                None => block >= self.num_pages(),
            },
    {
        if (block as usize) < self.pages.len() {
            Some(self.pages[block as usize].items.len())
        } else {
            None
        }
    }

    /// Append `bytes` as a new item on page `block`.  Returns the item's
    /// offset, or `None` exactly when the page lacks the space.
    pub fn add_item(&mut self, block: u32, bytes: &Vec<u8>) -> (r: Option<u16>)
        requires
            (block as int) < old(self).num_pages(),
        ensures
            final(self).same_except(*old(self), block as int),
            final(self).page_ty(block as int) == old(self).page_ty(block as int),
            r is Some <==> used_bytes(old(self).items(block as int)) + bytes@.len() + ITEM_OVERHEAD
                <= PAGE_DATA_SIZE,
            match r {
                Some(off) => {
                    &&& off as int == old(self).items(block as int).len() + 1
                    &&& final(self).items(block as int) == old(self).items(block as int).push(
                        bytes@,
                    )
                    &&& final(self).valid_ip((ItemPointer { block_number: block, offset: off }))
                    &&& final(self).item_at((ItemPointer { block_number: block, offset: off }))
                        == bytes@
                },
                None => final(self).items(block as int) == old(self).items(block as int),
            },
    {
        let ghost r0 = *self;
        let pg = self.pages.remove(block as usize);
        let used = pg.used_space();
        proof {
            use_type_invariant(&pg);
            lemma_used_bytes_lower(pg.view_items());
        }
        let ghost old_items = pg.view_items();
        let Page { page_type, items } = pg;
        let mut items = items;
        let res: Option<u16>;
        if bytes.len() <= PAGE_DATA_SIZE && used + ITEM_OVERHEAD <= PAGE_DATA_SIZE - bytes.len() {
            proof {
                lemma_used_bytes_push(old_items, bytes@);
            }
            let off = items.len() + 1;
            items.push(bytes.clone());
            proof {
                assert(items@.map_values(|v: Vec<u8>| v@) =~= old_items.push(bytes@));
            }
            res = Some(off as u16);
        } else {
            res = None;
            proof {
                assert(items@.map_values(|v: Vec<u8>| v@) =~= old_items);
            }
        }
        let pg2 = Page { page_type, items };
        self.pages.insert(block as usize, pg2);
        proof {
            assert(self.pages@ =~= r0.pages@.update(block as int, self.pages@[block as int]));
        }
        res
    }

    /// Read the item addressed by `ip`; `None` exactly when `ip` does not
    /// address an item.
    pub fn get_item(&self, ip: ItemPointer) -> (r: Option<Vec<u8>>)
        ensures
            match r {
                Some(v) => self.valid_ip(ip) && v@ == self.item_at(ip),
                None => !self.valid_ip(ip),
            },
    {
        if (ip.block_number as usize) < self.pages.len() {
            let pg = &self.pages[ip.block_number as usize];
            if 1 <= ip.offset && (ip.offset as usize) <= pg.items.len() {
                let v = pg.items[(ip.offset - 1) as usize].clone();
                proof {
                    assert(v@ =~= self.item_at(ip));
                }
                Some(v)
            } else {
                None
            }
        } else {
            None
        }
    }

    /// Overwrite the item addressed by `ip` in place.  The replacement must
    /// have the item's exact length; returns `false` (and changes nothing)
    /// when `ip` is invalid or the lengths differ.
    pub fn replace_item(&mut self, ip: ItemPointer, bytes: &Vec<u8>) -> (r: bool)
        ensures
            r <==> (old(self).valid_ip(ip) && bytes@.len() == old(self).item_at(ip).len()),
            r ==> {
                &&& final(self).same_except(*old(self), ip.block_number as int)
                &&& final(self).page_ty(ip.block_number as int) == old(self).page_ty(
                    ip.block_number as int,
                )
                &&& final(self).items(ip.block_number as int) == old(self).items(
                    ip.block_number as int,
                ).update(ip.offset - 1, bytes@)
            },
            !r ==> *final(self) == *old(self),
    {
        let ghost r0 = *self;
        if (ip.block_number as usize) >= self.pages.len() {
            return false;
        }
        if ip.offset < 1 || (ip.offset as usize) > self.pages[ip.block_number as usize].items.len()
        {
            return false;
        }
        if self.pages[ip.block_number as usize].items[(ip.offset - 1) as usize].len()
            != bytes.len() {
            proof {
                assert(r0.item_at(ip).len() == self.pages@[ip.block_number as int].items@[
                    ip.offset - 1
                ]@.len());
            }
            return false;
        }
        let pg = self.pages.remove(ip.block_number as usize);
        proof {
            use_type_invariant(&pg);
            lemma_used_bytes_update_same_len(pg.view_items(), ip.offset - 1, bytes@);
        }
        let ghost old_items = pg.view_items();
        let Page { page_type, items } = pg;
        let mut items = items;
        let j = (ip.offset - 1) as usize;
        items.remove(j);
        items.insert(j, bytes.clone());
        proof {
            assert(items@ =~= r0.pages@[ip.block_number as int].items@.update(j as int, items@[
                j as int
            ]));
            assert(items@.map_values(|v: Vec<u8>| v@) =~= old_items.update(ip.offset - 1, bytes@));
        }
        let pg2 = Page { page_type, items };
        self.pages.insert(ip.block_number as usize, pg2);
        proof {
            assert(self.pages@ =~= r0.pages@.update(
                ip.block_number as int,
                self.pages@[ip.block_number as int],
            ));
        }
        true
    }

    /// Clear page `block` and stamp it with a new type; used when an old
    /// metadata page is rewritten in the new layout.
    pub fn reinit_page(&mut self, block: u32, ty: PageType)
        requires
            (block as int) < old(self).num_pages(),
        ensures
            final(self).same_except(*old(self), block as int),
            final(self).page_ty(block as int) == ty,
            final(self).items(block as int) =~= Seq::<Seq<u8>>::empty(),
    {
        let ghost r0 = *self;
        self.pages.remove(block as usize);
        self.pages.insert(block as usize, Page::empty(ty));
        proof {
            assert(self.pages@ =~= r0.pages@.update(block as int, self.pages@[block as int]));
        }
    }
}

} // verus!
