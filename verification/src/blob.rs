//! Quantizer blob persistence: a byte stream too large for one item is
//! split into chunks, each an item holding the pointer of the next chunk
//! and a non-empty slice of the stream.  The chain is written back to
//! front, so every chunk can name its successor; the head pointer goes
//! into the metadata page.

use vstd::prelude::*;
use vstd::bytes::{spec_u16_to_le_bytes, spec_u32_to_le_bytes, spec_u16_from_le_bytes,
    spec_u32_from_le_bytes};
use crate::codec::{lemma_le_bytes_autos, put_u16, put_u32, read_u16, read_u32};
use crate::page::{PageType, Relation};
use crate::tape::Tape;
use crate::util::{IndexError, ItemPointer, INVALID_BLOCK_NUMBER};

verus! {

/// Pointer bytes at the front of each chunk.
pub const CHUNK_HEADER_LEN: usize = 6;

/// Data bytes per full chunk.
pub const CHUNK_DATA_LEN: usize = 8000;

/// The head pointer of an empty chain.
pub open spec fn spec_chain_end() -> ItemPointer {
    ItemPointer { block_number: INVALID_BLOCK_NUMBER, offset: 0 }
}

/// The chunk an item's bytes describe: its successor pointer.
pub open spec fn spec_chunk_next(item: Seq<u8>) -> ItemPointer {
    ItemPointer {
        block_number: spec_u32_from_le_bytes(item.subrange(0, 4)),
        offset: spec_u16_from_le_bytes(item.subrange(4, 6)),
    }
}

/// The chain starting at `ip` holds exactly `data`, split over `chunks`
/// non-empty chunks on pages of type `ty`.
pub open spec fn spec_blob_chain(
    rel: Relation,
    ip: ItemPointer,
    ty: PageType,
    data: Seq<u8>,
    chunks: nat,
) -> bool
    decreases chunks,
{
    if chunks == 0 {
        ip == spec_chain_end() && data.len() == 0
    } else {
        let item = rel.item_at(ip);
        &&& ip != spec_chain_end()
        &&& rel.valid_ip(ip)
        &&& rel.page_ty(ip.block_number as int) == ty
        &&& item.len() > CHUNK_HEADER_LEN
        &&& data.len() >= item.len() - CHUNK_HEADER_LEN
        &&& item.skip(CHUNK_HEADER_LEN as int) == data.take(item.len() - CHUNK_HEADER_LEN)
        &&& spec_blob_chain(
            rel,
            spec_chunk_next(item),
            ty,
            data.skip(item.len() - CHUNK_HEADER_LEN),
            (chunks - 1) as nat,
        )
    }
}

/// A chain's data is determined by its head: two chains from the same head
/// hold the same bytes.
pub proof fn lemma_blob_chain_unique(
    rel: Relation,
    ip: ItemPointer,
    ty: PageType,
    d1: Seq<u8>,
    c1: nat,
    d2: Seq<u8>,
    c2: nat,
)
    requires
        spec_blob_chain(rel, ip, ty, d1, c1),
        spec_blob_chain(rel, ip, ty, d2, c2),
    ensures
        d1 == d2,
    decreases c1,
{
    if c1 == 0 {
        assert(c2 == 0);
        assert(d1 =~= d2);
    } else {
        assert(c2 != 0);
        let item = rel.item_at(ip);
        let k = item.len() - CHUNK_HEADER_LEN;
        lemma_blob_chain_unique(
            rel,
            spec_chunk_next(item),
            ty,
            d1.skip(k),
            (c1 - 1) as nat,
            d2.skip(k),
            (c2 - 1) as nat,
        );
        assert(d1.take(k) == d2.take(k));
        assert(d1 =~= d1.take(k) + d1.skip(k));
        assert(d2 =~= d2.take(k) + d2.skip(k));
    }
}

/// A chain survives any change that keeps existing items and page types.
pub proof fn lemma_blob_chain_frame(
    r0: Relation,
    r1: Relation,
    ip: ItemPointer,
    ty: PageType,
    data: Seq<u8>,
    chunks: nat,
)
    requires
        spec_blob_chain(r0, ip, ty, data, chunks),
        forall|p: int| 0 <= p < r0.num_pages() ==> r1.page_ty(p) == r0.page_ty(p),
        forall|ip2: ItemPointer|
            #[trigger] r0.valid_ip(ip2) && r0.page_ty(ip2.block_number as int) == ty
                ==> r1.valid_ip(ip2) && r1.item_at(ip2) == r0.item_at(ip2),
    ensures
        spec_blob_chain(r1, ip, ty, data, chunks),
    decreases chunks,
{
    if chunks != 0 {
        let item = r0.item_at(ip);
        assert(r0.valid_ip(ip));
        assert(r1.valid_ip(ip) && r1.item_at(ip) == item);
        assert(r1.page_ty(ip.block_number as int) == ty);
        lemma_blob_chain_frame(
            r0,
            r1,
            spec_chunk_next(item),
            ty,
            data.skip(item.len() - CHUNK_HEADER_LEN),
            (chunks - 1) as nat,
        );
    }
}

/// Write `data` as a chunk chain through `tape` and return the head
/// pointer.  Existing items are untouched.
pub fn write_blob(tape: &mut Tape, rel: &mut Relation, data: &Vec<u8>) -> (r: ItemPointer)
    requires
        old(tape).wf(*old(rel)),
        0 < data@.len() <= 0x200_0000,
        old(rel).num_pages() < 0xF000_0000u32,
    ensures
        final(tape).wf(*final(rel)),
        final(tape).spec_page_type() == old(tape).spec_page_type(),
        forall|p: int|
            0 <= p < old(rel).num_pages() ==> final(rel).page_ty(p) == old(rel).page_ty(p),
        forall|p: int|
            0 <= p < old(rel).num_pages() && old(rel).page_ty(p) != old(tape).spec_page_type()
                ==> final(rel).items(p) == old(rel).items(p),
        forall|ip: ItemPointer|
            old(rel).valid_ip(ip) ==> #[trigger] final(rel).valid_ip(ip) && final(rel).item_at(ip)
                == old(rel).item_at(ip),
        final(rel).num_pages() >= old(rel).num_pages(),
        final(rel).num_pages() <= old(rel).num_pages() + 4200,
        exists|chunks: nat|
            spec_blob_chain(*final(rel), r, old(tape).spec_page_type(), data@, chunks),
{
    let total = data.len();
    let mut start: usize = ((total - 1) / CHUNK_DATA_LEN) * CHUNK_DATA_LEN;
    let mut end: usize = total;
    let mut next = ItemPointer { block_number: INVALID_BLOCK_NUMBER, offset: 0 };
    let ghost mut chunks: nat = 0;
    let ghost ty = old(tape).spec_page_type();
    proof {
        assert(data@.skip(total as int) =~= Seq::<u8>::empty());
        assert(next == spec_chain_end());
        assert(spec_blob_chain(*rel, next, ty, data@.skip(end as int), chunks));
        assert(start % CHUNK_DATA_LEN == 0 && start < total && total - start <= CHUNK_DATA_LEN)
            by (nonlinear_arith)
            requires
                start == ((total - 1) as int / CHUNK_DATA_LEN as int) * CHUNK_DATA_LEN as int,
                total >= 1,
                CHUNK_DATA_LEN == 8000,
        ;
    }
    loop
        invariant
            tape.wf(*rel),
            tape.spec_page_type() == ty,
            total == data@.len(),
            0 < total <= 0x200_0000,
            0 <= start < end <= total,
            end - start <= CHUNK_DATA_LEN,
            start % CHUNK_DATA_LEN == 0,
            start + chunks * CHUNK_DATA_LEN < total,
            chunks <= 4200,
            rel.num_pages() >= old(rel).num_pages(),
            rel.num_pages() <= old(rel).num_pages() + chunks,
            old(rel).num_pages() < 0xF000_0000u32,
            spec_blob_chain(*rel, next, ty, data@.skip(end as int), chunks),
            forall|p: int|
                0 <= p < old(rel).num_pages() ==> rel.page_ty(p) == old(rel).page_ty(p),
            forall|p: int|
                0 <= p < old(rel).num_pages() && old(rel).page_ty(p) != ty ==> rel.items(p) == old(rel).items(p),
            forall|ip: ItemPointer|
                old(rel).valid_ip(ip) ==> #[trigger] rel.valid_ip(ip) && rel.item_at(ip) == old(rel).item_at(ip),
        decreases start + 1,
    {
        let mut item: Vec<u8> = Vec::new();
        put_u32(&mut item, next.block_number);
        put_u16(&mut item, next.offset);
        let ghost hdr = item@;
        proof {
            lemma_le_bytes_autos();
            assert(hdr.len() == CHUNK_HEADER_LEN);
            assert(item@ =~= hdr + data@.subrange(start as int, start as int));
        }
        let mut i = start;
        while i < end
            invariant
                start <= i <= end <= data@.len(),
                item@ == hdr + data@.subrange(start as int, i as int),
                hdr.len() == CHUNK_HEADER_LEN,
            decreases end - i,
        {
            item.push(data[i]);
            proof {
                assert(item@ =~= hdr + data@.subrange(start as int, i as int + 1));
            }
            i = i + 1;
        }
        let ghost rel_before = *rel;
        let ghost next_before = next;
        let head = tape.write(rel, &item);
        next = head;
        proof {
            lemma_le_bytes_autos();
            chunks = chunks + 1;
            lemma_blob_chain_frame(
                rel_before,
                *rel,
                next_before,
                ty,
                data@.skip(end as int),
                (chunks - 1) as nat,
            );
            let it = rel.item_at(head);
            assert(it == item@);
            assert(it.subrange(0, 4) =~= spec_u32_to_le_bytes(next_before.block_number));
            assert(it.subrange(4, 6) =~= spec_u16_to_le_bytes(next_before.offset));
            assert(spec_chunk_next(it) == next_before);
            assert(it.skip(CHUNK_HEADER_LEN as int) =~= data@.subrange(start as int, end as int));
            assert(data@.skip(start as int).take(it.len() - CHUNK_HEADER_LEN) =~= data@.subrange(
                start as int,
                end as int,
            ));
            assert(data@.skip(start as int).skip(it.len() - CHUNK_HEADER_LEN) =~= data@.skip(
                end as int,
            ));
            assert(head != spec_chain_end()) by {
                assert(rel.valid_ip(head));
                assert(head.offset >= 1);
            }
            assert(spec_blob_chain(*rel, head, ty, data@.skip(start as int), chunks));
        }
        if start == 0 {
            proof {
                assert(data@.skip(0) =~= data@);
            }
            return next;
        }
        end = start;
        proof {
            assert(start >= CHUNK_DATA_LEN) by (nonlinear_arith)
                requires
                    start > 0,
                    start % CHUNK_DATA_LEN == 0,
                    CHUNK_DATA_LEN == 8000,
            ;
        }
        start = start - CHUNK_DATA_LEN;
    }
}

/// Read the chunk chain at `head`, expecting pages of type `ty` and at
/// most `max_len` bytes.  Fails with `Storage` when the chain is broken
/// or longer than expected.
pub fn read_blob(rel: &Relation, head: ItemPointer, ty: PageType, max_len: usize) -> (r: Result<
    Vec<u8>,
    IndexError,
>)
    ensures
        match r {
            Ok(v) => {
                &&& v@.len() <= max_len
                &&& exists|chunks: nat| spec_blob_chain(*rel, head, ty, v@, chunks)
            },
            Err(e) => e == IndexError::Storage,
        },
        (exists|data: Seq<u8>, chunks: nat|
            #[trigger] spec_blob_chain(*rel, head, ty, data, chunks) && data.len() <= max_len)
            ==> r is Ok,
{
    let ghost readable = exists|data: Seq<u8>, chunks: nat|
        #[trigger] spec_blob_chain(*rel, head, ty, data, chunks) && data.len() <= max_len;
    let mut out: Vec<u8> = Vec::new();
    let mut cur = head;
    let ghost mut chunks_done: nat = 0;
    proof {
        assert forall|rest: Seq<u8>, c: nat|
            spec_blob_chain(*rel, cur, ty, rest, c) implies spec_blob_chain(
            *rel,
            head,
            ty,
            out@ + rest,
            (c + chunks_done) as nat,
        ) by {
            assert(out@ + rest =~= rest);
        }
    }
    loop
        invariant
            out@.len() <= max_len,
            forall|rest: Seq<u8>, c: nat|
                spec_blob_chain(*rel, cur, ty, rest, c) ==> spec_blob_chain(
                    *rel,
                    head,
                    ty,
                    out@ + rest,
                    c + chunks_done,
                ),
            readable ==> exists|rest: Seq<u8>, c: nat|
                #[trigger] spec_blob_chain(*rel, cur, ty, rest, c) && out@.len() + rest.len()
                    <= max_len,
        decreases max_len - out@.len(),
    {
        proof {
            if readable {
                let (rest, c) = choose|rest: Seq<u8>, c: nat|
                    #[trigger] spec_blob_chain(*rel, cur, ty, rest, c) && out@.len() + rest.len()
                        <= max_len;
                if cur != spec_chain_end() {
                    assert(c != 0);
                    assert(rel.valid_ip(cur));
                    assert(rel.page_ty(cur.block_number as int) == ty);
                    assert(rel.item_at(cur).len() > CHUNK_HEADER_LEN);
                    assert(spec_blob_chain(
                        *rel,
                        spec_chunk_next(rel.item_at(cur)),
                        ty,
                        rest.skip(rel.item_at(cur).len() - CHUNK_HEADER_LEN),
                        (c - 1) as nat,
                    ));
                }
            }
        }
        if cur.block_number == INVALID_BLOCK_NUMBER && cur.offset == 0 {
            proof {
                assert(cur == spec_chain_end());
                assert(spec_blob_chain(*rel, cur, ty, Seq::<u8>::empty(), 0));
                assert(spec_blob_chain(*rel, head, ty, out@ + Seq::<u8>::empty(),
                    (0 + chunks_done) as nat));
                assert(out@ + Seq::<u8>::empty() =~= out@);
                assert(spec_blob_chain(*rel, head, ty, out@, chunks_done));
                assert(exists|c: nat| spec_blob_chain(*rel, head, ty, out@, c)) by {
                    assert(spec_blob_chain(*rel, head, ty, out@, chunks_done));
                }
            }
            return Ok(out);
        }
        match rel.page_type(cur.block_number) {
            Some(t) => {
                if !(t == ty) {
                    return Err(IndexError::Storage);
                }
            },
            None => {
                return Err(IndexError::Storage);
            },
        }
        let item = match rel.get_item(cur) {
            Some(b) => b,
            None => {
                return Err(IndexError::Storage);
            },
        };
        if item.len() <= CHUNK_HEADER_LEN {
            return Err(IndexError::Storage);
        }
        let dlen = item.len() - CHUNK_HEADER_LEN;
        if max_len - out.len() < dlen {
            return Err(IndexError::Storage);
        }
        let next = ItemPointer {
            block_number: read_u32(item.as_slice(), 0),
            offset: read_u16(item.as_slice(), 4),
        };
        let ghost prev_out = out@;
        let ghost prev_cur = cur;
        let mut i = CHUNK_HEADER_LEN;
        while i < item.len()
            invariant
                CHUNK_HEADER_LEN <= i <= item@.len(),
                out@ == prev_out + item@.subrange(CHUNK_HEADER_LEN as int, i as int),
            decreases item@.len() - i,
        {
            out.push(item[i]);
            proof {
                assert(out@ =~= prev_out + item@.subrange(CHUNK_HEADER_LEN as int, i as int + 1));
            }
            i = i + 1;
        }
        cur = next;
        proof {
            lemma_le_bytes_autos();
            chunks_done = chunks_done + 1;
            if readable {
                let (rest0, c0) = choose|rest0: Seq<u8>, c0: nat|
                    #[trigger] spec_blob_chain(*rel, prev_cur, ty, rest0, c0) && prev_out.len()
                        + rest0.len() <= max_len;
                let itm = rel.item_at(prev_cur);
                let k = itm.len() - CHUNK_HEADER_LEN;
                assert(c0 != 0);
                assert(spec_chunk_next(itm) == cur) by {
                    assert(itm == item@);
                    assert(itm.subrange(0, 4) =~= item@.subrange(0, 4));
                }
                assert(spec_blob_chain(*rel, cur, ty, rest0.skip(k), (c0 - 1) as nat));
                assert(out@.len() + rest0.skip(k).len() <= max_len) by {
                    assert(rest0.take(k) == itm.skip(CHUNK_HEADER_LEN as int));
                    assert(out@.len() == prev_out.len() + k);
                }
            }
            assert forall|rest: Seq<u8>, c: nat|
                spec_blob_chain(*rel, cur, ty, rest, c) implies spec_blob_chain(
                *rel,
                head,
                ty,
                out@ + rest,
                (c + chunks_done) as nat,
            ) by {
                let itm = rel.item_at(prev_cur);
                assert(itm == item@);
                let full = item@.subrange(CHUNK_HEADER_LEN as int, item@.len() as int) + rest;
                assert(item@.skip(CHUNK_HEADER_LEN as int) =~= item@.subrange(
                    CHUNK_HEADER_LEN as int,
                    item@.len() as int,
                ));
                assert(full.take(item@.len() - CHUNK_HEADER_LEN) =~= item@.skip(
                    CHUNK_HEADER_LEN as int,
                ));
                assert(full.skip(item@.len() - CHUNK_HEADER_LEN) =~= rest);
                assert(itm.subrange(0, 4) =~= item@.subrange(0, 4));
                assert(spec_chunk_next(itm) == cur);
                assert(prev_cur != spec_chain_end());
                assert(spec_blob_chain(*rel, prev_cur, ty, full, (c + 1) as nat));
                assert(prev_out + full =~= out@ + rest);
            }
        }
    }
}

} // verus!
