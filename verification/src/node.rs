//! The on-disk node layout.  A node holds its heap back-pointer, a deleted
//! bit, a payload that depends on the storage variant, and a fixed array of
//! neighbour slots pre-allocated at creation: used slots come first, the
//! rest hold a sentinel.  The encoded length is a function of the metadata
//! alone, so neighbour lists can later be rewritten in place.

use vstd::prelude::*;
use vstd::bytes::{spec_u16_to_le_bytes, spec_u16_from_le_bytes, spec_u32_to_le_bytes,
    spec_u32_from_le_bytes, spec_u64_to_le_bytes, spec_u64_from_le_bytes};
use crate::codec::{
    lemma_le_bytes_autos, lemma_comp_roundtrip, put_bool, put_u16, put_u32, put_u64, put_comp,
    read_u16, read_u32, read_u64, read_comp, spec_bool_byte, spec_comp_to_le_bytes,
    spec_comp_from_le_bytes,
};
use crate::distance::{COMP_BOUND, wf_vector};
use crate::meta_page::MetaPage;
use crate::page::{ITEM_OVERHEAD, MAX_ITEM_SIZE, PAGE_DATA_SIZE, PageType, Relation};
use crate::storage::StorageType;
use crate::tape::Tape;
use crate::util::{HeapPointer, IndexError, IndexPointer, ItemPointer, INVALID_BLOCK_NUMBER};

verus! {

/// Fixed part of the layout before the payload: heap block (4), heap
/// offset (2), deleted bit (1), payload kind (1), payload count (2).
pub const NODE_HEADER_LEN: usize = 10;

/// Bytes of one neighbour slot: block (4) and offset (2).
pub const SLOT_LEN: usize = 6;

/// The slot content marking an unused neighbour slot.
pub open spec fn spec_sentinel_ptr() -> ItemPointer {
    ItemPointer { block_number: INVALID_BLOCK_NUMBER, offset: 0 }
}

/// A node's payload, by storage variant.
pub enum Payload {
    /// The full fixed-point vector.
    Plain(Vec<i32>),
    /// One code byte per segment, indexing the segment's codebook.
    Pq(Vec<u8>),
    /// The bit-packed sign vector, 64 dimensions per word.
    Bq(Vec<u64>),
}

/// Spec view of a payload.
pub enum PayloadV {
    Plain(Seq<i32>),
    Pq(Seq<u8>),
    Bq(Seq<u64>),
}

impl View for Payload {
    type V = PayloadV;

    open spec fn view(&self) -> PayloadV {
        match self {
            Payload::Plain(v) => PayloadV::Plain(v@),
            Payload::Pq(v) => PayloadV::Pq(v@),
            Payload::Bq(v) => PayloadV::Bq(v@),
        }
    }
}

/// A graph node as read from or written to its page.
pub struct Node {
    pub heap_pointer: HeapPointer,
    pub deleted: bool,
    pub payload: Payload,
    pub neighbors: Vec<IndexPointer>,
}

/// Spec view of a node.
pub struct NodeV {
    pub heap_pointer: HeapPointer,
    pub deleted: bool,
    pub payload: PayloadV,
    pub neighbors: Seq<IndexPointer>,
}

impl View for Node {
    type V = NodeV;

    open spec fn view(&self) -> NodeV {
        NodeV {
            heap_pointer: self.heap_pointer,
            deleted: self.deleted,
            payload: self.payload@,
            neighbors: self.neighbors@,
        }
    }
}

// ---------------------------------------------------------------------
// Layout arithmetic
// ---------------------------------------------------------------------

/// Words a bit-packed code needs for the given dimension count.
pub open spec fn spec_bq_words(dims: int) -> int {
    (dims + 63) / 64
}

/// Number of payload elements for the metadata's storage variant.
pub open spec fn spec_payload_count(m: MetaPage) -> int {
    match m.spec_storage_type() {
        StorageType::Plain => m.num_dimensions as int,
        StorageType::PqCompression => m.num_dimensions as int / m.pq_vector_length as int,
        StorageType::BqSpeedup => spec_bq_words(m.num_dimensions as int),
    }
}

/// Bytes the payload section takes.
pub open spec fn spec_payload_byte_len(m: MetaPage) -> int {
    match m.spec_storage_type() {
        StorageType::Plain => 4 * spec_payload_count(m),
        StorageType::PqCompression => spec_payload_count(m),
        StorageType::BqSpeedup => 8 * spec_payload_count(m),
    }
}

/// Total encoded length of a node under this metadata.
pub open spec fn spec_node_len(m: MetaPage) -> int {
    NODE_HEADER_LEN + spec_payload_byte_len(m) + 2 + SLOT_LEN * m.num_neighbors
}

/// Whether an encoded node fits a page; checked once at build start.
pub open spec fn spec_node_fits(m: MetaPage) -> bool {
    spec_node_len(m) + ITEM_OVERHEAD <= PAGE_DATA_SIZE
}

/// The payload a node of this metadata must carry.
pub open spec fn spec_payload_wf(p: PayloadV, m: MetaPage) -> bool {
    match p {
        PayloadV::Plain(v) => m.spec_storage_type() == StorageType::Plain && wf_vector(
            v,
            m.num_dimensions as int,
        ),
        PayloadV::Pq(c) => m.spec_storage_type() == StorageType::PqCompression && c.len()
            == spec_payload_count(m),
        PayloadV::Bq(w) => m.spec_storage_type() == StorageType::BqSpeedup && w.len()
            == spec_payload_count(m),
    }
}

/// A node the layout can store under this metadata.
pub open spec fn spec_node_wf(n: NodeV, m: MetaPage) -> bool {
    &&& spec_payload_wf(n.payload, m)
    &&& n.neighbors.len() <= m.num_neighbors
}

// ---------------------------------------------------------------------
// Element-wise codecs
// ---------------------------------------------------------------------

/// The first `n` components of `v`, encoded 4 bytes each.
pub open spec fn spec_encode_comps(v: Seq<i32>, n: int) -> Seq<u8>
    decreases n,
{
    if n <= 0 {
        Seq::empty()
    } else {
        spec_encode_comps(v, n - 1) + spec_comp_to_le_bytes(v[n - 1])
    }
}

/// The first `n` words of `w`, encoded 8 bytes each.
pub open spec fn spec_encode_words(w: Seq<u64>, n: int) -> Seq<u8>
    decreases n,
{
    if n <= 0 {
        Seq::empty()
    } else {
        spec_encode_words(w, n - 1) + spec_u64_to_le_bytes(w[n - 1])
    }
}

/// One neighbour slot's bytes.
pub open spec fn spec_encode_slot(p: ItemPointer) -> Seq<u8> {
    spec_u32_to_le_bytes(p.block_number) + spec_u16_to_le_bytes(p.offset)
}

/// The pointer stored in slot `i` when the used list is `ps`: the pointer
/// itself for used slots, the sentinel for the rest.
pub open spec fn spec_slot_ptr(ps: Seq<IndexPointer>, i: int) -> ItemPointer {
    if i < ps.len() {
        ps[i]
    } else {
        spec_sentinel_ptr()
    }
}

/// The first `n` slots of a slot array whose used prefix is `ps`.
pub open spec fn spec_encode_slots(ps: Seq<IndexPointer>, n: int) -> Seq<u8>
    decreases n,
{
    if n <= 0 {
        Seq::empty()
    } else {
        spec_encode_slots(ps, n - 1) + spec_encode_slot(spec_slot_ptr(ps, n - 1))
    }
}

pub proof fn lemma_encode_comps_len(v: Seq<i32>, n: int)
    requires
        n >= 0,
    ensures
        spec_encode_comps(v, n).len() == 4 * n,
    decreases n,
{
    lemma_le_bytes_autos();
    if n > 0 {
        lemma_encode_comps_len(v, n - 1);
    }
}

pub proof fn lemma_encode_words_len(w: Seq<u64>, n: int)
    requires
        n >= 0,
    ensures
        spec_encode_words(w, n).len() == 8 * n,
    decreases n,
{
    lemma_le_bytes_autos();
    if n > 0 {
        lemma_encode_words_len(w, n - 1);
    }
}

pub proof fn lemma_encode_slots_len(ps: Seq<IndexPointer>, n: int)
    requires
        n >= 0,
    ensures
        spec_encode_slots(ps, n).len() == 6 * n,
    decreases n,
{
    lemma_le_bytes_autos();
    if n > 0 {
        lemma_encode_slots_len(ps, n - 1);
    }
}

/// Each component's bytes sit at their slot of the encoding.
pub proof fn lemma_encode_comps_index(v: Seq<i32>, n: int, i: int)
    requires
        0 <= i < n,
    ensures
        spec_encode_comps(v, n).subrange(4 * i, 4 * i + 4) == spec_comp_to_le_bytes(v[i]),
    decreases n,
{
    lemma_le_bytes_autos();
    lemma_encode_comps_len(v, n - 1);
    if i == n - 1 {
        assert(spec_encode_comps(v, n).subrange(4 * i, 4 * i + 4) =~= spec_comp_to_le_bytes(v[i]));
    } else {
        lemma_encode_comps_index(v, n - 1, i);
        assert(spec_encode_comps(v, n).subrange(4 * i, 4 * i + 4) =~= spec_encode_comps(
            v,
            n - 1,
        ).subrange(4 * i, 4 * i + 4));
    }
}

pub proof fn lemma_encode_words_index(w: Seq<u64>, n: int, i: int)
    requires
        0 <= i < n,
    ensures
        spec_encode_words(w, n).subrange(8 * i, 8 * i + 8) == spec_u64_to_le_bytes(w[i]),
    decreases n,
{
    lemma_le_bytes_autos();
    lemma_encode_words_len(w, n - 1);
    if i == n - 1 {
        assert(spec_encode_words(w, n).subrange(8 * i, 8 * i + 8) =~= spec_u64_to_le_bytes(w[i]));
    } else {
        lemma_encode_words_index(w, n - 1, i);
        assert(spec_encode_words(w, n).subrange(8 * i, 8 * i + 8) =~= spec_encode_words(
            w,
            n - 1,
        ).subrange(8 * i, 8 * i + 8));
    }
}

pub proof fn lemma_encode_slots_index(ps: Seq<IndexPointer>, n: int, i: int)
    requires
        0 <= i < n,
    ensures
        spec_encode_slots(ps, n).subrange(6 * i, 6 * i + 6) == spec_encode_slot(
            spec_slot_ptr(ps, i),
        ),
    decreases n,
{
    lemma_le_bytes_autos();
    lemma_encode_slots_len(ps, n - 1);
    if i == n - 1 {
        assert(spec_encode_slots(ps, n).subrange(6 * i, 6 * i + 6) =~= spec_encode_slot(
            spec_slot_ptr(ps, i),
        ));
    } else {
        lemma_encode_slots_index(ps, n - 1, i);
        assert(spec_encode_slots(ps, n).subrange(6 * i, 6 * i + 6) =~= spec_encode_slots(
            ps,
            n - 1,
        ).subrange(6 * i, 6 * i + 6));
    }
}

// ---------------------------------------------------------------------
// Whole-node codec
// ---------------------------------------------------------------------

/// The byte the payload kind is stored as.
pub open spec fn spec_kind_byte(t: StorageType) -> u8 {
    match t {
        StorageType::Plain => 0u8,
        StorageType::PqCompression => 1u8,
        StorageType::BqSpeedup => 2u8,
    }
}

/// The payload section's bytes.
pub open spec fn spec_encode_payload(p: PayloadV) -> Seq<u8> {
    match p {
        PayloadV::Plain(v) => spec_encode_comps(v, v.len() as int),
        PayloadV::Pq(c) => c,
        PayloadV::Bq(w) => spec_encode_words(w, w.len() as int),
    }
}

/// The full encoding of a node under this metadata.
pub open spec fn spec_encode_node(n: NodeV, m: MetaPage) -> Seq<u8> {
    spec_u32_to_le_bytes(n.heap_pointer.block_number) + spec_u16_to_le_bytes(n.heap_pointer.offset)
        + seq![spec_bool_byte(n.deleted)] + seq![spec_kind_byte(m.spec_storage_type())]
        + spec_u16_to_le_bytes(spec_payload_count(m) as u16) + spec_encode_payload(n.payload)
        + spec_u16_to_le_bytes(n.neighbors.len() as u16) + spec_encode_slots(
        n.neighbors,
        m.num_neighbors as int,
    )
}

/// Whether `s` decodes as a node under this metadata.
pub open spec fn spec_node_decodable(s: Seq<u8>, m: MetaPage) -> bool {
    let pb = spec_payload_byte_len(m);
    &&& m.wf()
    &&& s.len() == spec_node_len(m)
    &&& (s[6] == 0 || s[6] == 1)
    &&& s[7] == spec_kind_byte(m.spec_storage_type())
    &&& spec_u16_from_le_bytes(s.subrange(8, 10)) == spec_payload_count(m)
    &&& (m.spec_storage_type() == StorageType::Plain ==> forall|i: int|
        0 <= i < spec_payload_count(m) ==> spec_u32_from_le_bytes(
            #[trigger] s.subrange(10 + 4 * i, 10 + 4 * i + 4),
        ) <= 2 * COMP_BOUND)
    &&& spec_u16_from_le_bytes(s.subrange(10 + pb, 12 + pb)) <= m.num_neighbors
}

/// The payload `s` decodes to.
pub open spec fn spec_decode_payload(s: Seq<u8>, m: MetaPage) -> PayloadV {
    let cnt = spec_payload_count(m);
    match m.spec_storage_type() {
        StorageType::Plain => PayloadV::Plain(
            Seq::new(cnt as nat, |i: int| spec_comp_from_le_bytes(
                s.subrange(10 + 4 * i, 10 + 4 * i + 4),
            )),
        ),
        StorageType::PqCompression => PayloadV::Pq(s.subrange(10, 10 + cnt)),
        StorageType::BqSpeedup => PayloadV::Bq(
            Seq::new(cnt as nat, |i: int| spec_u64_from_le_bytes(
                s.subrange(10 + 8 * i, 10 + 8 * i + 8),
            )),
        ),
    }
}

/// The node `s` decodes to.
pub open spec fn spec_decode_node(s: Seq<u8>, m: MetaPage) -> NodeV {
    let pb = spec_payload_byte_len(m);
    let nbr_count = spec_u16_from_le_bytes(s.subrange(10 + pb, 12 + pb)) as int;
    NodeV {
        heap_pointer: ItemPointer {
            block_number: spec_u32_from_le_bytes(s.subrange(0, 4)),
            offset: spec_u16_from_le_bytes(s.subrange(4, 6)),
        },
        deleted: s[6] == 1,
        payload: spec_decode_payload(s, m),
        neighbors: Seq::new(nbr_count as nat, |i: int| ItemPointer {
            block_number: spec_u32_from_le_bytes(
                s.subrange(12 + pb + 6 * i, 12 + pb + 6 * i + 4),
            ),
            offset: spec_u16_from_le_bytes(s.subrange(12 + pb + 6 * i + 4, 12 + pb + 6 * i + 6)),
        }),
    }
}

/// A stored node decodes back to itself, and every well-formed node can be
/// stored.
pub proof fn lemma_node_roundtrip(n: NodeV, m: MetaPage)
    requires
        m.wf(),
        spec_node_wf(n, m),
    ensures
        spec_encode_node(n, m).len() == spec_node_len(m),
        spec_node_decodable(spec_encode_node(n, m), m),
        spec_decode_node(spec_encode_node(n, m), m) == n,
{
    lemma_le_bytes_autos();
    let e = spec_encode_node(n, m);
    let pb = spec_payload_byte_len(m);
    let cnt = spec_payload_count(m);
    let r = m.num_neighbors as int;
    match n.payload {
        PayloadV::Plain(v) => {
            lemma_encode_comps_len(v, v.len() as int);
        },
        PayloadV::Pq(c) => {},
        PayloadV::Bq(w) => {
            lemma_encode_words_len(w, w.len() as int);
        },
    }
    lemma_encode_slots_len(n.neighbors, r);
    assert(spec_encode_payload(n.payload).len() == pb);
    assert(e.len() == spec_node_len(m));
    // Field subranges of the encoding
    assert(e.subrange(0, 4) =~= spec_u32_to_le_bytes(n.heap_pointer.block_number));
    assert(e.subrange(4, 6) =~= spec_u16_to_le_bytes(n.heap_pointer.offset));
    assert(e[6] == spec_bool_byte(n.deleted));
    assert(e[7] == spec_kind_byte(m.spec_storage_type()));
    assert(e.subrange(8, 10) =~= spec_u16_to_le_bytes(cnt as u16));
    assert(cnt as u16 as int == cnt);
    assert(e.subrange(10, 10 + pb) =~= spec_encode_payload(n.payload));
    assert(e.subrange(10 + pb, 12 + pb) =~= spec_u16_to_le_bytes(n.neighbors.len() as u16));
    assert(n.neighbors.len() as u16 as int == n.neighbors.len() as int);
    assert(e.subrange(12 + pb, 12 + pb + 6 * r) =~= spec_encode_slots(n.neighbors, r));
    // Payload element subranges
    match n.payload {
        PayloadV::Plain(v) => {
            assert forall|i: int| 0 <= i < cnt implies #[trigger] e.subrange(
                10 + 4 * i,
                10 + 4 * i + 4,
            ) == spec_comp_to_le_bytes(v[i]) by {
                lemma_encode_comps_index(v, cnt, i);
                assert(e.subrange(10 + 4 * i, 10 + 4 * i + 4) =~= e.subrange(10, 10 + pb).subrange(
                    4 * i,
                    4 * i + 4,
                ));
            }
            assert forall|i: int| 0 <= i < cnt implies spec_u32_from_le_bytes(
                #[trigger] e.subrange(10 + 4 * i, 10 + 4 * i + 4),
            ) <= 2 * COMP_BOUND by {
                lemma_comp_roundtrip(v[i]);
            }
            let decoded = spec_decode_payload(e, m);
            assert(decoded matches PayloadV::Plain(dv) && dv =~= v) by {
                assert forall|i: int| 0 <= i < cnt implies spec_comp_from_le_bytes(
                    #[trigger] e.subrange(10 + 4 * i, 10 + 4 * i + 4),
                ) == v[i] by {
                    lemma_comp_roundtrip(v[i]);
                }
            }
        },
        PayloadV::Pq(c) => {
            assert(spec_decode_payload(e, m) == PayloadV::Pq(e.subrange(10, 10 + cnt)));
        },
        PayloadV::Bq(w) => {
            let decoded = spec_decode_payload(e, m);
            assert(decoded matches PayloadV::Bq(dw) && dw =~= w) by {
                assert forall|i: int| 0 <= i < cnt implies spec_u64_from_le_bytes(
                    #[trigger] e.subrange(10 + 8 * i, 10 + 8 * i + 8),
                ) == w[i] by {
                    lemma_encode_words_index(w, cnt, i);
                    assert(e.subrange(10 + 8 * i, 10 + 8 * i + 8) =~= e.subrange(
                        10,
                        10 + pb,
                    ).subrange(8 * i, 8 * i + 8));
                }
            }
        },
    }
    // Neighbour slots
    let dn = spec_decode_node(e, m);
    assert(dn.neighbors.len() == n.neighbors.len());
    assert forall|i: int| 0 <= i < n.neighbors.len() implies #[trigger] dn.neighbors[i]
        == n.neighbors[i] by {
        lemma_encode_slots_index(n.neighbors, r, i);
        let slot = spec_encode_slot(spec_slot_ptr(n.neighbors, i));
        assert(e.subrange(12 + pb + 6 * i, 12 + pb + 6 * i + 6) =~= e.subrange(
            12 + pb,
            12 + pb + 6 * r,
        ).subrange(6 * i, 6 * i + 6));
        assert(e.subrange(12 + pb + 6 * i, 12 + pb + 6 * i + 4) =~= slot.subrange(0, 4));
        assert(e.subrange(12 + pb + 6 * i + 4, 12 + pb + 6 * i + 6) =~= slot.subrange(4, 6));
        assert(slot.subrange(0, 4) =~= spec_u32_to_le_bytes(spec_slot_ptr(n.neighbors, i).block_number));
        assert(slot.subrange(4, 6) =~= spec_u16_to_le_bytes(spec_slot_ptr(n.neighbors, i).offset));
    }
    assert(dn.neighbors =~= n.neighbors);
    assert(dn == n);
}

// ---------------------------------------------------------------------
// Executable codec
// ---------------------------------------------------------------------

/// Number of payload elements, computed from the metadata.
pub fn payload_count(m: &MetaPage) -> (r: usize)
    requires
        m.wf(),
    ensures
        r as int == spec_payload_count(*m),
        r < 2000,
{
    match m.get_storage_type() {
        StorageType::Plain => m.get_num_dimensions() as usize,
        StorageType::PqCompression => (m.get_num_dimensions() / (m.pq_vector_length)) as usize,
        StorageType::BqSpeedup => ((m.get_num_dimensions() + 63) / 64) as usize,
    }
}

/// Bytes the payload section takes, computed from the metadata.
pub fn payload_byte_len(m: &MetaPage) -> (r: usize)
    requires
        m.wf(),
    ensures
        r as int == spec_payload_byte_len(*m),
        r < 8000,
{
    let cnt = payload_count(m);
    match m.get_storage_type() {
        StorageType::Plain => 4 * cnt,
        StorageType::PqCompression => cnt,
        StorageType::BqSpeedup => 8 * cnt,
    }
}

/// Total encoded node length, computed from the metadata.
pub fn node_len(m: &MetaPage) -> (r: usize)
    requires
        m.wf(),
    ensures
        r as int == spec_node_len(*m),
        r < 16000,
{
    NODE_HEADER_LEN + payload_byte_len(m) + 2 + SLOT_LEN * (m.get_num_neighbors() as usize)
}

/// Whether a node of this metadata fits a page.
pub fn node_fits(m: &MetaPage) -> (r: bool)
    requires
        m.wf(),
    ensures
        r == spec_node_fits(*m),
{
    node_len(m) + ITEM_OVERHEAD <= PAGE_DATA_SIZE
}

/// Encode a node for storage.
pub fn encode_node(n: &Node, m: &MetaPage) -> (r: Vec<u8>)
    requires
        m.wf(),
        spec_node_wf(n@, *m),
    ensures
        r@ == spec_encode_node(n@, *m),
{
    let cnt = payload_count(m);
    let mut out: Vec<u8> = Vec::new();
    put_u32(&mut out, n.heap_pointer.block_number);
    put_u16(&mut out, n.heap_pointer.offset);
    put_bool(&mut out, n.deleted);
    let kind: u8 = match m.get_storage_type() {
        StorageType::Plain => 0u8,
        StorageType::PqCompression => 1u8,
        StorageType::BqSpeedup => 2u8,
    };
    out.push(kind);
    proof {
        assert(out@ =~= spec_u32_to_le_bytes(n.heap_pointer.block_number) + spec_u16_to_le_bytes(
            n.heap_pointer.offset,
        ) + seq![spec_bool_byte(n.deleted)] + seq![spec_kind_byte(m.spec_storage_type())]);
    }
    put_u16(&mut out, cnt as u16);
    let ghost head = out@;
    match &n.payload {
        Payload::Plain(v) => {
            let mut i: usize = 0;
            while i < v.len()
                invariant
                    0 <= i <= v@.len(),
                    forall|j: int| 0 <= j < v@.len() ==> -COMP_BOUND <= #[trigger] v@[j] <= COMP_BOUND,
                    out@ == head + spec_encode_comps(v@, i as int),
                decreases v@.len() - i,
            {
                put_comp(&mut out, v[i]);
                proof {
                    assert(out@ =~= head + spec_encode_comps(v@, i as int + 1));
                }
                i = i + 1;
            }
        },
        Payload::Pq(c) => {
            let mut cc = c.clone();
            out.append(&mut cc);
        },
        Payload::Bq(w) => {
            let mut i: usize = 0;
            while i < w.len()
                invariant
                    0 <= i <= w@.len(),
                    out@ == head + spec_encode_words(w@, i as int),
                decreases w@.len() - i,
            {
                put_u64(&mut out, w[i]);
                proof {
                    assert(out@ =~= head + spec_encode_words(w@, i as int + 1));
                }
                i = i + 1;
            }
        },
    }
    proof {
        assert(spec_encode_comps(Seq::<i32>::empty(), 0) =~= Seq::<u8>::empty());
        assert(out@ =~= head + spec_encode_payload(n.payload@));
    }
    put_u16(&mut out, n.neighbors.len() as u16);
    let ghost head2 = out@;
    let r = m.get_num_neighbors() as usize;
    let mut i: usize = 0;
    while i < r
        invariant
            0 <= i <= r,
            out@ == head2 + spec_encode_slots(n.neighbors@, i as int),
        decreases r - i,
    {
        if i < n.neighbors.len() {
            let p = n.neighbors[i];
            put_u32(&mut out, p.block_number);
            put_u16(&mut out, p.offset);
        } else {
            put_u32(&mut out, INVALID_BLOCK_NUMBER);
            put_u16(&mut out, 0u16);
        }
        proof {
            assert(out@ =~= head2 + spec_encode_slots(n.neighbors@, i as int + 1));
        }
        i = i + 1;
    }
    proof {
        assert(out@ =~= spec_encode_node(n@, *m));
    }
    out
}

/// Decode a stored node; `None` exactly when the bytes do not decode as a
/// node of this metadata.
pub fn decode_node(bytes: &Vec<u8>, m: &MetaPage) -> (r: Option<Node>)
    requires
        m.wf(),
    ensures
        r is Some <==> spec_node_decodable(bytes@, *m),
        match r {
            Some(n) => n@ == spec_decode_node(bytes@, *m),
            None => true,
        },
{
    let cnt = payload_count(m);
    let pb = payload_byte_len(m);
    let nlen = node_len(m);
    if bytes.len() != nlen {
        return None;
    }
    let s = bytes.as_slice();
    let del_byte = bytes[6];
    if !(del_byte == 0 || del_byte == 1) {
        return None;
    }
    let kind: u8 = match m.get_storage_type() {
        StorageType::Plain => 0u8,
        StorageType::PqCompression => 1u8,
        StorageType::BqSpeedup => 2u8,
    };
    if bytes[7] != kind {
        return None;
    }
    if read_u16(s, 8) as usize != cnt {
        return None;
    }
    let heap_pointer = ItemPointer {
        block_number: read_u32(s, 0),
        offset: read_u16(s, 4),
    };
    let deleted = del_byte == 1;
    let ghost dp = spec_decode_payload(bytes@, *m);
    let payload: Payload;
    match m.get_storage_type() {
        StorageType::Plain => {
            let mut v: Vec<i32> = Vec::new();
            let mut i: usize = 0;
            while i < cnt
                invariant
                    0 <= i <= cnt,
                    cnt as int == spec_payload_count(*m),
                    cnt < 2000,
                    m.wf(),
                    m.spec_storage_type() == StorageType::Plain,
                    bytes@.len() == spec_node_len(*m),
                    s@ == bytes@,
                    v@.len() == i,
                    forall|j: int|
                        0 <= j < i ==> spec_u32_from_le_bytes(
                            #[trigger] bytes@.subrange(10 + 4 * j, 10 + 4 * j + 4),
                        ) <= 2 * COMP_BOUND,
                    forall|j: int|
                        0 <= j < i ==> #[trigger] v@[j] == spec_comp_from_le_bytes(
                            bytes@.subrange(10 + 4 * j, 10 + 4 * j + 4),
                        ),
                decreases cnt - i,
            {
                match read_comp(s, 10 + 4 * i) {
                    Some(c) => {
                        v.push(c);
                    },
                    None => {
                        return None;
                    },
                }
                i = i + 1;
            }
            proof {
                assert(dp matches PayloadV::Plain(pv) && v@ =~= pv);
            }
            payload = Payload::Plain(v);
        },
        StorageType::PqCompression => {
            let mut v: Vec<u8> = Vec::new();
            let mut i: usize = 0;
            while i < cnt
                invariant
                    0 <= i <= cnt,
                    cnt < 2000,
                    cnt + 10 <= bytes@.len(),
                    bytes@.len() < 16000,
                    s@ == bytes@,
                    v@.len() == i,
                    forall|j: int| 0 <= j < i ==> #[trigger] v@[j] == bytes@[10 + j],
                decreases cnt - i,
            {
                v.push(bytes[10 + i]);
                i = i + 1;
            }
            proof {
                assert(dp matches PayloadV::Pq(pv) && v@ =~= pv);
            }
            payload = Payload::Pq(v);
        },
        StorageType::BqSpeedup => {
            let mut v: Vec<u64> = Vec::new();
            let mut i: usize = 0;
            while i < cnt
                invariant
                    0 <= i <= cnt,
                    cnt as int == spec_payload_count(*m),
                    cnt < 2000,
                    m.wf(),
                    m.spec_storage_type() == StorageType::BqSpeedup,
                    bytes@.len() == spec_node_len(*m),
                    s@ == bytes@,
                    v@.len() == i,
                    forall|j: int|
                        0 <= j < i ==> #[trigger] v@[j] == spec_u64_from_le_bytes(
                            bytes@.subrange(10 + 8 * j, 10 + 8 * j + 8),
                        ),
                decreases cnt - i,
            {
                let wrd = read_u64(s, 10 + 8 * i);
                v.push(wrd);
                i = i + 1;
            }
            proof {
                assert(dp matches PayloadV::Bq(pv) && v@ =~= pv);
            }
            payload = Payload::Bq(v);
        },
    }
    let nbr_count = read_u16(s, 10 + pb) as usize;
    if nbr_count > m.get_num_neighbors() as usize {
        return None;
    }
    let mut neighbors: Vec<IndexPointer> = Vec::new();
    let mut i: usize = 0;
    while i < nbr_count
        invariant
            0 <= i <= nbr_count,
            nbr_count <= m.num_neighbors,
            m.wf(),
            pb as int == spec_payload_byte_len(*m),
            bytes@.len() == spec_node_len(*m),
            s@ == bytes@,
            neighbors@.len() == i,
            forall|j: int|
                0 <= j < i ==> #[trigger] neighbors@[j] == (ItemPointer {
                    block_number: spec_u32_from_le_bytes(
                        bytes@.subrange(12 + pb + 6 * j, 12 + pb + 6 * j + 4),
                    ),
                    offset: spec_u16_from_le_bytes(
                        bytes@.subrange(12 + pb + 6 * j + 4, 12 + pb + 6 * j + 6),
                    ),
                }),
        decreases nbr_count - i,
    {
        let block_number = read_u32(s, 12 + pb + 6 * i);
        let offset = read_u16(s, 12 + pb + 6 * i + 4);
        neighbors.push(ItemPointer { block_number, offset });
        i = i + 1;
    }
    let node = Node { heap_pointer, deleted, payload, neighbors };
    proof {
        assert(node@.neighbors =~= spec_decode_node(bytes@, *m).neighbors);
        assert(node@ == spec_decode_node(bytes@, *m));
    }
    Some(node)
}

// ---------------------------------------------------------------------
// Nodes in a relation
// ---------------------------------------------------------------------

/// `ip` addresses a decodable node on a node page.
pub open spec fn spec_node_at(rel: Relation, ip: ItemPointer, m: MetaPage) -> bool {
    &&& rel.valid_ip(ip)
    &&& rel.page_ty(ip.block_number as int) == PageType::Node
    &&& spec_node_decodable(rel.item_at(ip), m)
}

/// The node stored at `ip`.
pub open spec fn spec_stored_node(rel: Relation, ip: ItemPointer, m: MetaPage) -> NodeV {
    spec_decode_node(rel.item_at(ip), m)
}

impl Node {
    /// Read the node at `ip`.  Fails with `Storage` exactly when `ip` does
    /// not address a decodable node on a node page.
    pub fn read(rel: &Relation, ip: ItemPointer, m: &MetaPage) -> (r: Result<Node, IndexError>)
        requires
            m.wf(),
        ensures
            r is Ok <==> spec_node_at(*rel, ip, *m),
            match r {
                Ok(n) => n@ == spec_stored_node(*rel, ip, *m),
                Err(e) => e == IndexError::Storage,
            },
    {
        match rel.page_type(ip.block_number) {
            Some(PageType::Node) => {},
            _ => {
                return Err(IndexError::Storage);
            },
        }
        let bytes = match rel.get_item(ip) {
            Some(b) => b,
            None => {
                return Err(IndexError::Storage);
            },
        };
        match decode_node(&bytes, m) {
            Some(n) => Ok(n),
            None => Err(IndexError::Storage),
        }
    }

    /// Append this node through the tape.  The returned pointer is fresh
    /// and the stored bytes decode back to this node; nothing else moves.
    pub fn write(&self, tape: &mut Tape, rel: &mut Relation, m: &MetaPage) -> (r: ItemPointer)
        requires
            m.wf(),
            spec_node_wf(self@, *m),
            spec_node_fits(*m),
            old(tape).wf(*old(rel)),
            old(tape).spec_page_type() == PageType::Node,
            old(rel).num_pages() < 0xFFFF_FFFEu32,
        ensures
            final(tape).wf(*final(rel)),
            final(tape).spec_page_type() == PageType::Node,
            !old(rel).valid_ip(r),
            spec_node_at(*final(rel), r, *m),
            spec_stored_node(*final(rel), r, *m) == self@,
            final(rel).num_pages() >= old(rel).num_pages(),
            final(rel).num_pages() <= old(rel).num_pages() + 1,
            forall|p: int|
                0 <= p < old(rel).num_pages() ==> final(rel).page_ty(p) == old(rel).page_ty(p),
            forall|ip: ItemPointer|
                old(rel).valid_ip(ip) ==> #[trigger] final(rel).valid_ip(ip) && final(rel).item_at(
                    ip,
                ) == old(rel).item_at(ip),
            forall|ip: ItemPointer|
                #[trigger] final(rel).valid_ip(ip) ==> old(rel).valid_ip(ip) || ip == r,
    {
        let bytes = encode_node(self, m);
        proof {
            lemma_node_roundtrip(self@, *m);
        }
        tape.write(rel, &bytes)
    }

    /// Set the deleted bit of the node at `ip` in place, tombstoning the
    /// row it stands for.  The payload and slots are untouched; fails with
    /// `Storage` exactly when `ip` does not address a decodable node.
    pub fn mark_deleted(rel: &mut Relation, ip: ItemPointer, m: &MetaPage) -> (r: Result<
        (),
        IndexError,
    >)
        requires
            m.wf(),
        ensures
            r is Ok <==> spec_node_at(*old(rel), ip, *m),
            match r {
                Ok(()) => {
                    &&& final(rel).same_except(*old(rel), ip.block_number as int)
                    &&& final(rel).page_ty(ip.block_number as int) == old(rel).page_ty(
                        ip.block_number as int,
                    )
                    &&& forall|ip2: ItemPointer|
                        old(rel).valid_ip(ip2) <==> #[trigger] final(rel).valid_ip(ip2)
                    &&& forall|ip2: ItemPointer|
                        old(rel).valid_ip(ip2) && ip2 != ip ==> #[trigger] final(rel).item_at(ip2)
                            == old(rel).item_at(ip2)
                    &&& spec_node_at(*final(rel), ip, *m)
                    &&& spec_stored_node(*final(rel), ip, *m) == (NodeV {
                        deleted: true,
                        ..spec_stored_node(*old(rel), ip, *m)
                    })
                },
                Err(e) => {
                    &&& e == IndexError::Storage
                    &&& *final(rel) == *old(rel)
                },
            },
    {
        let node = match Self::read(rel, ip, m) {
            Ok(n) => n,
            Err(e) => {
                return Err(e);
            },
        };
        let ghost old_nv = node@;
        let Node { heap_pointer, deleted: _was, payload, neighbors } = node;
        let node2 = Node { heap_pointer, deleted: true, payload, neighbors };
        proof {
            assert(node2@ == (NodeV { deleted: true, ..old_nv }));
            lemma_payload_of_decodable(rel.item_at(ip), *m);
            lemma_node_roundtrip(node2@, *m);
        }
        let bytes = encode_node(&node2, m);
        let ok = rel.replace_item(ip, &bytes);
        proof {
            assert(ok);
            assert(rel.item_at(ip) == bytes@);
        }
        Ok(())
    }

    /// Rewrite the neighbour slots of the node at `ip` in place.  Fails
    /// with `Storage` exactly when `ip` does not address a decodable node.
    /// Nothing but that node's slots changes.
    pub fn update_neighbors(
        rel: &mut Relation,
        ip: ItemPointer,
        m: &MetaPage,
        neighbors: &Vec<IndexPointer>,
    ) -> (r: Result<(), IndexError>)
        requires
            m.wf(),
            neighbors@.len() <= m.num_neighbors,
        ensures
            r is Ok <==> spec_node_at(*old(rel), ip, *m),
            match r {
                Ok(()) => {
                    &&& final(rel).same_except(*old(rel), ip.block_number as int)
                    &&& final(rel).page_ty(ip.block_number as int) == old(rel).page_ty(
                        ip.block_number as int,
                    )
                    &&& final(rel).items(ip.block_number as int).len() == old(rel).items(
                        ip.block_number as int,
                    ).len()
                    &&& forall|ip2: ItemPointer|
                        old(rel).valid_ip(ip2) <==> #[trigger] final(rel).valid_ip(ip2)
                    &&& forall|ip2: ItemPointer|
                        old(rel).valid_ip(ip2) && ip2 != ip ==> #[trigger] final(rel).item_at(ip2)
                            == old(rel).item_at(ip2)
                    &&& spec_node_at(*final(rel), ip, *m)
                    &&& spec_stored_node(*final(rel), ip, *m) == (NodeV {
                        neighbors: neighbors@,
                        ..spec_stored_node(*old(rel), ip, *m)
                    })
                },
                Err(e) => {
                    &&& e == IndexError::Storage
                    &&& *final(rel) == *old(rel)
                },
            },
    {
        let node = match Self::read(rel, ip, m) {
            Ok(n) => n,
            Err(e) => {
                return Err(e);
            },
        };
        let ghost old_nv = node@;
        let Node { heap_pointer, deleted, payload, neighbors: _old_neighbors } = node;
        let node2 = Node { heap_pointer, deleted, payload, neighbors: neighbors.clone() };
        proof {
            assert(node2@ == (NodeV { neighbors: neighbors@, ..old_nv }));
            assert(spec_payload_wf(old_nv.payload, *m)) by {
                lemma_payload_of_decodable(rel.item_at(ip), *m);
            }
            lemma_node_roundtrip(node2@, *m);
        }
        let bytes = encode_node(&node2, m);
        let ok = rel.replace_item(ip, &bytes);
        proof {
            assert(ok);
            assert(final(rel).item_at(ip) == bytes@);
        }
        Ok(())
    }
}

/// The payload of decodable bytes is well formed for the metadata.
pub proof fn lemma_payload_of_decodable(s: Seq<u8>, m: MetaPage)
    requires
        spec_node_decodable(s, m),
    ensures
        spec_payload_wf(spec_decode_payload(s, m), m),
        spec_node_wf(spec_decode_node(s, m), m),
{
    lemma_le_bytes_autos();
    match m.spec_storage_type() {
        StorageType::Plain => {
        },
        StorageType::PqCompression => {
        },
        StorageType::BqSpeedup => {
        },
    }
}

/// Encode a component vector, 4 bytes per component.
pub fn encode_comps_vec(v: &Vec<i32>) -> (r: Vec<u8>)
    requires
        forall|i: int| 0 <= i < v@.len() ==> -COMP_BOUND <= #[trigger] v@[i] <= COMP_BOUND,
    ensures
        r@ == spec_encode_comps(v@, v@.len() as int),
        r@.len() == 4 * v@.len(),
{
    let mut out: Vec<u8> = Vec::new();
    let mut i: usize = 0;
    while i < v.len()
        invariant
            0 <= i <= v@.len(),
            out@ == spec_encode_comps(v@, i as int),
        decreases v@.len() - i,
    {
        put_comp(&mut out, v[i]);
        proof {
            assert(out@ =~= spec_encode_comps(v@, i as int + 1));
        }
        i = i + 1;
    }
    proof {
        lemma_encode_comps_len(v@, v@.len() as int);
    }
    out
}

/// Decode a component vector of `n` components; `None` exactly when the
/// length is wrong or a field is out of the component range.
pub fn decode_comps_vec(bytes: &Vec<u8>, n: usize) -> (r: Option<Vec<i32>>)
    requires
        n < 0x1000_0000,
    ensures
        match r {
            Some(v) => {
                &&& v@.len() == n
                &&& forall|i: int| 0 <= i < n ==> -COMP_BOUND <= #[trigger] v@[i] <= COMP_BOUND
                &&& spec_encode_comps(v@, n as int) == bytes@
            },
            None => true,
        },
        (exists|v: Seq<i32>|
            v.len() == n && #[trigger] spec_encode_comps(v, n as int) == bytes@ && (forall|i: int|
                0 <= i < v.len() ==> -COMP_BOUND <= #[trigger] v[i] <= COMP_BOUND)) ==> r is Some,
{
    proof {
        lemma_le_bytes_autos();
    }
    let ghost encodable = exists|v: Seq<i32>|
        v.len() == n && #[trigger] spec_encode_comps(v, n as int) == bytes@ && (forall|i: int|
            0 <= i < v.len() ==> -COMP_BOUND <= #[trigger] v[i] <= COMP_BOUND);
    if bytes.len() != 4 * n {
        proof {
            if encodable {
                let v = choose|v: Seq<i32>|
                    v.len() == n && #[trigger] spec_encode_comps(v, n as int) == bytes@ && (forall|
                        i: int,
                    |
                        0 <= i < v.len() ==> -COMP_BOUND <= #[trigger] v[i] <= COMP_BOUND);
                lemma_encode_comps_len(v, n as int);
            }
        }
        return None;
    }
    let s = bytes.as_slice();
    let mut out: Vec<i32> = Vec::new();
    let mut i: usize = 0;
    while i < n
        invariant
            0 <= i <= n,
            n < 0x1000_0000,
            bytes@.len() == 4 * n,
            s@ == bytes@,
            out@.len() == i,
            forall|j: int| 0 <= j < i ==> -COMP_BOUND <= #[trigger] out@[j] <= COMP_BOUND,
            forall|j: int|
                0 <= j < i ==> spec_comp_to_le_bytes(#[trigger] out@[j]) == bytes@.subrange(
                    4 * j,
                    4 * j + 4,
                ),
        decreases n - i,
    {
        match read_comp(s, 4 * i) {
            Some(c) => {
                proof {
                    lemma_le_bytes_autos();
                    assert(spec_comp_to_le_bytes(c) =~= bytes@.subrange(
                        4 * i as int,
                        4 * i as int + 4,
                    )) by {
                        assert(bytes@.subrange(4 * i as int, 4 * i as int + 4).len() == 4);
                    }
                }
                out.push(c);
            },
            None => {
                // A field is out of the component range, so no bounded
                // vector encodes to these bytes.
                proof {
                    if encodable {
                        let gi = i as int;
                        let v = choose|v: Seq<i32>|
                            v.len() == n && #[trigger] spec_encode_comps(v, n as int) == bytes@
                                && (forall|t: int|
                                0 <= t < v.len() ==> -COMP_BOUND <= #[trigger] v[t] <= COMP_BOUND);
                        lemma_encode_comps_index(v, n as int, gi);
                        lemma_comp_roundtrip(v[gi]);
                    }
                }
                return None;
            },
        }
        i = i + 1;
    }
    proof {
        assert forall|j: int| 0 <= j < n implies #[trigger] spec_encode_comps(out@, n as int).subrange(
            4 * j,
            4 * j + 4,
        ) == bytes@.subrange(4 * j, 4 * j + 4) by {
            lemma_encode_comps_index(out@, n as int, j);
        }
        lemma_encode_comps_len(out@, n as int);
        assert(spec_encode_comps(out@, n as int) =~= bytes@) by {
            assert forall|k: int| 0 <= k < 4 * n implies spec_encode_comps(out@, n as int)[k]
                == bytes@[k] by {
                let j = k / 4;
                assert(0 <= j < n && 4 * j <= k < 4 * j + 4);
                assert(spec_encode_comps(out@, n as int).subrange(4 * j, 4 * j + 4) == bytes@
                    .subrange(4 * j, 4 * j + 4));
                assert(spec_encode_comps(out@, n as int).subrange(4 * j, 4 * j + 4)[k - 4 * j]
                    == bytes@.subrange(4 * j, 4 * j + 4)[k - 4 * j]);
            }
        }
    }
    Some(out)
}

/// Component encoding is injective: equal encodings of equal length come
/// from equal vectors.
pub proof fn lemma_encode_comps_injective(a: Seq<i32>, b: Seq<i32>, n: int)
    requires
        a.len() == n,
        b.len() == n,
        forall|i: int| 0 <= i < n ==> -COMP_BOUND <= #[trigger] a[i] <= COMP_BOUND,
        forall|i: int| 0 <= i < n ==> -COMP_BOUND <= #[trigger] b[i] <= COMP_BOUND,
        spec_encode_comps(a, n) == spec_encode_comps(b, n),
    ensures
        a == b,
{
    assert forall|i: int| 0 <= i < n implies a[i] == b[i] by {
        lemma_encode_comps_index(a, n, i);
        lemma_encode_comps_index(b, n, i);
        lemma_comp_roundtrip(a[i]);
        lemma_comp_roundtrip(b[i]);
    }
    assert(a =~= b);
}

} // verus!
