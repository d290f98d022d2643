//! The storage variants an index can use for its node payloads, and the
//! uniform capability set the graph consumes: encode a vector into a
//! payload, rank a node against a query, and measure node-to-node
//! distances.  The discriminant lives in the metadata page; every
//! access-method call reads it first and threads the matching quantizer
//! through search, insert and finalize.

use vstd::prelude::*;
use crate::bq::{
    spec_bq_quantize, spec_hamming, hamming_distance, lemma_hamming_bounds, BqQuantizer,
};
use crate::distance::{distance_sq_at, wf_vector, MAX_SQ_DIFF};
use crate::meta_page::MetaPage;
use crate::node::{
    spec_node_at, spec_node_fits, spec_payload_wf, spec_stored_node, Node, Payload, PayloadV,
};
use crate::page::{PageType, Relation};
use crate::pq_quantizer::{PqQuantizer, PqSearchDistanceMeasure};
use crate::tape::Tape;
use crate::util::{HeapPointer, IndexPointer, ItemPointer};

verus! {

/// Which payload a node carries and which distances rank candidates.
#[derive(Clone, Copy, PartialEq, Eq, Structural, Debug)]
pub enum StorageType {
    /// Binary-quantized codes cached in-graph for ranking; full vectors
    /// fetched from the heap for re-ranking.
    BqSpeedup,
    /// Product-quantized codes against a per-segment codebook.
    PqCompression,
    /// Full fixed-point vectors.
    Plain,
}

/// The quantizer behind the metadata's storage variant: none for plain
/// storage, a trained product quantizer, or the binary quantizer's means.
pub enum Quantizer {
    Plain,
    Pq(PqQuantizer),
    Bq(BqQuantizer),
}

/// The quantizer fits the metadata: right variant, right geometry, and
/// trained where the variant needs it.
pub open spec fn spec_quantizer_wf(q: Quantizer, m: MetaPage) -> bool {
    &&& m.wf()
    &&& match q {
        Quantizer::Plain => m.spec_storage_type() == StorageType::Plain,
        Quantizer::Pq(pq) => {
            &&& m.spec_storage_type() == StorageType::PqCompression
            &&& pq.wf()
            &&& pq.trained
            &&& pq.dims == m.num_dimensions
            &&& pq.seg_len == m.pq_vector_length
        },
        Quantizer::Bq(bq) => {
            &&& m.spec_storage_type() == StorageType::BqSpeedup
            &&& bq.wf()
            &&& bq.dims == m.num_dimensions
        },
    }
}

/// `p` is the payload this quantizer stores for vector `v`.
pub open spec fn spec_payload_matches(q: Quantizer, m: MetaPage, v: Seq<i32>, p: PayloadV) -> bool {
    match (q, p) {
        (Quantizer::Plain, PayloadV::Plain(pv)) => pv == v,
        (Quantizer::Pq(pq), PayloadV::Pq(codes)) => {
            &&& codes.len() == pq.segments
            &&& forall|s: int|
                0 <= s < pq.segments ==> pq.spec_is_min_code(v, s, #[trigger] codes[s] as int)
        },
        (Quantizer::Bq(bq), PayloadV::Bq(w)) => w == spec_bq_quantize(v, bq.means@),
        _ => false,
    }
}

/// The storage-native distance between two node payloads: full squared
/// distance for plain storage, centroid distance for product quantization,
/// Hamming distance for binary quantization.
pub open spec fn spec_node_dist(q: Quantizer, m: MetaPage, a: PayloadV, b: PayloadV) -> int {
    match (q, a, b) {
        (Quantizer::Plain, PayloadV::Plain(x), PayloadV::Plain(y)) => crate::distance::spec_dist_sq(
            x,
            y,
        ),
        (Quantizer::Pq(pq), PayloadV::Pq(x), PayloadV::Pq(y)) => pq.spec_pq_node_dist(
            x,
            y,
            pq.segments as int,
        ),
        (Quantizer::Bq(bq), PayloadV::Bq(x), PayloadV::Bq(y)) => spec_hamming(
            x,
            y,
            bq.dims as int,
        ),
        _ => 0,
    }
}

/// The approximate distance a query's measure assigns to a node payload.
pub open spec fn spec_query_dist(q: Quantizer, m: MetaPage, query: Seq<i32>, p: PayloadV) -> int {
    match (q, p) {
        (Quantizer::Plain, PayloadV::Plain(v)) => crate::distance::spec_dist_sq(query, v),
        (Quantizer::Pq(pq), PayloadV::Pq(codes)) => pq.spec_pq_dist(
            query,
            codes,
            pq.segments as int,
        ),
        (Quantizer::Bq(bq), PayloadV::Bq(w)) => spec_hamming(
            spec_bq_quantize(query, bq.means@),
            w,
            bq.dims as int,
        ),
        _ => 0,
    }
}

/// Build the payload this storage keeps for a vector.
pub fn quantize_payload(q: &Quantizer, m: &MetaPage, v: &Vec<i32>) -> (r: Payload)
    requires
        spec_quantizer_wf(*q, *m),
        wf_vector(v@, m.num_dimensions as int),
    ensures
        spec_payload_matches(*q, *m, v@, r@),
        spec_payload_wf(r@, *m),
{
    match q {
        Quantizer::Plain => Payload::Plain(v.clone()),
        Quantizer::Pq(pq) => {
            proof {
                pq.lemma_geometry();
            }
            Payload::Pq(pq.quantize(v))
        },
        Quantizer::Bq(bq) => Payload::Bq(bq.quantize(v)),
    }
}

/// Storage-native distance between two stored payloads.
pub fn node_distance(q: &Quantizer, m: &MetaPage, a: &Payload, b: &Payload) -> (r: u64)
    requires
        spec_quantizer_wf(*q, *m),
        spec_payload_wf(a@, *m),
        spec_payload_wf(b@, *m),
    ensures
        r as int == spec_node_dist(*q, *m, a@, b@),
        r <= 2000 * MAX_SQ_DIFF,
{
    match (q, a, b) {
        (Quantizer::Plain, Payload::Plain(x), Payload::Plain(y)) => {
            let d = distance_sq_at(x, 0, y, 0, x.len());
            proof {
                assert(x@.subrange(0, x@.len() as int) =~= x@);
                assert(y@.subrange(0, y@.len() as int) =~= y@);
            }
            d
        },
        (Quantizer::Pq(pq), Payload::Pq(x), Payload::Pq(y)) => pq.node_distance(x, y),
        (Quantizer::Bq(bq), Payload::Bq(x), Payload::Bq(y)) => {
            proof {
                lemma_hamming_bounds(x@, y@, bq.dims as int);
            }
            hamming_distance(x, y, bq.dims)
        },
        _ => {
            proof {
                assert(false);
            }
            0
        },
    }
}

/// The state a query carries to rank plain payloads.
pub struct PlainDistanceMeasure {
    pub query: Vec<i32>,
}

/// The state a query carries to rank binary-quantized payloads: its own
/// code for the Hamming proxy, and the raw vector for re-ranking from the
/// heap.
pub struct BqSearchDistanceMeasure {
    pub code: Vec<u64>,
    pub query: Vec<i32>,
}

/// One query's prepared distance state, by storage variant.
pub enum SearchDistanceMeasure {
    Plain(PlainDistanceMeasure),
    Pq(PqSearchDistanceMeasure),
    Bq(BqSearchDistanceMeasure),
}

impl SearchDistanceMeasure {
    /// The query vector this measure was prepared from.
    pub open spec fn spec_query(self) -> Seq<i32> {
        match self {
            SearchDistanceMeasure::Plain(p) => p.query@,
            SearchDistanceMeasure::Pq(p) => p.query@,
            SearchDistanceMeasure::Bq(b) => b.query@,
        }
    }

    /// The measure matches its quantizer and holds a legal query.
    pub open spec fn wf(self, q: Quantizer, m: MetaPage) -> bool {
        &&& wf_vector(self.spec_query(), m.num_dimensions as int)
        &&& match (self, q) {
            (SearchDistanceMeasure::Plain(_), Quantizer::Plain) => true,
            (SearchDistanceMeasure::Pq(p), Quantizer::Pq(pq)) => p.wf(pq),
            (SearchDistanceMeasure::Bq(b), Quantizer::Bq(bq)) => b.code@ == spec_bq_quantize(
                b.query@,
                bq.means@,
            ),
            _ => false,
        }
    }

    /// Prepare a query's distance state: plain queries are kept as they
    /// are, product quantization precomputes its lookup table, binary
    /// quantization packs the query's code.
    pub fn prepare(q: &Quantizer, m: &MetaPage, query: &Vec<i32>) -> (r: Self)
        requires
            spec_quantizer_wf(*q, *m),
            wf_vector(query@, m.num_dimensions as int),
        ensures
            r.wf(*q, *m),
            r.spec_query() == query@,
    {
        match q {
            Quantizer::Plain => SearchDistanceMeasure::Plain(
                PlainDistanceMeasure { query: query.clone() },
            ),
            Quantizer::Pq(pq) => SearchDistanceMeasure::Pq(PqSearchDistanceMeasure::new(pq, query)),
            Quantizer::Bq(bq) => SearchDistanceMeasure::Bq(
                BqSearchDistanceMeasure { code: bq.quantize(query), query: query.clone() },
            ),
        }
    }

    /// Rank a stored payload against the query.
    pub fn distance_to_payload(&self, q: &Quantizer, m: &MetaPage, p: &Payload) -> (r: u64)
        requires
            spec_quantizer_wf(*q, *m),
            self.wf(*q, *m),
            spec_payload_wf(p@, *m),
        ensures
            r as int == spec_query_dist(*q, *m, self.spec_query(), p@),
            r <= 2000 * MAX_SQ_DIFF,
    {
        match (self, q, p) {
            (SearchDistanceMeasure::Plain(pm), Quantizer::Plain, Payload::Plain(v)) => {
                let d = distance_sq_at(&pm.query, 0, v, 0, v.len());
                proof {
                    assert(pm.query@.subrange(0, pm.query@.len() as int) =~= pm.query@);
                    assert(v@.subrange(0, v@.len() as int) =~= v@);
                }
                d
            },
            (SearchDistanceMeasure::Pq(t), Quantizer::Pq(pq), Payload::Pq(codes)) => t.distance(
                pq,
                codes,
            ),
            (SearchDistanceMeasure::Bq(b), Quantizer::Bq(bq), Payload::Bq(w)) => {
                proof {
                    lemma_hamming_bounds(b.code@, w@, bq.dims as int);
                }
                hamming_distance(&b.code, w, bq.dims)
            },
            _ => {
                proof {
                    assert(false);
                }
                0
            },
        }
    }
}

/// Encode a vector and append it as a fresh node with empty neighbour
/// slots.  Returns the node's stable pointer; nothing else moves.
pub fn create_node(
    q: &Quantizer,
    m: &MetaPage,
    full_vector: &Vec<i32>,
    heap_pointer: HeapPointer,
    tape: &mut Tape,
    rel: &mut Relation,
) -> (r: IndexPointer)
    requires
        spec_quantizer_wf(*q, *m),
        wf_vector(full_vector@, m.num_dimensions as int),
        spec_node_fits(*m),
        old(tape).wf(*old(rel)),
        old(tape).spec_page_type() == PageType::Node,
        old(rel).num_pages() < 0xFFFF_FFFEu32,
    ensures
        final(tape).wf(*final(rel)),
        final(tape).spec_page_type() == PageType::Node,
        !old(rel).valid_ip(r),
        spec_node_at(*final(rel), r, *m),
        spec_stored_node(*final(rel), r, *m).heap_pointer == heap_pointer,
        spec_stored_node(*final(rel), r, *m).deleted == false,
        spec_stored_node(*final(rel), r, *m).neighbors == Seq::<IndexPointer>::empty(),
        spec_payload_matches(*q, *m, full_vector@, spec_stored_node(*final(rel), r, *m).payload),
        spec_payload_wf(spec_stored_node(*final(rel), r, *m).payload, *m),
        final(rel).num_pages() >= old(rel).num_pages(),
        final(rel).num_pages() <= old(rel).num_pages() + 1,
        forall|p: int|
            0 <= p < old(rel).num_pages() ==> final(rel).page_ty(p) == old(rel).page_ty(p),
        forall|ip: ItemPointer|
            old(rel).valid_ip(ip) ==> #[trigger] final(rel).valid_ip(ip) && final(rel).item_at(ip)
                == old(rel).item_at(ip),
        forall|ip: ItemPointer|
            #[trigger] final(rel).valid_ip(ip) ==> old(rel).valid_ip(ip) || ip == r,
{
    let payload = quantize_payload(q, m, full_vector);
    let node = Node { heap_pointer, deleted: false, payload, neighbors: Vec::new() };
    proof {
        assert(node@.neighbors =~= Seq::<IndexPointer>::empty());
    }
    node.write(tape, rel, m)
}

} // verus!
