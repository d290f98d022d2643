//! The query scan: a streaming iterator over the graph that yields heap
//! pointers in approximate distance order, keeps a pin on the index page
//! of the last tuple it returned, and never yields a tombstoned row.

use vstd::prelude::*;
use crate::bq::{spec_bq_blob_ok, BqQuantizer};
use crate::disk_index_graph::DiskIndexGraph;
use crate::distance::wf_vector;
use crate::distance::{distance_sq_at, spec_dist_sq, wf_component};
use crate::graph::{
    sort_candidates, spec_graph_closed, spec_init_ip, spec_lsr_wf, spec_no_init,
    spec_search_complete, spec_seed_candidate, spec_sort, Graph, ListSearchResult,
};
use crate::neighbor_with_distance::{spec_sorted, NeighborWithDistance};
use crate::graph_neighbor_store::GraphNeighborStore;
use crate::meta_page::{spec_meta_of, spec_meta_ok, MetaPage};
use crate::page::Relation;
use crate::pq_quantizer::{spec_pq_blob_ok, PqQuantizer};
use crate::stats::{GreedySearchStats, InterruptFlag, QuantizerStats};
use crate::storage::{spec_quantizer_wf, Quantizer, SearchDistanceMeasure, StorageType};
use crate::node::spec_node_at;
use crate::node::spec_stored_node;
use crate::storage::spec_query_dist;
use crate::util::{HeapPointer, IndexError, ItemPointer};

verus! {

/// One in-flight scan: the search state, the list size it ranks by, how
/// many tuples it returned, the pinned block of the last returned index
/// page, and the metadata it was opened under.
pub struct TSVResponseIterator {
    pub lsr: ListSearchResult,
    pub sdm: SearchDistanceMeasure,
    pub search_list_size: usize,
    pub current: usize,
    pub last_buffer: Option<u32>,
    pub meta_page: MetaPage,
    pub quantizer_stats: QuantizerStats,
}

impl TSVResponseIterator {
    /// The iterator is truthful for this relation and quantizer.
    pub open spec fn wf(self, rel: Relation, q: Quantizer) -> bool {
        &&& spec_quantizer_wf(q, self.meta_page)
        &&& self.sdm.wf(q, self.meta_page)
        &&& spec_lsr_wf(self.lsr, rel, self.meta_page, q, self.sdm.spec_query())
    }

    /// Open a scan: prepare the query's distance state and seed the
    /// search from the init ids.
    pub fn new(
        q: &Quantizer,
        rel: &Relation,
        query: &Vec<i32>,
        search_list_size: usize,
        meta_page: &MetaPage,
        quantizer_stats: QuantizerStats,
    ) -> (r: Result<TSVResponseIterator, IndexError>)
        requires
            spec_quantizer_wf(*q, *meta_page),
            wf_vector(query@, meta_page.num_dimensions as int),
        ensures
            r is Ok <==> (spec_no_init(*meta_page) || spec_node_at(
                *rel,
                spec_init_ip(*meta_page),
                *meta_page,
            )),
            match r {
                Ok(it) => {
                    &&& it.wf(*rel, *q)
                    &&& it.meta_page == *meta_page
                    &&& it.search_list_size == search_list_size
                    &&& it.current == 0
                    &&& it.last_buffer is None
                    &&& it.sdm.spec_query() == query@
                    &&& it.lsr.cursor == 0
                    &&& it.lsr.candidates@.len() <= 1
                    &&& (spec_no_init(*meta_page) <==> it.lsr.candidates@.len() == 0)
                    &&& (it.lsr.candidates@.len() == 1 ==> it.lsr.candidates@[0]
                        == spec_seed_candidate(*rel, *meta_page, *q, query@))
                },
                Err(e) => e == IndexError::Storage,
            },
    {
        let sdm = SearchDistanceMeasure::prepare(q, meta_page, query);
        let graph = Graph::new(GraphNeighborStore::Disk(DiskIndexGraph::new()), meta_page);
        let lsr = match graph.greedy_search_streaming_init(rel, q, &sdm) {
            Ok(l) => l,
            Err(e) => {
                return Err(e);
            },
        };
        Ok(
            TSVResponseIterator {
                lsr,
                sdm,
                search_list_size,
                current: 0,
                last_buffer: None,
                meta_page: *meta_page,
                quantizer_stats,
            },
        )
    }

    /// The next live tuple in distance order.  A tombstoned heap pointer
    /// is never returned: the iterator silently advances past it.  While a
    /// tuple is out, the block of the index page holding it stays pinned;
    /// at the end of the scan the pin is dropped.
    pub fn next(&mut self, rel: &Relation, q: &Quantizer, interrupt: &mut InterruptFlag) -> (r:
        Result<Option<HeapPointer>, IndexError>)
        requires
            old(self).wf(*rel, *q),
        ensures
            final(self).wf(*rel, *q),
            final(self).meta_page == old(self).meta_page,
            final(self).search_list_size == old(self).search_list_size,
            final(self).sdm == old(self).sdm,
            final(self).lsr.cursor >= old(self).lsr.cursor,
            spec_search_complete(old(self).lsr, old(self).search_list_size as int) ==> final(self).lsr.candidates == old(self).lsr.candidates && final(self).lsr.inserted == old(self).lsr.inserted,
            forall|p: int|
                old(self).lsr.cursor <= p && p + 1 < final(self).lsr.cursor ==> (
                #[trigger] final(self).lsr.candidates@[p]).heap_pointer.spec_is_tombstone(),
            spec_graph_closed(*rel, old(self).meta_page) ==> (r is Ok || r == Result::<
                Option<HeapPointer>,
                IndexError,
            >::Err(IndexError::Interrupted)),
            r == Result::<Option<HeapPointer>, IndexError>::Err(IndexError::Interrupted)
                ==> final(interrupt).spec_countdown() == 0,
            match r {
                Ok(Some(h)) => {
                    &&& spec_search_complete(final(self).lsr, old(self).search_list_size as int)
                    &&& 1 <= final(self).lsr.cursor <= final(self).lsr.candidates@.len()
                    &&& final(self).lsr.cursor > old(self).lsr.cursor
                    &&& final(self).lsr.candidates@[final(self).lsr.cursor - 1].visited
                    &&& h == final(self).lsr.candidates@[final(self).lsr.cursor - 1].heap_pointer
                    &&& !h.spec_is_tombstone()
                    &&& final(self).last_buffer == Some(
                        final(self).lsr.candidates@[final(self).lsr.cursor - 1].index_pointer.block_number,
                    )
                    &&& forall|p: int|
                        0 <= p < final(self).lsr.cursor - 1 ==> (
                        #[trigger] final(self).lsr.candidates@[p]).distance <= final(self).lsr.candidates@[final(self).lsr.cursor - 1].distance
                },
                Ok(None) => {
                    &&& final(self).last_buffer is None
                    &&& spec_search_complete(final(self).lsr, old(self).search_list_size as int)
                    &&& (final(self).lsr.cursor == final(self).lsr.candidates@.len() || !final(self).lsr.candidates@[final(self).lsr.cursor as int].visited)
                },
                Err(e) => e == IndexError::Storage || e == IndexError::Interrupted || e
                    == IndexError::Invariant,
            },
    {
        let graph = Graph::new(
            GraphNeighborStore::Disk(DiskIndexGraph::new()),
            &self.meta_page,
        );
        let ghost l = self.search_list_size as int;
        loop
            invariant
                self.wf(*rel, *q),
                self.meta_page == old(self).meta_page,
                self.search_list_size == old(self).search_list_size,
                self.sdm == old(self).sdm,
                l == self.search_list_size as int,
                graph.meta_page == self.meta_page,
                graph.neighbor_store matches GraphNeighborStore::Disk(_),
                self.lsr.cursor >= old(self).lsr.cursor,
                spec_search_complete(old(self).lsr, l) ==> self.lsr.candidates == old(self).lsr.candidates && self.lsr.inserted == old(self).lsr.inserted,
                self.lsr.cursor > old(self).lsr.cursor ==> spec_search_complete(self.lsr, l),
                forall|p: int|
                    old(self).lsr.cursor <= p < self.lsr.cursor ==> (
                    #[trigger] self.lsr.candidates@[p]).visited && self.lsr.candidates@[
                        p
                    ].heap_pointer.spec_is_tombstone(),
            decreases interrupt.spec_countdown(),
        {
            if interrupt.check_for_interrupts() {
                return Err(IndexError::Interrupted);
            }
            let ghost lsr_pre = self.lsr;
            match graph.greedy_search_iterate(
                rel,
                &mut self.lsr,
                self.search_list_size,
                q,
                &self.sdm,
                interrupt,
            ) {
                Ok(()) => {},
                Err(e) => {
                    proof {
                        // An already finished search cannot make the
                        // expansion fail, so the cursor never moved and
                        // the list stood still.
                        if lsr_pre.cursor > old(self).lsr.cursor {
                            assert(spec_search_complete(lsr_pre, l));
                            assert(false);
                        }
                        if spec_search_complete(old(self).lsr, l) {
                            assert(lsr_pre.candidates == old(self).lsr.candidates);
                            assert(spec_search_complete(lsr_pre, l)) by {
                                assert(lsr_pre.candidates@ == old(self).lsr.candidates@);
                            }
                            assert(false);
                        }
                    }
                    return Err(e);
                },
            }
            match self.lsr.consume() {
                Some((heap_pointer, index_pointer)) => {
                    // An index scan must keep a pin on the index page
                    // holding the item it last returned; take the new pin
                    // before letting the old one go.
                    self.last_buffer = Some(index_pointer.block_number);
                    if self.current < usize::MAX {
                        self.current = self.current + 1;
                    }
                    if heap_pointer.is_tombstone() {
                        // A deleted tuple: advance without returning it.
                    } else {
                        return Ok(Some(heap_pointer));
                    }
                },
                None => {
                    self.last_buffer = None;
                    return Ok(None);
                },
            }
        }
    }
}


/// The candidates a re-rank works on: one entry per returned row, paired
/// with the exact squared distance from the query to its full vector.
pub open spec fn spec_rerank_candidates(
    query: Seq<i32>,
    results: Seq<(HeapPointer, Vec<i32>)>,
) -> Seq<NeighborWithDistance> {
    Seq::new(
        results.len(),
        |j: int| NeighborWithDistance {
            index_pointer: results[j].0,
            distance: spec_dist_sq(query, results[j].1@) as u64,
        },
    )
}

/// Re-rank scan results against their full vectors.  Binary quantization
/// ranks candidates by the Hamming proxy; the host fetches each returned
/// row's vector from the heap and hands the pairs back here for exact
/// ordering.  The result is the distance-sorted sequence of the rows'
/// heap pointers with their exact squared distances.
pub fn rerank_results(
    query: &Vec<i32>,
    results: &Vec<(HeapPointer, Vec<i32>)>,
) -> (r: Vec<NeighborWithDistance>)
    requires
        query@.len() < 2000,
        forall|i: int| 0 <= i < query@.len() ==> wf_component(#[trigger] query@[i] as int),
        forall|j: int|
            0 <= j < results@.len() ==> (#[trigger] results@[j]).1@.len() == query@.len()
                && forall|i: int|
                0 <= i < results@[j].1@.len() ==> wf_component(#[trigger] results@[j].1@[i] as int),
    ensures
        r@ == spec_sort(
            spec_rerank_candidates(query@, results@),
            results@.len() as int,
        ),
        r@.len() == results@.len(),
        spec_sorted(r@),
        forall|i: int|
            0 <= i < r@.len() ==> exists|j: int|
                0 <= j < results@.len() && #[trigger] r@[i] == spec_rerank_candidates(
                    query@,
                    results@,
                )[j],
{
    let ghost want = spec_rerank_candidates(query@, results@);
    let mut cands: Vec<NeighborWithDistance> = Vec::new();
    let n = results.len();
    let mut j: usize = 0;
    while j < n
        invariant
            0 <= j <= n,
            n == results@.len(),
            want == spec_rerank_candidates(query@, results@),
            query@.len() < 2000,
            forall|i: int| 0 <= i < query@.len() ==> wf_component(#[trigger] query@[i] as int),
            forall|t: int|
                0 <= t < results@.len() ==> (#[trigger] results@[t]).1@.len() == query@.len()
                    && forall|i: int|
                    0 <= i < results@[t].1@.len() ==> wf_component(
                        #[trigger] results@[t].1@[i] as int,
                    ),
            cands@ == want.take(j as int),
        decreases n - j,
    {
        let d = distance_sq_at(query, 0, &results[j].1, 0, query.len());
        proof {
            assert(query@.subrange(0, query@.len() as int) =~= query@);
            assert(results@[j as int].1@.subrange(0, query@.len() as int) =~= results@[
                j as int
            ].1@);
        }
        cands.push(NeighborWithDistance { index_pointer: results[j].0, distance: d });
        proof {
            assert(cands@ =~= want.take(j as int + 1));
        }
        j = j + 1;
    }
    proof {
        assert(want.take(n as int) =~= want);
    }
    let r = sort_candidates(&cands);
    proof {
        crate::graph::lemma_sort_preserves(
            want,
            want.len() as int,
            |c: NeighborWithDistance| exists|t: int| 0 <= t < want.len() && c == want[t],
        );
        assert forall|i: int| 0 <= i < r@.len() implies exists|t: int|
            0 <= t < results@.len() && #[trigger] r@[i] == spec_rerank_candidates(
                query@,
                results@,
            )[t] by {
            assert(exists|t: int| 0 <= t < want.len() && r@[i] == want[t]);
        }
    }
    r
}

/// The scan's storage-resolved state: the quantizer the metadata calls
/// for, paired with the iterator running over it.
pub enum StorageState {
    BqSpeedup(Quantizer, TSVResponseIterator),
    PqCompression(Quantizer, TSVResponseIterator),
    Plain(TSVResponseIterator),
}

/// A scan as the host sees it between its calls.
pub struct TSVScanState {
    pub storage: Option<StorageState>,
}

impl TSVScanState {
    /// The iterator a resolved scan runs; meaningful only while `storage`
    /// is set.
    pub open spec fn spec_iter(self) -> TSVResponseIterator {
        match self.storage {
            Some(StorageState::Plain(it)) => it,
            Some(StorageState::PqCompression(_, it)) => it,
            Some(StorageState::BqSpeedup(_, it)) => it,
            None => vstd::pervasive::arbitrary(),
        }
    }

    /// The two states resolve the same variant with the same quantizer.
    pub open spec fn spec_same_storage(a: TSVScanState, b: TSVScanState) -> bool {
        match (a.storage, b.storage) {
            (Some(StorageState::Plain(_)), Some(StorageState::Plain(_))) => true,
            (
                Some(StorageState::PqCompression(qa, _)),
                Some(StorageState::PqCompression(qb, _)),
            ) => qa == qb,
            (Some(StorageState::BqSpeedup(qa, _)), Some(StorageState::BqSpeedup(qb, _))) => qa
                == qb,
            (None, None) => true,
            _ => false,
        }
    }

    /// The resolved state is truthful for this relation.
    pub open spec fn wf(self, rel: Relation) -> bool {
        match self.storage {
            Some(StorageState::Plain(it)) => it.wf(rel, Quantizer::Plain),
            Some(StorageState::PqCompression(q, it)) => (q matches Quantizer::Pq(_)) && it.wf(
                rel,
                q,
            ),
            Some(StorageState::BqSpeedup(q, it)) => (q matches Quantizer::Bq(_)) && it.wf(rel, q),
            None => true,
        }
    }

    pub fn new() -> (r: Self)
        ensures
            r.storage is None,
    {
        TSVScanState { storage: None }
    }

    /// Resolve the metadata's storage variant, load its quantizer, and
    /// open the iterator.
    pub fn initialize(
        &mut self,
        rel: &mut Relation,
        query: &Vec<i32>,
        search_list_size: usize,
        interrupt: &mut InterruptFlag,
    ) -> (r: Result<(), IndexError>)
        ensures
            r is Ok ==> final(self).wf(*final(rel)) && final(self).storage is Some,
            r is Err ==> (r->Err_0 == IndexError::Storage || r->Err_0 == IndexError::Schema
                || r->Err_0 == IndexError::Interrupted),
            r == Result::<(), IndexError>::Err(IndexError::Interrupted) <==> old(
                interrupt,
            ).spec_countdown() == 0,
            r is Ok ==> spec_meta_ok(*final(rel)) && {
                let m = spec_meta_of(*final(rel));
                let it = final(self).spec_iter();
                &&& it.meta_page == m
                &&& it.search_list_size == search_list_size
                &&& it.current == 0
                &&& it.last_buffer is None
                &&& it.sdm.spec_query() == query@
                &&& it.lsr.cursor == 0
                &&& it.lsr.candidates@.len() <= 1
                &&& (spec_no_init(m) <==> it.lsr.candidates@.len() == 0)
                &&& match final(self).storage {
                    Some(StorageState::Plain(_)) => m.spec_storage_type() == StorageType::Plain,
                    Some(StorageState::PqCompression(qq, _)) => m.spec_storage_type()
                        == StorageType::PqCompression && (qq matches Quantizer::Pq(pq)
                        && spec_pq_blob_ok(*final(rel), m, pq.cb_view()) && pq.dims
                        == m.num_dimensions && pq.seg_len == m.pq_vector_length),
                    Some(StorageState::BqSpeedup(qq, _)) => m.spec_storage_type()
                        == StorageType::BqSpeedup && (qq matches Quantizer::Bq(bq)
                        && spec_bq_blob_ok(*final(rel), m, bq.means@) && bq.dims
                        == m.num_dimensions),
                    None => false,
                }
            },
            // A well-formed plain index with a legal query always opens.
            (old(interrupt).spec_countdown() > 0 && spec_meta_ok(*old(rel)) && spec_meta_of(*old(rel)).spec_storage_type()
                == StorageType::Plain && query@.len() == spec_meta_of(*old(rel)).num_dimensions
                && (forall|i: int|
                0 <= i < query@.len() ==> crate::distance::wf_component(#[trigger] query@[i] as int))
                && (spec_no_init(spec_meta_of(*old(rel))) || spec_node_at(
                *old(rel),
                spec_init_ip(spec_meta_of(*old(rel))),
                spec_meta_of(*old(rel)),
            ))) ==> r is Ok,
            // So does a binary-quantized one whose means blob is in place.
            (old(interrupt).spec_countdown() > 0 && spec_meta_ok(*old(rel)) && spec_meta_of(*old(rel)).spec_storage_type()
                == StorageType::BqSpeedup && query@.len() == spec_meta_of(*old(rel)).num_dimensions
                && (forall|i: int|
                0 <= i < query@.len() ==> crate::distance::wf_component(#[trigger] query@[i] as int))
                && (spec_no_init(spec_meta_of(*old(rel))) || spec_node_at(
                *old(rel),
                spec_init_ip(spec_meta_of(*old(rel))),
                spec_meta_of(*old(rel)),
            )) && !(spec_meta_of(*old(rel)).pq_block_number == 0 && spec_meta_of(
                *old(rel),
            ).pq_block_offset == 0) && (exists|means: Seq<i32>|
                means.len() == spec_meta_of(*old(rel)).num_dimensions && (forall|i: int|
                    0 <= i < means.len() ==> crate::distance::wf_component(
                        #[trigger] means[i] as int,
                    )) && #[trigger] spec_bq_blob_ok(*old(rel), spec_meta_of(*old(rel)), means)))
                ==> r is Ok,
            // And a product-quantized one whose codebook blob is in place.
            (old(interrupt).spec_countdown() > 0 && spec_meta_ok(*old(rel)) && spec_meta_of(*old(rel)).spec_storage_type()
                == StorageType::PqCompression && query@.len() == spec_meta_of(
                *old(rel),
            ).num_dimensions && (forall|i: int|
                0 <= i < query@.len() ==> crate::distance::wf_component(#[trigger] query@[i] as int))
                && (spec_no_init(spec_meta_of(*old(rel))) || spec_node_at(
                *old(rel),
                spec_init_ip(spec_meta_of(*old(rel))),
                spec_meta_of(*old(rel)),
            )) && !(spec_meta_of(*old(rel)).pq_block_number == 0 && spec_meta_of(
                *old(rel),
            ).pq_block_offset == 0) && (exists|cb: Seq<Seq<i32>>|
                cb.len() == 256 * (spec_meta_of(*old(rel)).num_dimensions as int / spec_meta_of(
                    *old(rel),
                ).pq_vector_length as int) && (forall|i: int|
                    0 <= i < cb.len() ==> (#[trigger] cb[i]).len() == spec_meta_of(
                        *old(rel),
                    ).pq_vector_length && forall|j: int|
                        0 <= j < cb[i].len() ==> crate::distance::wf_component(
                            #[trigger] cb[i][j] as int,
                        )) && #[trigger] spec_pq_blob_ok(*old(rel), spec_meta_of(*old(rel)), cb)))
                ==> r is Ok,
    {
        // Resolving the storage walks blob chains, so poll the host's
        // cancellation flag before starting.
        if interrupt.check_for_interrupts() {
            return Err(IndexError::Interrupted);
        }
        let meta_page = match MetaPage::fetch(rel) {
            Ok(m) => m,
            Err(e) => {
                return Err(e);
            },
        };
        if query.len() != meta_page.get_num_dimensions() as usize {
            return Err(IndexError::Schema);
        }
        if !crate::build_index::check_vector(query) {
            return Err(IndexError::Schema);
        }
        let mut stats = QuantizerStats::new();
        if !(matches!(meta_page.get_storage_type(), StorageType::Plain)) {
            // Loading a quantizer reads its blob chain once.
            stats.node_reads = 1;
        }
        let state = match meta_page.get_storage_type() {
            StorageType::Plain => {
                let q = Quantizer::Plain;
                let it = match TSVResponseIterator::new(
                    &q,
                    rel,
                    query,
                    search_list_size,
                    &meta_page,
                    stats,
                ) {
                    Ok(it) => it,
                    Err(e) => {
                        return Err(e);
                    },
                };
                StorageState::Plain(it)
            },
            StorageType::PqCompression => {
                let pq = match PqQuantizer::load(rel, &meta_page) {
                    Ok(p) => p,
                    Err(e) => {
                        return Err(e);
                    },
                };
                let q = Quantizer::Pq(pq);
                let it = match TSVResponseIterator::new(
                    &q,
                    rel,
                    query,
                    search_list_size,
                    &meta_page,
                    stats,
                ) {
                    Ok(it) => it,
                    Err(e) => {
                        return Err(e);
                    },
                };
                StorageState::PqCompression(q, it)
            },
            StorageType::BqSpeedup => {
                let bq = match BqQuantizer::load(rel, &meta_page) {
                    Ok(b) => b,
                    Err(e) => {
                        return Err(e);
                    },
                };
                let q = Quantizer::Bq(bq);
                let it = match TSVResponseIterator::new(
                    &q,
                    rel,
                    query,
                    search_list_size,
                    &meta_page,
                    stats,
                ) {
                    Ok(it) => it,
                    Err(e) => {
                        return Err(e);
                    },
                };
                StorageState::BqSpeedup(q, it)
            },
        };
        self.storage = Some(state);
        Ok(())
    }

    /// Fetch the next live tuple of the scan, as the host's per-tuple
    /// callback does.
    pub fn get_tuple(&mut self, rel: &Relation, interrupt: &mut InterruptFlag) -> (r: Result<
        Option<HeapPointer>,
        IndexError,
    >)
        requires
            old(self).wf(*rel),
            old(self).storage is Some,
        ensures
            final(self).wf(*rel),
            final(self).storage is Some,
            TSVScanState::spec_same_storage(*old(self), *final(self)),
            final(self).spec_iter().meta_page == old(self).spec_iter().meta_page,
            final(self).spec_iter().search_list_size == old(self).spec_iter().search_list_size,
            final(self).spec_iter().sdm == old(self).spec_iter().sdm,
            final(self).spec_iter().lsr.cursor >= old(self).spec_iter().lsr.cursor,
            spec_search_complete(
                old(self).spec_iter().lsr,
                old(self).spec_iter().search_list_size as int,
            ) ==> final(self).spec_iter().lsr.candidates == old(self).spec_iter().lsr.candidates,
            forall|p: int|
                old(self).spec_iter().lsr.cursor <= p && p + 1 < final(self).spec_iter().lsr.cursor ==> (
                #[trigger] final(self).spec_iter().lsr.candidates@[p]).heap_pointer.spec_is_tombstone(),
            spec_graph_closed(*rel, old(self).spec_iter().meta_page) ==> (r is Ok || r
                == Result::<Option<HeapPointer>, IndexError>::Err(IndexError::Interrupted)),
            r == Result::<Option<HeapPointer>, IndexError>::Err(IndexError::Interrupted)
                ==> final(interrupt).spec_countdown() == 0,
            match r {
                Ok(Some(h)) => {
                    let it = final(self).spec_iter();
                    &&& spec_search_complete(it.lsr, old(self).spec_iter().search_list_size as int)
                    &&& 1 <= it.lsr.cursor <= it.lsr.candidates@.len()
                    &&& it.lsr.cursor > old(self).spec_iter().lsr.cursor
                    &&& it.lsr.candidates@[it.lsr.cursor - 1].visited
                    &&& h == it.lsr.candidates@[it.lsr.cursor - 1].heap_pointer
                    &&& !h.spec_is_tombstone()
                    &&& it.last_buffer == Some(
                        it.lsr.candidates@[it.lsr.cursor - 1].index_pointer.block_number,
                    )
                    &&& forall|p: int|
                        0 <= p < it.lsr.cursor - 1 ==> (
                        #[trigger] it.lsr.candidates@[p]).distance <= it.lsr.candidates@[
                            it.lsr.cursor - 1
                        ].distance
                },
                Ok(None) => {
                    let it = final(self).spec_iter();
                    &&& it.last_buffer is None
                    &&& spec_search_complete(it.lsr, it.search_list_size as int)
                },
                Err(e) => e == IndexError::Storage || e == IndexError::Interrupted || e
                    == IndexError::Invariant,
            },
    {
        match &mut self.storage {
            Some(StorageState::Plain(it)) => it.next(rel, &Quantizer::Plain, interrupt),
            Some(StorageState::PqCompression(q, it)) => it.next(rel, q, interrupt),
            Some(StorageState::BqSpeedup(q, it)) => it.next(rel, q, interrupt),
            None => Ok(None),
        }
    }

    /// End the scan: drop the pin and hand the counters to the caller.
    pub fn end_scan(&mut self) -> (r: GreedySearchStats)
        ensures
            match final(self).storage {
                Some(StorageState::Plain(it)) => it.last_buffer is None,
                Some(StorageState::PqCompression(_, it)) => it.last_buffer is None,
                Some(StorageState::BqSpeedup(_, it)) => it.last_buffer is None,
                None => true,
            },
    {
        match &mut self.storage {
            Some(StorageState::Plain(it)) => {
                it.last_buffer = None;
                it.lsr.stats
            },
            Some(StorageState::PqCompression(_, it)) => {
                it.last_buffer = None;
                it.lsr.stats
            },
            Some(StorageState::BqSpeedup(_, it)) => {
                it.last_buffer = None;
                it.lsr.stats
            },
            None => GreedySearchStats::new(),
        }
    }
}

} // verus!
