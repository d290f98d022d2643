//! The build pipeline: validate the options before any page is written,
//! write the metadata page, train and persist the quantizer on a first
//! pass over the rows, create and insert a node per non-null row on the
//! second pass, and finalize the neighbour lists.  Also the single-row
//! insert the host calls after the index exists.

use vstd::prelude::*;
use crate::bq::BqQuantizer;
use crate::disk_index_graph::DiskIndexGraph;
use crate::distance::{wf_component, wf_vector, COMP_BOUND};
use crate::graph::{
    finalize_node_neighbors, spec_bg_wf, spec_graph_closed, spec_graph_finalized, Graph,
};
use crate::graph_neighbor_store::{BuilderGraph, GraphNeighborStore};
use crate::meta_page::{spec_meta_of, spec_meta_ok, spec_meta_v1_ok, MetaPage};
use crate::node::{node_fits, spec_node_at, spec_node_fits, spec_stored_node};
use crate::options::TSVIndexOptions;
use crate::page::{PageType, Relation};
use crate::pq_quantizer::PqQuantizer;
use crate::stats::InterruptFlag;
use crate::storage::{create_node, spec_quantizer_wf, Quantizer};
use crate::tape::Tape;
use crate::util::{HeapPointer, IndexError, IndexPointer, ItemPointer};

verus! {

/// The metadata a fetch of this relation yields: the stored body, or the
/// migrated old layout.
pub open spec fn spec_fetched_meta(rel: Relation) -> MetaPage {
    if spec_meta_ok(rel) {
        spec_meta_of(rel)
    } else {
        crate::meta_page::spec_decode_meta_v1(rel.items(0)[0]).spec_new_meta()
    }
}

/// The row either has no vector, or its vector has the index's dimension
/// count with every component in range.
pub open spec fn spec_row_ok(row: (HeapPointer, Option<Vec<i32>>), num_dimensions: u32) -> bool {
    row.1 is Some ==> (row.1->Some_0@.len() == num_dimensions && forall|j: int|
        0 <= j < row.1->Some_0@.len() ==> wf_component(#[trigger] row.1->Some_0@[j] as int))
}

/// Rows with a vector, as the heap scan hands them over.
pub open spec fn spec_count_nonnull(rows: Seq<(HeapPointer, Option<Vec<i32>>)>) -> int
    decreases rows.len(),
{
    if rows.len() == 0 {
        0
    } else {
        spec_count_nonnull(rows.drop_last()) + if rows.last().1 is Some {
            1int
        } else {
            0int
        }
    }
}

proof fn lemma_count_nonnull_nonneg(rows: Seq<(HeapPointer, Option<Vec<i32>>)>)
    ensures
        0 <= spec_count_nonnull(rows) <= rows.len(),
    decreases rows.len(),
{
    if rows.len() > 0 {
        lemma_count_nonnull_nonneg(rows.drop_last());
        assert(rows.drop_last().len() == rows.len() - 1);
    }
}

proof fn lemma_count_nonnull_step(rows: Seq<(HeapPointer, Option<Vec<i32>>)>, i: int)
    requires
        0 <= i < rows.len(),
    ensures
        spec_count_nonnull(rows.take(i + 1)) == spec_count_nonnull(rows.take(i)) + (
        if rows[i].1 is Some {
            1int
        } else {
            0int
        }),
{
    assert(rows.take(i + 1).drop_last() =~= rows.take(i));
}

/// Check that every component of a vector is inside the fixed-point
/// range.
pub fn check_vector(v: &Vec<i32>) -> (r: bool)
    ensures
        r == forall|i: int| 0 <= i < v@.len() ==> wf_component(#[trigger] v@[i] as int),
{
    let mut i: usize = 0;
    let n = v.len();
    while i < n
        invariant
            0 <= i <= n,
            n == v@.len(),
            forall|j: int| 0 <= j < i ==> wf_component(#[trigger] v@[j] as int),
        decreases n - i,
    {
        if v[i] < -COMP_BOUND || v[i] > COMP_BOUND {
            return false;
        }
        i = i + 1;
    }
    true
}

/// Every configuration rule a build enforces before touching a page: the
/// option checks, and that a node of this shape fits a page.
pub open spec fn spec_buildable(opt: TSVIndexOptions, num_dimensions: u32) -> bool {
    &&& opt.spec_valid(num_dimensions)
    &&& spec_node_fits(spec_meta_for(opt, num_dimensions))
}

/// The metadata a build of these options writes.
pub open spec fn spec_meta_for(opt: TSVIndexOptions, num_dimensions: u32) -> MetaPage {
    MetaPage {
        magic_number: crate::meta_page::TSV_MAGIC_NUMBER,
        version: crate::meta_page::TSV_VERSION,
        num_dimensions,
        num_neighbors: opt.num_neighbors,
        search_list_size: opt.search_list_size,
        max_alpha: opt.max_alpha,
        init_ids_block_number: 0,
        init_ids_offset: 0,
        use_pq: opt.use_pq,
        pq_vector_length: opt.pq_vector_length,
        pq_block_number: 0,
        pq_block_offset: 0,
        use_bq: opt.use_bq,
    }
}

/// Build an index over a heap scan's rows: reject bad options before any
/// page is written, write the metadata, train and persist the quantizer
/// where one is configured, insert a node per non-null row, and finalize.
/// Returns how many rows were indexed; null vectors are skipped silently.
#[verifier::rlimit(100)]
pub fn build_index(
    rel: &mut Relation,
    rows: &Vec<(HeapPointer, Option<Vec<i32>>)>,
    num_dimensions: u32,
    opt: &TSVIndexOptions,
    interrupt: &mut InterruptFlag,
) -> (r: Result<usize, IndexError>)
    requires
        old(rel).num_pages() == 0,
        rows@.len() < 0x1000_0000,
    ensures
        !spec_buildable(*opt, num_dimensions) ==> r == Result::<usize, IndexError>::Err(
            IndexError::Config,
        ) && *final(rel) == *old(rel),
        r is Ok ==> r->Ok_0 as int == spec_count_nonnull(rows@),
        r is Ok ==> spec_meta_ok(*final(rel)),
        r is Ok && r->Ok_0 > 0 ==> !(spec_meta_of(*final(rel)).init_ids_block_number == 0
            && spec_meta_of(*final(rel)).init_ids_offset == 0),
        r is Ok ==> exists|bg: BuilderGraph|
            #[trigger] spec_graph_finalized(bg, *final(rel), spec_meta_of(*final(rel)))
                && bg.spec_len() == r->Ok_0,
        r == Result::<usize, IndexError>::Err(IndexError::Interrupted) ==> final(interrupt).spec_countdown() == 0,
        r == Result::<usize, IndexError>::Err(IndexError::Schema) ==> !(forall|i: int|
            0 <= i < rows@.len() ==> spec_row_ok(#[trigger] rows@[i], num_dimensions)),
        r == Result::<usize, IndexError>::Err(IndexError::Training) ==> opt.use_pq
            && spec_count_nonnull(rows@) < 300,
        (spec_buildable(*opt, num_dimensions) && (forall|i: int|
            0 <= i < rows@.len() ==> spec_row_ok(#[trigger] rows@[i], num_dimensions)) && (
        opt.use_pq ==> spec_count_nonnull(rows@) >= 300)) ==> (r is Ok || r == Result::<
            usize,
            IndexError,
        >::Err(IndexError::Interrupted)),
{
    // Reject bad configurations before any page is written.
    match opt.validate(num_dimensions) {
        Ok(()) => {},
        Err(e) => {
            return Err(e);
        },
    }
    let ghost m0 = spec_meta_for(*opt, num_dimensions);
    let probe = MetaPage {
        magic_number: crate::meta_page::TSV_MAGIC_NUMBER,
        version: crate::meta_page::TSV_VERSION,
        num_dimensions,
        num_neighbors: opt.num_neighbors,
        search_list_size: opt.search_list_size,
        max_alpha: opt.max_alpha,
        init_ids_block_number: 0,
        init_ids_offset: 0,
        use_pq: opt.use_pq,
        pq_vector_length: opt.pq_vector_length,
        pq_block_number: 0,
        pq_block_offset: 0,
        use_bq: opt.use_bq,
    };
    if !node_fits(&probe) {
        return Err(IndexError::Config);
    }
    let mut meta = MetaPage::create(rel, num_dimensions, opt);
    // First pass: train the quantizer, if the storage uses one.
    let quantizer: Quantizer;
    if opt.use_pq {
        let mut pq = PqQuantizer::new();
        pq.start_training(&meta);
        let n = rows.len();
        let mut i: usize = 0;
        while i < n
            invariant
                0 <= i <= n,
                n == rows@.len(),
                pq.wf(),
                !pq.trained,
                pq.dims == meta.num_dimensions,
                pq.seg_len == meta.pq_vector_length,
                meta.wf(),
                meta.use_pq,
                meta.num_dimensions == num_dimensions,
                meta.num_dimensions > 0,
                pq.samples@.len() as int == (if spec_count_nonnull(rows@.take(i as int)) <= 4096 {
                    spec_count_nonnull(rows@.take(i as int))
                } else {
                    4096int
                }),
            decreases n - i,
        {
            let row = &rows[i];
            proof {
                lemma_count_nonnull_step(rows@, i as int);
            }
            match &row.1 {
                Some(v) => {
                    if v.len() != meta.get_num_dimensions() as usize || !check_vector(v) {
                        proof {
                            assert(!spec_row_ok(rows@[i as int], num_dimensions));
                        }
                        return Err(IndexError::Schema);
                    }
                    pq.add_sample(v);
                },
                None => {},
            }
            i = i + 1;
        }
        proof {
            assert(rows@.take(n as int) =~= rows@);
            lemma_count_nonnull_nonneg(rows@);
        }
        match pq.finish_training() {
            Ok(()) => {},
            Err(e) => {
                return Err(e);
            },
        }
        match pq.write_metadata(rel) {
            Ok(()) => {},
            Err(e) => {
                return Err(e);
            },
        }
        meta = match MetaPage::fetch(rel) {
            Ok(m) => m,
            Err(e) => {
                return Err(e);
            },
        };
        if meta.get_num_dimensions() != pq.dims || meta.pq_vector_length != pq.seg_len
            || !meta.use_pq {
            return Err(IndexError::Invariant);
        }
        quantizer = Quantizer::Pq(pq);
    } else if opt.use_bq {
        let mut bq = BqQuantizer::new();
        bq.start_training(&meta);
        let n = rows.len();
        let mut i: usize = 0;
        while i < n
            invariant
                0 <= i <= n,
                n == rows@.len(),
                n < 0x1000_0000,
                bq.wf(),
                bq.count <= i,
                bq.dims == meta.num_dimensions,
                meta.wf(),
                meta.use_bq,
                meta.num_dimensions == num_dimensions,
                meta.num_dimensions > 0,
            decreases n - i,
        {
            let row = &rows[i];
            match &row.1 {
                Some(v) => {
                    if v.len() != meta.get_num_dimensions() as usize || !check_vector(v) {
                        proof {
                            assert(!spec_row_ok(rows@[i as int], num_dimensions));
                        }
                        return Err(IndexError::Schema);
                    }
                    bq.add_sample(v);
                },
                None => {},
            }
            i = i + 1;
        }
        bq.finish_training();
        match bq.write_metadata(rel) {
            Ok(()) => {},
            Err(e) => {
                return Err(e);
            },
        }
        meta = match MetaPage::fetch(rel) {
            Ok(m) => m,
            Err(e) => {
                return Err(e);
            },
        };
        if meta.get_num_dimensions() != bq.dims || !meta.use_bq {
            return Err(IndexError::Invariant);
        }
        quantizer = Quantizer::Bq(bq);
    } else {
        quantizer = Quantizer::Plain;
    }
    if !node_fits(&meta) {
        return Err(IndexError::Invariant);
    }
    if rel.page_count() >= 0xD000_0000usize {
        return Err(IndexError::Storage);
    }
    // Second pass: one node per non-null row, inserted with incremental
    // pruning; the first node becomes the init id.
    let ghost pages0 = rel.num_pages();
    let mut tape = Tape::new(rel, PageType::Node);
    let mut graph = Graph::new(
        GraphNeighborStore::Builder(BuilderGraph::new()),
        &meta,
    );
    let mut ntuples: usize = 0;
    let n = rows.len();
    let mut i: usize = 0;
    let ghost cap = meta.spec_max_neighbors_during_build();
    while i < n
        invariant
            0 <= i <= n,
            n == rows@.len(),
            n < 0x1000_0000,
            ntuples as int == spec_count_nonnull(rows@.take(i as int)),
            ntuples <= i,
            meta.wf(),
            spec_quantizer_wf(quantizer, meta),
            spec_node_fits(meta),
            cap == meta.spec_max_neighbors_during_build(),
            graph.wf(),
            graph.meta_page == meta,
            meta.num_dimensions == num_dimensions,
            graph.neighbor_store matches GraphNeighborStore::Builder(_),
            match graph.neighbor_store {
                GraphNeighborStore::Builder(bg) => spec_bg_wf(bg, *rel, meta, cap),
                GraphNeighborStore::Disk(_) => false,
            },
            match graph.neighbor_store {
                GraphNeighborStore::Builder(bg) => bg.spec_len() == ntuples,
                GraphNeighborStore::Disk(_) => false,
            },
            match graph.neighbor_store {
                GraphNeighborStore::Builder(bg) => !crate::graph::spec_no_init(meta)
                    ==> bg.spec_contains(crate::graph::spec_init_ip(meta)),
                GraphNeighborStore::Disk(_) => false,
            },
            tape.wf(*rel),
            tape.spec_page_type() == PageType::Node,
            pages0 < 0xD000_0000,
            rel.num_pages() <= pages0 + 1 + i,
            spec_meta_ok(*rel),
            spec_meta_of(*rel) == meta,
            ntuples > 0 ==> !(meta.init_ids_block_number == 0 && meta.init_ids_offset == 0),
        decreases n - i,
    {
        if interrupt.check_for_interrupts() {
            return Err(IndexError::Interrupted);
        }
        let row = &rows[i];
        match &row.1 {
            Some(v) => {
                if v.len() != meta.get_num_dimensions() as usize || !check_vector(v) {
                    proof {
                        assert(!spec_row_ok(rows@[i as int], num_dimensions));
                    }
                    return Err(IndexError::Schema);
                }
                proof {
                    lemma_count_nonnull_step(rows@, i as int);
                }
                let ghost rel_before = *rel;
                let ip = create_node(&quantizer, &meta, v, row.0, &mut tape, rel);
                proof {
                    match &graph.neighbor_store {
                        GraphNeighborStore::Builder(bg) => {
                            assert forall|ipx: IndexPointer| #[trigger] bg.spec_contains(
                                ipx,
                            ) implies spec_node_at(*rel, ipx, meta) && spec_node_at(
                                rel_before,
                                ipx,
                                meta,
                            ) && spec_stored_node(*rel, ipx, meta)
                                == spec_stored_node(rel_before, ipx, meta) by {
                                assert(rel_before.valid_ip(ipx));
                                assert(rel.valid_ip(ipx));
                                assert(rel.item_at(ipx) == rel_before.item_at(ipx));
                            }
                            assert(spec_bg_wf(*bg, *rel, meta, cap));
                        },
                        GraphNeighborStore::Disk(_) => {},
                    }
                    let ip01 = ItemPointer { block_number: 0u32, offset: 1u16 };
                    let ip02 = ItemPointer { block_number: 0u32, offset: 2u16 };
                    assert(rel_before.valid_ip(ip01) && rel_before.valid_ip(ip02));
                    assert(rel.valid_ip(ip01) && rel.item_at(ip01) == rel_before.item_at(ip01));
                    assert(rel.valid_ip(ip02) && rel.item_at(ip02) == rel_before.item_at(ip02));
                    assert(rel.page_ty(0) == rel_before.page_ty(0));
                    assert(spec_meta_ok(*rel));
                    assert(spec_meta_of(*rel) == spec_meta_of(rel_before));
                }
                // Register the node, then give it its neighbourhood; the
                // first node becomes the sole init id.
                match &mut graph.neighbor_store {
                    GraphNeighborStore::Builder(bg) => {
                        let ghost bgb = *bg;
                        proof {
                            assert(!bgb.spec_contains(ip)) by {
                                if bgb.spec_contains(ip) {
                                    assert(spec_node_at(rel_before, ip, meta));
                                }
                            }
                        }
                        bg.set(ip, Vec::new());
                        proof {
                            if !crate::graph::spec_no_init(meta) {
                                assert(bgb.spec_contains(crate::graph::spec_init_ip(meta)));
                                assert(spec_node_at(
                                    rel_before,
                                    crate::graph::spec_init_ip(meta),
                                    meta,
                                ));
                                assert(crate::graph::spec_init_ip(meta) != ip);
                                assert(bg.spec_contains(crate::graph::spec_init_ip(meta)));
                            }
                        }
                        proof {
                            assert forall|ipx: IndexPointer| #[trigger] bg.spec_contains(
                                ipx,
                            ) implies {
                                let l = bg.spec_neighbors_of(ipx);
                                &&& spec_node_at(*rel, ipx, meta)
                                &&& l.len() <= cap
                                &&& crate::neighbor_with_distance::spec_distinct_ips(l)
                                &&& forall|j: int|
                                    0 <= j < l.len() ==> (#[trigger] l[j]).index_pointer != ipx
                                        && bg.spec_contains(l[j].index_pointer)
                            } by {
                                if ipx == ip {
                                    assert(bg.spec_neighbors_of(ip).len() == 0);
                                } else {
                                    assert(bgb.spec_contains(ipx));
                                    assert(bg.spec_neighbors_of(ipx) == bgb.spec_neighbors_of(
                                        ipx,
                                    ));
                                }
                            }
                        }
                    },
                    GraphNeighborStore::Disk(_) => {
                        return Err(IndexError::Invariant);
                    },
                }
                if ntuples == 0 {
                    let mut ids: Vec<IndexPointer> = Vec::new();
                    ids.push(ip);
                    let ghost rel_pre = *rel;
                    match MetaPage::update_init_ids(rel, &ids) {
                        Ok(()) => {},
                        Err(e) => {
                            return Err(e);
                        },
                    }
                    let ghost meta_old = meta;
                    meta = MetaPage {
                        init_ids_block_number: ip.block_number,
                        init_ids_offset: ip.offset,
                        ..meta
                    };
                    graph.meta_page = meta;
                    proof {
                        assert(ip.block_number != 0);
                        assert(spec_meta_of(*rel) == meta);
                        assert(spec_quantizer_wf(quantizer, meta));
                        assert(spec_node_fits(meta));
                        assert(meta.spec_max_neighbors_during_build() == cap);
                        match &graph.neighbor_store {
                            GraphNeighborStore::Builder(bg) => {
                                assert forall|ipx: IndexPointer| #[trigger] bg.spec_contains(
                                    ipx,
                                ) implies spec_node_at(*rel, ipx, meta)
                                    && spec_stored_node(*rel, ipx, meta)
                                    == spec_stored_node(rel_pre, ipx, meta_old) by {
                                    assert(spec_node_at(rel_pre, ipx, meta_old));
                                    assert(ipx.block_number != 0);
                                    assert(rel.item_at(ipx) == rel_pre.item_at(ipx));
                                    assert(crate::node::spec_node_decodable(
                                        rel.item_at(ipx),
                                        meta,
                                    ));
                                }
                                assert(spec_bg_wf(*bg, *rel, meta, cap));
                            },
                            GraphNeighborStore::Disk(_) => {},
                        }
                    }
                }
                match graph.insert(rel, ip, v, &quantizer, interrupt) {
                    Ok(()) => {},
                    Err(e) => {
                        return Err(e);
                    },
                }
                ntuples = ntuples + 1;
            },
            None => {
                proof {
                    lemma_count_nonnull_step(rows@, i as int);
                }
            },
        }
        i = i + 1;
    }
    proof {
        assert(rows@.take(n as int) =~= rows@);
    }
    // Finalize: write the builder's neighbour lists into the nodes' slots.
    let ghost rel_pre_fin = *rel;
    let Graph { neighbor_store, meta_page: _mp } = graph;
    let ghost mut gbg: BuilderGraph;
    match neighbor_store {
        GraphNeighborStore::Builder(bg) => {
            proof {
                gbg = bg;
            }
            match finalize_node_neighbors(&bg, rel, &quantizer, &meta) {
                Ok(_stats) => {},
                Err(e) => {
                    return Err(e);
                },
            }
            if bg.num_nodes() != ntuples {
                return Err(IndexError::Invariant);
            }
        },
        GraphNeighborStore::Disk(_) => {
            return Err(IndexError::Invariant);
        },
    }
    proof {
        let ip01 = ItemPointer { block_number: 0u32, offset: 1u16 };
        let ip02 = ItemPointer { block_number: 0u32, offset: 2u16 };
        assert(rel_pre_fin.valid_ip(ip01) && rel_pre_fin.valid_ip(ip02));
        assert(rel.valid_ip(ip01) && rel.valid_ip(ip02));
        assert(rel_pre_fin.page_ty(0) != PageType::Node);
        assert(rel.item_at(ip01) == rel_pre_fin.item_at(ip01));
        assert(rel.item_at(ip02) == rel_pre_fin.item_at(ip02));
        assert(rel.page_ty(0) == rel_pre_fin.page_ty(0));
        assert(spec_meta_ok(*rel));
        assert(spec_meta_of(*rel) == meta);
        assert(spec_graph_finalized(gbg, *rel, spec_meta_of(*rel)));
    }
    Ok(ntuples)
}

/// Insert one row into an existing index, as the host's per-row insert
/// callback does.  A null vector is skipped and reported unindexed.
#[verifier::rlimit(100)]
pub fn insert_row(
    rel: &mut Relation,
    vector: &Option<Vec<i32>>,
    heap_pointer: HeapPointer,
    interrupt: &mut InterruptFlag,
) -> (r: Result<bool, IndexError>)
    requires
        old(rel).num_pages() > 0,
    ensures
        r is Ok ==> (r->Ok_0 <==> vector is Some),
        r == Result::<bool, IndexError>::Err(IndexError::Schema) <==> ((spec_meta_ok(*old(rel))
            || spec_meta_v1_ok(*old(rel))) && vector is Some && !(vector->Some_0@.len()
            == spec_fetched_meta(*old(rel)).num_dimensions && (forall|i: int|
            0 <= i < vector->Some_0@.len() ==> wf_component(
                #[trigger] vector->Some_0@[i] as int,
            )))),
        r == Result::<bool, IndexError>::Err(IndexError::Interrupted) ==> final(interrupt).spec_countdown() == 0,
        (spec_meta_ok(*old(rel)) && vector is Some && vector->Some_0@.len() == spec_meta_of(
            *old(rel),
        ).num_dimensions && (forall|i: int|
            0 <= i < vector->Some_0@.len() ==> wf_component(#[trigger] vector->Some_0@[i] as int))
            && spec_node_fits(spec_meta_of(*old(rel))) && old(rel).num_pages() < 0xE000_0000u32
            && spec_graph_closed(*old(rel), spec_meta_of(*old(rel))) && (crate::graph::spec_no_init(
            spec_meta_of(*old(rel)),
        ) || spec_node_at(
            *old(rel),
            crate::graph::spec_init_ip(spec_meta_of(*old(rel))),
            spec_meta_of(*old(rel)),
        )) && match spec_meta_of(*old(rel)).spec_storage_type() {
            crate::storage::StorageType::Plain => true,
            crate::storage::StorageType::BqSpeedup => !(spec_meta_of(*old(rel)).pq_block_number
                == 0 && spec_meta_of(*old(rel)).pq_block_offset == 0) && (exists|means: Seq<i32>|
                means.len() == spec_meta_of(*old(rel)).num_dimensions && (forall|i: int|
                    0 <= i < means.len() ==> wf_component(#[trigger] means[i] as int))
                    && #[trigger] crate::bq::spec_bq_blob_ok(
                    *old(rel),
                    spec_meta_of(*old(rel)),
                    means,
                )),
            crate::storage::StorageType::PqCompression => !(spec_meta_of(*old(rel)).pq_block_number
                == 0 && spec_meta_of(*old(rel)).pq_block_offset == 0) && (exists|
                cb: Seq<Seq<i32>>,
            |
                cb.len() == 256 * (spec_meta_of(*old(rel)).num_dimensions as int / spec_meta_of(
                    *old(rel),
                ).pq_vector_length as int) && (forall|i: int|
                    0 <= i < cb.len() ==> (#[trigger] cb[i]).len() == spec_meta_of(
                        *old(rel),
                    ).pq_vector_length && forall|j: int|
                        0 <= j < cb[i].len() ==> wf_component(#[trigger] cb[i][j] as int))
                    && #[trigger] crate::pq_quantizer::spec_pq_blob_ok(
                    *old(rel),
                    spec_meta_of(*old(rel)),
                    cb,
                )),
        }) ==> (r is Ok || r == Result::<bool, IndexError>::Err(IndexError::Interrupted)),
        r == Result::<bool, IndexError>::Ok(true) ==> spec_meta_ok(*final(rel))
            && !crate::graph::spec_no_init(spec_meta_of(*final(rel))) && exists|ip: IndexPointer|
            #![trigger spec_node_at(*final(rel), ip, spec_meta_of(*final(rel)))]
            {
                &&& spec_node_at(*final(rel), ip, spec_meta_of(*final(rel)))
                &&& spec_stored_node(
                    *final(rel),
                    ip,
                    spec_meta_of(*final(rel)),
                ).heap_pointer == heap_pointer
                &&& !spec_stored_node(
                    *final(rel),
                    ip,
                    spec_meta_of(*final(rel)),
                ).deleted
                &&& exists|qz: Quantizer|
                    spec_quantizer_wf(qz, spec_meta_of(*final(rel)))
                        && crate::storage::spec_payload_matches(
                        qz,
                        spec_meta_of(*final(rel)),
                        vector->Some_0@,
                        spec_stored_node(
                            *final(rel),
                            ip,
                            spec_meta_of(*final(rel)),
                        ).payload,
                    )
            },
{
    let v = match vector {
        Some(v) => v,
        None => {
            return Ok(false);
        },
    };
    let meta = match MetaPage::fetch(rel) {
        Ok(m) => m,
        Err(e) => {
            return Err(e);
        },
    };
    if v.len() != meta.get_num_dimensions() as usize || !check_vector(v) {
        return Err(IndexError::Schema);
    }
    let quantizer: Quantizer = match meta.get_storage_type() {
        crate::storage::StorageType::Plain => Quantizer::Plain,
        crate::storage::StorageType::PqCompression => {
            match PqQuantizer::load(rel, &meta) {
                Ok(pq) => Quantizer::Pq(pq),
                Err(e) => {
                    return Err(e);
                },
            }
        },
        crate::storage::StorageType::BqSpeedup => {
            match BqQuantizer::load(rel, &meta) {
                Ok(bq) => Quantizer::Bq(bq),
                Err(e) => {
                    return Err(e);
                },
            }
        },
    };
    if !node_fits(&meta) {
        return Err(IndexError::Storage);
    }
    if rel.page_count() >= 0xF000_0000usize {
        return Err(IndexError::Storage);
    }
    let ghost rel_f = *rel;
    let mut tape = Tape::new(rel, PageType::Node);
    let ghost rel_t = *rel;
    let ip = create_node(&quantizer, &meta, v, heap_pointer, &mut tape, rel);
    proof {
        let ip01 = ItemPointer { block_number: 0u32, offset: 1u16 };
        let ip02 = ItemPointer { block_number: 0u32, offset: 2u16 };
        assert(rel_f.valid_ip(ip01) && rel_f.valid_ip(ip02));
        assert(rel_t.valid_ip(ip01) && rel_t.item_at(ip01) == rel_f.item_at(ip01));
        assert(rel_t.valid_ip(ip02) && rel_t.item_at(ip02) == rel_f.item_at(ip02));
        assert(rel.valid_ip(ip01));
        assert(rel.item_at(ip01) == rel_t.item_at(ip01));
        assert(rel.valid_ip(ip02));
        assert(rel.item_at(ip02) == rel_t.item_at(ip02));
        assert(rel.page_ty(0) == rel_f.page_ty(0));
        assert(spec_meta_ok(*rel));
        assert(spec_meta_of(*rel) == meta);
    }
    let ghost rel_c = *rel;
    proof {
        // Re-anchor the stage frames on the snapshots for the closedness
        // argument below.
        assert forall|ip2: ItemPointer| rel_t.valid_ip(ip2) implies #[trigger] rel_c.valid_ip(ip2)
            && rel_c.item_at(ip2) == rel_t.item_at(ip2) by {}
        assert forall|ip2: ItemPointer| #[trigger] rel_c.valid_ip(ip2) implies rel_t.valid_ip(ip2)
            || ip2 == ip by {}
        assert forall|p: int|
            0 <= p < rel_t.num_pages() implies #[trigger] rel_c.page_ty(p) == rel_t.page_ty(
            p,
        ) by {}
        assert forall|ip2: ItemPointer| rel_f.valid_ip(ip2) implies #[trigger] rel_t.valid_ip(ip2)
            && rel_t.item_at(ip2) == rel_f.item_at(ip2) by {}
        assert forall|ip2: ItemPointer| #[trigger] rel_t.valid_ip(ip2) implies rel_f.valid_ip(
            ip2,
        ) by {
            if ip2.block_number as int == rel_f.num_pages() {
                assert(rel_t.items(rel_f.num_pages()) =~= Seq::<Seq<u8>>::empty());
            }
        }
        assert forall|p: int|
            0 <= p < rel_f.num_pages() implies #[trigger] rel_t.page_ty(p) == rel_f.page_ty(
            p,
        ) by {}
    }
    // The first row ever inserted becomes the init id.
    let meta2: MetaPage;
    if matches!(meta.get_init_ids(), Option::<Vec<IndexPointer>>::None) {
        let mut ids: Vec<IndexPointer> = Vec::new();
        ids.push(ip);
        match MetaPage::update_init_ids(rel, &ids) {
            Ok(()) => {},
            Err(e) => {
                return Err(e);
            },
        }
        meta2 = MetaPage {
            init_ids_block_number: ip.block_number,
            init_ids_offset: ip.offset,
            ..meta
        };
    } else {
        meta2 = meta;
    }
    proof {
        assert(spec_meta_of(*rel) == meta2);
        assert(meta2.wf());
        assert(spec_quantizer_wf(quantizer, meta2));
    }
    proof {
        assert forall|ip2: ItemPointer|
            rel_c.valid_ip(ip2) && ip2.block_number != 0 implies #[trigger] rel.valid_ip(ip2)
                && rel.item_at(ip2) == rel_c.item_at(ip2) && rel.page_ty(
                ip2.block_number as int,
            ) == rel_c.page_ty(ip2.block_number as int) by {}
        assert forall|ip2: ItemPointer|
            #[trigger] rel.valid_ip(ip2) implies rel_c.valid_ip(ip2) by {}
    }
    let mut graph = Graph::new(GraphNeighborStore::Disk(DiskIndexGraph::new()), &meta2);
    let ghost rel_pre_ins = *rel;
    proof {
        assert(spec_node_at(*rel, ip, meta2)) by {
            assert(ip.block_number != 0);
        }
        if spec_graph_closed(*old(rel), meta) && spec_meta_ok(*old(rel)) && (
        crate::graph::spec_no_init(meta) || spec_node_at(
            *old(rel),
            crate::graph::spec_init_ip(meta),
            meta,
        )) {
            // The search stays seeded: either the ids were just set to the
            // new node, or they already named a stored node.
            assert(crate::graph::spec_no_init(meta2) || spec_node_at(
                rel_pre_ins,
                crate::graph::spec_init_ip(meta2),
                meta2,
            )) by {
                if !crate::graph::spec_no_init(meta2) {
                    if crate::graph::spec_init_ip(meta2) == ip {
                        assert(spec_node_at(rel_pre_ins, ip, meta2));
                    } else {
                        assert(meta2 == meta);
                        let it = crate::graph::spec_init_ip(meta2);
                        assert(spec_node_at(*old(rel), it, meta));
                        assert(it.block_number != 0);
                        assert(rel_f.valid_ip(it));
                        assert(rel_t.valid_ip(it));
                        assert(rel_t.item_at(it) == rel_f.item_at(it));
                        assert(rel_c.valid_ip(it));
                        assert(rel_c.item_at(it) == rel_t.item_at(it));
                        assert(rel_pre_ins.valid_ip(it));
                        assert(rel_pre_ins.item_at(it) == rel_c.item_at(it));
                        assert(rel_pre_ins.page_ty(it.block_number as int) == rel_f.page_ty(
                            it.block_number as int,
                        ));
                        assert(spec_node_at(rel_pre_ins, it, meta2));
                    }
                }
            }
        }
        if spec_graph_closed(*old(rel), meta) && spec_meta_ok(*old(rel)) {
            // Closedness survives node creation (the new node has no
            // neighbours) and the init-id update (page 0 holds no nodes).
            assert(spec_graph_closed(rel_pre_ins, meta2)) by {
                assert forall|ipx: IndexPointer| #[trigger] spec_node_at(
                    rel_pre_ins,
                    ipx,
                    meta2,
                ) implies forall|j: int|
                    0 <= j < spec_stored_node(rel_pre_ins, ipx, meta2).neighbors.len()
                        ==> spec_node_at(
                        rel_pre_ins,
                        #[trigger] spec_stored_node(rel_pre_ins, ipx, meta2).neighbors[j],
                        meta2,
                    ) by {
                    if ipx == ip {
                        assert(spec_stored_node(rel_pre_ins, ipx, meta2).neighbors.len() == 0);
                    } else {
                        assert(rel_pre_ins.valid_ip(ipx));
                        assert(ipx.block_number != 0);
                        assert(rel_c.valid_ip(ipx));
                        assert(rel_pre_ins.item_at(ipx) == rel_c.item_at(ipx));
                        assert(rel_t.valid_ip(ipx));
                        assert(rel_f.valid_ip(ipx)) by {
                            assert(rel_t.items(rel_f.num_pages()) =~= Seq::<Seq<u8>>::empty());
                        }
                        assert(rel_c.item_at(ipx) == rel_t.item_at(ipx));
                        assert(rel_t.item_at(ipx) == rel_f.item_at(ipx));
                        assert(rel_pre_ins.page_ty(ipx.block_number as int) == rel_f.page_ty(
                            ipx.block_number as int,
                        ));
                        assert(spec_node_at(*old(rel), ipx, meta));
                        assert(spec_stored_node(*old(rel), ipx, meta) == spec_stored_node(
                            rel_pre_ins,
                            ipx,
                            meta2,
                        ));
                        assert forall|j: int|
                            0 <= j < spec_stored_node(rel_pre_ins, ipx, meta2).neighbors.len()
                                implies spec_node_at(
                            rel_pre_ins,
                            #[trigger] spec_stored_node(rel_pre_ins, ipx, meta2).neighbors[j],
                            meta2,
                        ) by {
                            let nb = spec_stored_node(*old(rel), ipx, meta).neighbors[j];
                            assert(spec_node_at(*old(rel), nb, meta));
                            assert(nb.block_number != 0);
                            assert(rel_f.valid_ip(nb));
                            assert(rel_t.valid_ip(nb));
                            assert(rel_t.item_at(nb) == rel_f.item_at(nb));
                            assert(rel_c.valid_ip(nb));
                            assert(rel_c.item_at(nb) == rel_t.item_at(nb));
                            assert(rel_pre_ins.valid_ip(nb));
                            assert(rel_pre_ins.item_at(nb) == rel_c.item_at(nb));
                            assert(rel_pre_ins.page_ty(nb.block_number as int) == rel_f.page_ty(
                                nb.block_number as int,
                            ));
                        }
                    }
                }
            }
        }
    }
    match graph.insert(rel, ip, v, &quantizer, interrupt) {
        Ok(()) => {
            proof {
                let m2 = spec_meta_of(*rel);
                assert(m2 == meta2);
                assert(!crate::graph::spec_no_init(m2));
                assert(spec_node_at(*rel, ip, m2));
                assert(spec_stored_node(*rel, ip, m2).heap_pointer == heap_pointer);
                assert(!spec_stored_node(*rel, ip, m2).deleted);
                assert(crate::storage::spec_payload_matches(
                    quantizer,
                    m2,
                    v@,
                    spec_stored_node(*rel, ip, m2).payload,
                ));
                assert(spec_quantizer_wf(quantizer, m2));
                assert(exists|qz: Quantizer|
                    spec_quantizer_wf(qz, m2) && crate::storage::spec_payload_matches(
                        qz,
                        m2,
                        v@,
                        spec_stored_node(*rel, ip, m2).payload,
                    )) by {
                    assert(spec_quantizer_wf(quantizer, m2)
                        && crate::storage::spec_payload_matches(
                        quantizer,
                        m2,
                        v@,
                        spec_stored_node(*rel, ip, m2).payload,
                    ));
                }
            }
            Ok(true)
        },
        Err(e) => Err(e),
    }
}

/// Building an empty shell index is not supported; the host gets a fatal
/// configuration error.
pub fn build_empty(_rel: &Relation) -> (r: Result<(), IndexError>)
    ensures
        r == Result::<(), IndexError>::Err(IndexError::Config),
{
    Err(IndexError::Config)
}

} // verus!
