//! The proximity-graph core: greedy beam search over the candidate list,
//! the robust-prune rule that keeps neighbour lists short and spread, the
//! incremental insert with back-edges, and the end-of-build finalize that
//! writes the builder's lists into the nodes' pages.

use vstd::prelude::*;
use crate::graph_neighbor_store::{BuilderGraph, GraphNeighborStore};
use crate::meta_page::{spec_meta_of, spec_meta_ok, MetaPage};
use crate::neighbor_with_distance::{
    lemma_le_trans, spec_distinct_ips, spec_sorted, NeighborWithDistance,
};
use crate::node::{spec_node_at, spec_stored_node, Node, NodeV};
use crate::page::{PageType, Relation};
use crate::stats::{GreedySearchStats, InterruptFlag, WriteStats};
use crate::storage::{
    node_distance, spec_quantizer_wf, spec_query_dist, Quantizer, SearchDistanceMeasure,
};
use crate::util::{HeapPointer, IndexError, IndexPointer, ItemPointer};

verus! {

/// Something that can report the neighbour pointers it stores.
pub trait NodeNeighbor {
    /// The stored neighbour list.
    spec fn neighbors_view(&self) -> Seq<IndexPointer>;

    fn get_index_pointer_to_neighbors(&self) -> (r: Vec<ItemPointer>)
        ensures
            r@ == self.neighbors_view(),
    ;
}

impl NodeNeighbor for Node {
    open spec fn neighbors_view(&self) -> Seq<IndexPointer> {
        self.neighbors@
    }

    fn get_index_pointer_to_neighbors(&self) -> (r: Vec<ItemPointer>)
    {
        self.neighbors.clone()
    }
}

/// `x` placed at its position in an already sorted sequence: after every
/// entry that precedes or equals it, before the first that must follow.
pub open spec fn spec_sorted_insert(
    s: Seq<NeighborWithDistance>,
    x: NeighborWithDistance,
) -> Seq<NeighborWithDistance>
    decreases s.len(),
{
    if s.len() == 0 {
        seq![x]
    } else if s[0].spec_le(x) {
        seq![s[0]] + spec_sorted_insert(s.drop_first(), x)
    } else {
        seq![x] + s
    }
}

/// The first `t` candidates, insertion-sorted by distance with the pointer
/// as tie-break.  The comparator is total, so the result is a function of
/// the input.
pub open spec fn spec_sort(input: Seq<NeighborWithDistance>, t: int) -> Seq<NeighborWithDistance>
    decreases t,
{
    if t <= 0 {
        Seq::empty()
    } else {
        spec_sorted_insert(spec_sort(input, t - 1), input[t - 1])
    }
}

/// Inserting at the first position whose entry must follow `x` is what
/// `spec_sorted_insert` does.
proof fn lemma_sorted_insert_at(s: Seq<NeighborWithDistance>, x: NeighborWithDistance, pos: int)
    requires
        spec_sorted(s),
        0 <= pos <= s.len(),
        forall|k: int| 0 <= k < pos ==> (#[trigger] s[k]).spec_le(x),
        pos < s.len() ==> !s[pos].spec_le(x),
    ensures
        spec_sorted_insert(s, x) == s.insert(pos, x),
    decreases s.len(),
{
    if s.len() == 0 {
        assert(spec_sorted_insert(s, x) =~= s.insert(0, x));
    } else if s[0].spec_le(x) {
        assert(pos >= 1);
        let s2 = s.drop_first();
        assert(spec_sorted(s2)) by {
            assert(forall|i: int, j: int|
                0 <= i < j < s2.len() ==> s2[i] == s[i + 1] && s2[j] == s[j + 1]);
        }
        lemma_sorted_insert_at(s2, x, pos - 1);
        assert(seq![s[0]] + s2.insert(pos - 1, x) =~= s.insert(pos, x));
    } else {
        assert(pos == 0);
        assert(seq![x] + s =~= s.insert(0, x));
    }
}

/// A pointwise property of the input holds of everything the sort yields.
proof fn lemma_sorted_insert_preserves(
    s: Seq<NeighborWithDistance>,
    x: NeighborWithDistance,
    p: spec_fn(NeighborWithDistance) -> bool,
)
    requires
        forall|i: int| 0 <= i < s.len() ==> p(#[trigger] s[i]),
        p(x),
    ensures
        forall|i: int|
            0 <= i < spec_sorted_insert(s, x).len() ==> p(#[trigger] spec_sorted_insert(s, x)[i]),
    decreases s.len(),
{
    if s.len() > 0 && s[0].spec_le(x) {
        let s2 = s.drop_first();
        lemma_sorted_insert_preserves(s2, x, p);
        assert forall|i: int| 0 <= i < spec_sorted_insert(s, x).len() implies p(
            #[trigger] spec_sorted_insert(s, x)[i],
        ) by {
            if i > 0 {
                assert(spec_sorted_insert(s, x)[i] == spec_sorted_insert(s2, x)[i - 1]);
            }
        }
    }
}

/// A pointwise property of the input holds of everything `spec_sort`
/// yields.
pub proof fn lemma_sort_preserves(
    input: Seq<NeighborWithDistance>,
    t: int,
    p: spec_fn(NeighborWithDistance) -> bool,
)
    requires
        forall|i: int| 0 <= i < input.len() ==> p(#[trigger] input[i]),
        t <= input.len(),
    ensures
        forall|i: int| 0 <= i < spec_sort(input, t).len() ==> p(#[trigger] spec_sort(input, t)[i]),
    decreases t,
{
    if t > 0 {
        lemma_sort_preserves(input, t - 1, p);
        lemma_sorted_insert_preserves(spec_sort(input, t - 1), input[t - 1], p);
    }
}

/// Sort candidates ascending by distance, pointer as tie-break.  The
/// result is exactly `spec_sort` of the input and starts with its nearest
/// candidate.
pub fn sort_candidates(input: &Vec<NeighborWithDistance>) -> (r: Vec<NeighborWithDistance>)
    ensures
        r@ == spec_sort(input@, input@.len() as int),
        r@.len() == input@.len(),
        spec_sorted(r@),
        input@.len() > 0 ==> forall|j: int|
            0 <= j < input@.len() ==> r@[0].spec_le(#[trigger] input@[j]),
{
    let mut r: Vec<NeighborWithDistance> = Vec::new();
    let n = input.len();
    let mut t: usize = 0;
    while t < n
        invariant
            0 <= t <= n,
            n == input@.len(),
            r@.len() == t,
            r@ == spec_sort(input@, t as int),
            spec_sorted(r@),
            t > 0 ==> forall|j: int| 0 <= j < t ==> r@[0].spec_le(#[trigger] input@[j]),
        decreases n - t,
    {
        let elem = input[t];
        // Find the first position whose entry must come after `elem`.
        let mut pos: usize = 0;
        while pos < r.len() && r[pos].le(&elem)
            invariant
                0 <= pos <= r@.len(),
                spec_sorted(r@),
                forall|k: int| 0 <= k < pos ==> (#[trigger] r@[k]).spec_le(elem),
            decreases r@.len() - pos,
        {
            pos = pos + 1;
        }
        let ghost r0 = r@;
        r.insert(pos, elem);
        proof {
            assert(r@ == r0.insert(pos as int, elem));
            lemma_sorted_insert_at(r0, elem, pos as int);
            assert forall|i: int, j: int| 0 <= i < j < r@.len() implies (
            #[trigger] r@[i]).spec_le(#[trigger] r@[j]) by {
                if (pos as int) < r0.len() {
                    crate::neighbor_with_distance::lemma_le_total(r0[pos as int], elem);
                }
                if i == pos && j > pos {
                    if (pos as int) < j - 1 {
                        lemma_le_trans(elem, r0[pos as int], r0[j - 1]);
                    }
                }
            }
            assert forall|j: int| 0 <= j < t + 1 implies r@[0].spec_le(#[trigger] input@[j]) by {
                if pos == 0 {
                    assert(r@[0] == elem);
                    if j < t {
                        assert(elem.spec_le(r0[0]));
                        lemma_le_trans(elem, r0[0], input@[j]);
                    }
                } else {
                    assert(r@[0] == r0[0]);
                    if j == t {
                        assert(r0[0].spec_le(elem));
                    }
                }
            }
        }
        t = t + 1;
    }
    r
}

/// Whether a pointer already occurs in a candidate list.
pub fn ip_in_list(list: &Vec<NeighborWithDistance>, ip: IndexPointer) -> (r: bool)
    ensures
        r == exists|i: int| 0 <= i < list@.len() && (#[trigger] list@[i]).index_pointer == ip,
{
    let mut i: usize = 0;
    let n = list.len();
    while i < n
        invariant
            0 <= i <= n,
            n == list@.len(),
            forall|j: int| 0 <= j < i ==> (#[trigger] list@[j]).index_pointer != ip,
        decreases n - i,
    {
        if list[i].get_index_pointer_to_neighbor() == ip {
            return true;
        }
        i = i + 1;
    }
    false
}

/// `acc` already names this pointer.
pub open spec fn spec_acc_has_ip(acc: Seq<NeighborWithDistance>, ip: IndexPointer) -> bool {
    exists|i: int| 0 <= i < acc.len() && (#[trigger] acc[i]).index_pointer == ip
}

/// A kept neighbour alpha-dominates the candidate: scaled by alpha (in
/// hundredths), some kept node lies at most as far from the candidate as
/// the candidate lies from the node being pruned for.
pub open spec fn spec_dominated(
    rel: Relation,
    q: Quantizer,
    m: MetaPage,
    acc: Seq<NeighborWithDistance>,
    c: NeighborWithDistance,
    alpha_x100: int,
) -> bool {
    exists|k: int|
        0 <= k < acc.len() && alpha_x100 * crate::storage::spec_node_dist(
            q,
            m,
            spec_stored_node(rel, (#[trigger] acc[k]).index_pointer, m).payload,
            spec_stored_node(rel, c.index_pointer, m).payload,
        ) <= 100 * (c.distance as int)
}

/// The alpha-prune selection from position `i` of the sorted candidates,
/// with `acc` already kept.
pub open spec fn spec_prune_from(
    rel: Relation,
    q: Quantizer,
    m: MetaPage,
    sorted: Seq<NeighborWithDistance>,
    alpha_x100: int,
    target: int,
    i: int,
    acc: Seq<NeighborWithDistance>,
) -> Seq<NeighborWithDistance>
    decreases sorted.len() - i,
{
    if i < 0 || i >= sorted.len() || acc.len() >= target {
        acc
    } else {
        let c = sorted[i];
        if spec_acc_has_ip(acc, c.index_pointer) || spec_dominated(rel, q, m, acc, c, alpha_x100) {
            spec_prune_from(rel, q, m, sorted, alpha_x100, target, i + 1, acc)
        } else {
            spec_prune_from(rel, q, m, sorted, alpha_x100, target, i + 1, acc.push(c))
        }
    }
}

/// A pointwise property of the kept set and the sorted candidates holds of
/// everything the selection yields.
pub proof fn lemma_prune_from_preserves(
    rel: Relation,
    q: Quantizer,
    m: MetaPage,
    sorted: Seq<NeighborWithDistance>,
    alpha_x100: int,
    target: int,
    i: int,
    acc: Seq<NeighborWithDistance>,
    p: spec_fn(NeighborWithDistance) -> bool,
)
    requires
        forall|k: int| 0 <= k < acc.len() ==> p(#[trigger] acc[k]),
        forall|k: int| 0 <= k < sorted.len() ==> p(#[trigger] sorted[k]),
    ensures
        forall|k: int|
            0 <= k < spec_prune_from(rel, q, m, sorted, alpha_x100, target, i, acc).len() ==> p(
                #[trigger] spec_prune_from(rel, q, m, sorted, alpha_x100, target, i, acc)[k],
            ),
    decreases sorted.len() - i,
{
    if i < 0 || i >= sorted.len() || acc.len() >= target {
        assert(spec_prune_from(rel, q, m, sorted, alpha_x100, target, i, acc) == acc);
    } else {
        let c = sorted[i];
        assert(p(c));
        if spec_acc_has_ip(acc, c.index_pointer) || spec_dominated(rel, q, m, acc, c, alpha_x100) {
            lemma_prune_from_preserves(rel, q, m, sorted, alpha_x100, target, i + 1, acc, p);
            assert(spec_prune_from(rel, q, m, sorted, alpha_x100, target, i, acc)
                == spec_prune_from(rel, q, m, sorted, alpha_x100, target, i + 1, acc));
        } else {
            let acc2 = acc.push(c);
            assert(forall|k: int| 0 <= k < acc2.len() ==> p(#[trigger] acc2[k]));
            lemma_prune_from_preserves(rel, q, m, sorted, alpha_x100, target, i + 1, acc2, p);
            assert(spec_prune_from(rel, q, m, sorted, alpha_x100, target, i, acc)
                == spec_prune_from(rel, q, m, sorted, alpha_x100, target, i + 1, acc2));
        }
    }
}

/// A pointwise property of the candidates holds of everything robust
/// pruning keeps.
pub proof fn lemma_robust_prune_preserves(
    rel: Relation,
    q: Quantizer,
    m: MetaPage,
    candidates: Seq<NeighborWithDistance>,
    alpha_x100: int,
    target: int,
    p: spec_fn(NeighborWithDistance) -> bool,
)
    requires
        forall|k: int| 0 <= k < candidates.len() ==> p(#[trigger] candidates[k]),
    ensures
        forall|k: int|
            0 <= k < spec_robust_prune(rel, q, m, candidates, alpha_x100, target).len() ==> p(
                #[trigger] spec_robust_prune(rel, q, m, candidates, alpha_x100, target)[k],
            ),
{
    lemma_sort_preserves(candidates, candidates.len() as int, p);
    lemma_prune_from_preserves(
        rel,
        q,
        m,
        spec_sort(candidates, candidates.len() as int),
        alpha_x100,
        target,
        0,
        Seq::empty(),
        p,
    );
}

/// What robust pruning returns: the alpha-prune selection over the sorted
/// candidates, starting empty.
pub open spec fn spec_robust_prune(
    rel: Relation,
    q: Quantizer,
    m: MetaPage,
    candidates: Seq<NeighborWithDistance>,
    alpha_x100: int,
    target: int,
) -> Seq<NeighborWithDistance> {
    spec_prune_from(
        rel,
        q,
        m,
        spec_sort(candidates, candidates.len() as int),
        alpha_x100,
        target,
        0,
        Seq::empty(),
    )
}

/// The robust-prune (alpha-prune) rule: walk the candidates nearest
/// first; keep one unless a kept neighbour alpha-dominates it; stop at the
/// target size.  The rule is deterministic, so the result is the
/// spec-level selection itself: sorted, duplicate free, within the target,
/// and always keeping the nearest candidate.  Every candidate must name a
/// stored node, and the call then always succeeds.
#[verifier::rlimit(100)]
pub fn robust_prune(
    rel: &Relation,
    q: &Quantizer,
    m: &MetaPage,
    candidates: &Vec<NeighborWithDistance>,
    max_alpha_x100: u32,
    target: usize,
) -> (r: Result<Vec<NeighborWithDistance>, IndexError>)
    requires
        spec_quantizer_wf(*q, *m),
        max_alpha_x100 >= 100,
        forall|i: int|
            0 <= i < candidates@.len() ==> spec_node_at(
                *rel,
                (#[trigger] candidates@[i]).index_pointer,
                *m,
            ),
    ensures
        r is Ok,
        match r {
            Ok(out) => {
                &&& out@ == spec_robust_prune(
                    *rel,
                    *q,
                    *m,
                    candidates@,
                    max_alpha_x100 as int,
                    target as int,
                )
                &&& out@.len() <= target
                &&& spec_sorted(out@)
                &&& spec_distinct_ips(out@)
                &&& forall|i: int|
                    0 <= i < out@.len() ==> spec_node_at(
                        *rel,
                        (#[trigger] out@[i]).index_pointer,
                        *m,
                    )
                &&& (candidates@.len() > 0 && target > 0) ==> {
                    &&& out@.len() > 0
                    &&& forall|j: int|
                        0 <= j < candidates@.len() ==> out@[0].spec_le(#[trigger] candidates@[j])
                }
            },
            Err(e) => e == IndexError::Storage,
        },
{
    let sorted = sort_candidates(candidates);
    proof {
        lemma_sort_preserves(
            candidates@,
            candidates@.len() as int,
            |c: NeighborWithDistance| spec_node_at(*rel, c.index_pointer, *m),
        );
    }
    let ghost full = spec_robust_prune(
        *rel,
        *q,
        *m,
        candidates@,
        max_alpha_x100 as int,
        target as int,
    );
    let mut out: Vec<NeighborWithDistance> = Vec::new();
    let n = sorted.len();
    let mut idx: usize = 0;
    while idx < n && out.len() < target
        invariant
            0 <= idx <= n,
            n == sorted@.len(),
            sorted@ == spec_sort(candidates@, candidates@.len() as int),
            spec_sorted(sorted@),
            spec_quantizer_wf(*q, *m),
            forall|i: int|
                0 <= i < sorted@.len() ==> spec_node_at(
                    *rel,
                    (#[trigger] sorted@[i]).index_pointer,
                    *m,
                ),
            forall|i: int|
                0 <= i < out@.len() ==> spec_node_at(*rel, (#[trigger] out@[i]).index_pointer, *m),
            out@.len() <= target,
            out@.len() <= idx,
            spec_distinct_ips(out@),
            spec_sorted(out@),
            full == spec_prune_from(
                *rel,
                *q,
                *m,
                sorted@,
                max_alpha_x100 as int,
                target as int,
                idx as int,
                out@,
            ),
            idx > 0 ==> forall|k: int|
                0 <= k < out@.len() ==> (#[trigger] out@[k]).spec_le(sorted@[idx - 1]),
            (target > 0 && idx > 0) ==> out@.len() > 0 && out@[0] == sorted@[0],
        decreases n - idx,
    {
        let cand = sorted[idx];
        let dup = ip_in_list(&out, cand.get_index_pointer_to_neighbor());
        if !dup {
            // Does a kept neighbour alpha-dominate this candidate?
            let mut dominated = false;
            let cand_node = match Node::read(rel, cand.get_index_pointer_to_neighbor(), m) {
                Ok(nd) => nd,
                Err(e) => {
                    return Err(e);
                },
            };
            let mut k: usize = 0;
            while k < out.len() && !dominated
                invariant
                    0 <= k <= out@.len(),
                    dominated ==> k > 0,
                    spec_quantizer_wf(*q, *m),
                    spec_node_at(*rel, cand.index_pointer, *m),
                    cand_node@ == spec_stored_node(*rel, cand.index_pointer, *m),
                    forall|i: int|
                        0 <= i < out@.len() ==> spec_node_at(
                            *rel,
                            (#[trigger] out@[i]).index_pointer,
                            *m,
                        ),
                    dominated <==> exists|k2: int|
                        0 <= k2 < k && (max_alpha_x100 as int) * crate::storage::spec_node_dist(
                            *q,
                            *m,
                            spec_stored_node(
                                *rel,
                                (#[trigger] out@[k2]).index_pointer,
                                *m,
                            ).payload,
                            spec_stored_node(*rel, cand.index_pointer, *m).payload,
                        ) <= 100 * (cand.distance as int),
                decreases out@.len() - k,
            {
                let kept = out[k];
                let kept_node = match Node::read(rel, kept.get_index_pointer_to_neighbor(), m) {
                    Ok(nd) => nd,
                    Err(e) => {
                        return Err(e);
                    },
                };
                proof {
                    crate::node::lemma_payload_of_decodable(rel.item_at(cand.index_pointer), *m);
                    crate::node::lemma_payload_of_decodable(rel.item_at(kept.index_pointer), *m);
                }
                let d = node_distance(q, m, &kept_node.payload, &cand_node.payload);
                proof {
                    assert((max_alpha_x100 as u128) * (d as u128) <= 0xFFFF_FFFFu128
                        * 0xFFFF_FFFF_FFFF_FFFFu128) by (nonlinear_arith)
                        requires
                            max_alpha_x100 <= 0xFFFF_FFFFu32,
                            d <= 0xFFFF_FFFF_FFFF_FFFFu64,
                    ;
                }
                if (max_alpha_x100 as u128) * (d as u128) <= 100u128 * (cand.get_distance()
                    as u128) {
                    dominated = true;
                }
                k = k + 1;
            }
            proof {
                assert(dominated == spec_dominated(
                    *rel,
                    *q,
                    *m,
                    out@,
                    cand,
                    max_alpha_x100 as int,
                ));
            }
            if !dominated {
                let ghost out0 = out@;
                out.push(cand);
                proof {
                    assert(!spec_acc_has_ip(out0, cand.index_pointer));
                    assert forall|i: int, j: int| 0 <= i < j < out@.len() implies (
                    #[trigger] out@[i]).spec_le(#[trigger] out@[j]) by {
                        if j == out@.len() - 1 && i < j {
                            assert(out0[i].spec_le(sorted@[idx - 1]));
                            assert(sorted@[idx - 1].spec_le(sorted@[idx as int]));
                            lemma_le_trans(out0[i], sorted@[idx - 1], sorted@[idx as int]);
                        }
                    }
                    assert forall|k2: int| 0 <= k2 < out@.len() implies (
                    #[trigger] out@[k2]).spec_le(sorted@[idx as int]) by {
                        if k2 < out0.len() {
                            assert(out@[k2] == out0[k2]);
                            assert(out0[k2].spec_le(sorted@[idx - 1]));
                            lemma_le_trans(out0[k2], sorted@[idx - 1], sorted@[idx as int]);
                        } else {
                            assert(out@[k2] == sorted@[idx as int]);
                        }
                    }
                    assert(target > 0);
                    if out0.len() == 0 {
                        assert(idx == 0);
                        assert(out@[0] == sorted@[0]);
                    } else {
                        assert(out@[0] == out0[0]);
                        assert(out@[0] == sorted@[0]);
                    }
                }
            } else {
                proof {
                    assert(spec_prune_from(
                        *rel,
                        *q,
                        *m,
                        sorted@,
                        max_alpha_x100 as int,
                        target as int,
                        idx as int,
                        out@,
                    ) == spec_prune_from(
                        *rel,
                        *q,
                        *m,
                        sorted@,
                        max_alpha_x100 as int,
                        target as int,
                        idx as int + 1,
                        out@,
                    ));
                }
            }
        } else {
            proof {
                assert(spec_acc_has_ip(out@, sorted@[idx as int].index_pointer));
            }
        }
        proof {
            assert forall|k2: int| 0 <= k2 < out@.len() implies (#[trigger] out@[k2]).spec_le(
                sorted@[idx as int],
            ) by {
                if idx > 0 && out@[k2].spec_le(sorted@[idx - 1]) {
                    lemma_le_trans(out@[k2], sorted@[idx - 1], sorted@[idx as int]);
                }
            }
        }
        idx = idx + 1;
    }
    proof {
        if candidates@.len() > 0 && target > 0 {
            assert(out@.len() > 0 && out@[0] == sorted@[0]);
        }
        assert(full == out@);
    }
    Ok(out)
}

// ---------------------------------------------------------------------
// Greedy beam search
// ---------------------------------------------------------------------

/// One candidate the search has met: where it lives, its approximate
/// distance to the query, whether it has been expanded, and the heap row
/// it stands for.
#[derive(Clone, Copy, PartialEq, Eq, Structural, Debug)]
pub struct ListSearchNeighbor {
    pub index_pointer: IndexPointer,
    pub distance: u64,
    pub visited: bool,
    pub heap_pointer: HeapPointer,
}

/// The search's state: the candidate list ordered by distance, every
/// pointer ever admitted (so none is admitted twice), the consume cursor,
/// and the search's counters.
pub struct ListSearchResult {
    pub candidates: Vec<ListSearchNeighbor>,
    pub inserted: Vec<IndexPointer>,
    pub cursor: usize,
    pub stats: GreedySearchStats,
}

/// A candidate entry is truthful: it points at a stored node, carries that
/// node's heap pointer, and its distance is the measure's distance to that
/// node's payload.
pub open spec fn spec_lsn_ok(
    rel: Relation,
    m: MetaPage,
    q: Quantizer,
    query: Seq<i32>,
    lsn: ListSearchNeighbor,
) -> bool {
    &&& spec_node_at(rel, lsn.index_pointer, m)
    &&& lsn.distance as int == spec_query_dist(
        q,
        m,
        query,
        spec_stored_node(rel, lsn.index_pointer, m).payload,
    )
    &&& lsn.heap_pointer == spec_stored_node(rel, lsn.index_pointer, m).heap_pointer
}

/// The search state is truthful and ordered.
pub open spec fn spec_lsr_wf(
    lsr: ListSearchResult,
    rel: Relation,
    m: MetaPage,
    q: Quantizer,
    query: Seq<i32>,
) -> bool {
    &&& forall|i: int|
        0 <= i < lsr.candidates@.len() ==> spec_lsn_ok(
            rel,
            m,
            q,
            query,
            #[trigger] lsr.candidates@[i],
        )
    &&& forall|i: int, j: int|
        0 <= i < j < lsr.candidates@.len() ==> (#[trigger] lsr.candidates@[i]).index_pointer != (
        #[trigger] lsr.candidates@[j]).index_pointer
    &&& forall|i: int, j: int|
        0 <= i < j < lsr.candidates@.len() ==> (#[trigger] lsr.candidates@[i]).distance <= (
        #[trigger] lsr.candidates@[j]).distance
    &&& lsr.cursor <= lsr.candidates@.len()
}

impl ListSearchResult {
    /// An empty search state.
    pub fn new() -> (r: Self)
        ensures
            r.candidates@.len() == 0,
            r.inserted@.len() == 0,
            r.cursor == 0,
    {
        ListSearchResult {
            candidates: Vec::new(),
            inserted: Vec::new(),
            cursor: 0,
            stats: GreedySearchStats::new(),
        }
    }

    /// Hand out the next visited entry in distance order, or `None` when
    /// the cursor stands on nothing consumable.
    pub fn consume(&mut self) -> (r: Option<(HeapPointer, IndexPointer)>)
        ensures
            final(self).candidates == old(self).candidates,
            final(self).inserted == old(self).inserted,
            r is Some <==> (old(self).cursor < old(self).candidates@.len()
                && old(self).candidates@[old(self).cursor as int].visited),
            r is Some ==> {
                &&& final(self).cursor == old(self).cursor + 1
                &&& r == Some(
                    (
                        old(self).candidates@[old(self).cursor as int].heap_pointer,
                        old(self).candidates@[old(self).cursor as int].index_pointer,
                    ),
                )
            },
            r is None ==> final(self).cursor == old(self).cursor,
    {
        if self.cursor < self.candidates.len() && self.candidates[self.cursor].visited {
            let c = self.candidates[self.cursor];
            self.cursor = self.cursor + 1;
            Some((c.heap_pointer, c.index_pointer))
        } else {
            None
        }
    }

    /// Admit a candidate at its place in the distance order, remembering
    /// its pointer so it is never admitted twice.
    fn insert_candidate(&mut self, lsn: ListSearchNeighbor) -> (pos: usize)
        requires
            forall|i: int, j: int|
                0 <= i < j < old(self).candidates@.len() ==> (
                #[trigger] old(self).candidates@[i]).distance <= (
                #[trigger] old(self).candidates@[j]).distance,
        ensures
            final(self).candidates@.len() == old(self).candidates@.len() + 1,
            pos <= old(self).candidates@.len(),
            final(self).candidates@ == old(self).candidates@.insert(pos as int, lsn),
            forall|i: int, j: int|
                0 <= i < j < final(self).candidates@.len() ==> (
                #[trigger] final(self).candidates@[i]).distance <= (
                #[trigger] final(self).candidates@[j]).distance,
            final(self).inserted@ == old(self).inserted@.push(lsn.index_pointer),
            final(self).cursor == old(self).cursor,
    {
        let mut pos: usize = 0;
        while pos < self.candidates.len() && self.candidates[pos].distance <= lsn.distance
            invariant
                0 <= pos <= self.candidates@.len(),
                self == old(self),
                forall|k: int|
                    0 <= k < pos ==> (#[trigger] self.candidates@[k]).distance <= lsn.distance,
            decreases self.candidates@.len() - pos,
        {
            pos = pos + 1;
        }
        let ghost c0 = self.candidates@;
        self.candidates.insert(pos, lsn);
        self.inserted.push(lsn.index_pointer);
        proof {
            assert(self.candidates@ == c0.insert(pos as int, lsn));
            assert forall|i: int, j: int| 0 <= i < j < self.candidates@.len() implies (
            #[trigger] self.candidates@[i]).distance <= (
            #[trigger] self.candidates@[j]).distance by {}
            assert(self.candidates@[pos as int] == lsn);
        }
        pos
    }

    /// Whether a pointer already stands in the candidate list.
    fn ip_in_candidates(&self, ip: IndexPointer) -> (r: bool)
        ensures
            r == exists|i: int|
                0 <= i < self.candidates@.len() && (#[trigger] self.candidates@[i]).index_pointer
                    == ip,
    {
        let mut i: usize = 0;
        let n = self.candidates.len();
        while i < n
            invariant
                0 <= i <= n,
                n == self.candidates@.len(),
                forall|j: int| 0 <= j < i ==> (#[trigger] self.candidates@[j]).index_pointer != ip,
            decreases n - i,
        {
            if self.candidates[i].index_pointer == ip {
                return true;
            }
            i = i + 1;
        }
        false
    }
}

// ---------------------------------------------------------------------
// The graph
// ---------------------------------------------------------------------


/// The metadata's single init id as a pointer.
pub open spec fn spec_init_ip(m: MetaPage) -> ItemPointer {
    ItemPointer { block_number: m.init_ids_block_number, offset: m.init_ids_offset }
}

/// The metadata has no init id yet.
pub open spec fn spec_no_init(m: MetaPage) -> bool {
    m.init_ids_block_number == 0 && m.init_ids_offset == 0
}

/// The candidate a search is seeded with: the init-id node, unvisited, at
/// its measured distance, carrying that node's heap pointer.
pub open spec fn spec_seed_candidate(
    rel: Relation,
    m: MetaPage,
    q: Quantizer,
    query: Seq<i32>,
) -> ListSearchNeighbor {
    ListSearchNeighbor {
        index_pointer: spec_init_ip(m),
        distance: spec_query_dist(
            q,
            m,
            query,
            spec_stored_node(rel, spec_init_ip(m), m).payload,
        ) as u64,
        visited: false,
        heap_pointer: spec_stored_node(rel, spec_init_ip(m), m).heap_pointer,
    }
}

/// No unvisited candidate remains within the first `l` ranks: the search
/// is finished for that list size.
pub open spec fn spec_search_complete(lsr: ListSearchResult, l: int) -> bool {
    forall|i: int|
        0 <= i < lsr.candidates@.len() && i < l ==> (#[trigger] lsr.candidates@[i]).visited
}

/// Every stored node's neighbour pointers resolve to stored nodes: the
/// on-disk graph is closed, as a finished build leaves it.
pub open spec fn spec_graph_closed(rel: Relation, m: MetaPage) -> bool {
    forall|ip: IndexPointer| #[trigger] spec_node_at(rel, ip, m) ==> forall|j: int|
        0 <= j < spec_stored_node(rel, ip, m).neighbors.len() ==> spec_node_at(
            rel,
            #[trigger] spec_stored_node(rel, ip, m).neighbors[j],
            m,
        )
}

/// No neighbour list the builder map holds names this pointer: nothing in
/// the graph points at it yet.
pub open spec fn spec_bg_avoids(bg: BuilderGraph, av: IndexPointer) -> bool {
    forall|ip2: IndexPointer| #[trigger] bg.spec_contains(ip2) ==> forall|j: int|
        0 <= j < bg.spec_neighbors_of(ip2).len() ==> bg.spec_neighbors_of(ip2)[j].index_pointer
            != av
}

/// No candidate of the search names this pointer.
pub open spec fn spec_lsr_avoids(lsr: ListSearchResult, av: IndexPointer) -> bool {
    forall|i: int|
        0 <= i < lsr.candidates@.len() ==> (#[trigger] lsr.candidates@[i]).index_pointer != av
}

/// Every candidate the search holds is a node the builder map registers.
pub open spec fn spec_candidates_in(lsr: ListSearchResult, bg: BuilderGraph) -> bool {
    forall|i: int|
        0 <= i < lsr.candidates@.len() ==> bg.spec_contains(
            (#[trigger] lsr.candidates@[i]).index_pointer,
        )
}

/// The proximity graph: where its neighbour lists live and the metadata
/// that shaped it.
pub struct Graph {
    pub neighbor_store: GraphNeighborStore,
    pub meta_page: MetaPage,
}

impl Graph {
    /// The store is usable: builder keys are unique.
    pub open spec fn wf(self) -> bool {
        match self.neighbor_store {
            GraphNeighborStore::Builder(bg) => bg.keys_distinct(),
            GraphNeighborStore::Disk(_) => true,
        }
    }

    pub fn new(neighbor_store: GraphNeighborStore, meta_page: &MetaPage) -> (r: Self)
        ensures
            r.meta_page == *meta_page,
            r.neighbor_store == neighbor_store,
    {
        Graph { neighbor_store, meta_page: *meta_page }
    }

    /// The neighbour pointers of a node, from wherever the store keeps
    /// them.  Fails with `Storage` when the node cannot be read, and with
    /// `Invariant` when the builder map has no entry for it.
    fn get_neighbor_ips(&self, rel: &Relation, ip: IndexPointer) -> (r: Result<
        Vec<IndexPointer>,
        IndexError,
    >)
        requires
            self.meta_page.wf(),
            self.wf(),
        ensures
            r is Err ==> (r->Err_0 == IndexError::Storage || r->Err_0 == IndexError::Invariant),
            match self.neighbor_store {
                GraphNeighborStore::Builder(bg) => bg.spec_contains(ip) ==> r is Ok
                    && r->Ok_0@ == Seq::new(
                    bg.spec_neighbors_of(ip).len(),
                    |i: int| bg.spec_neighbors_of(ip)[i].index_pointer,
                ),
                GraphNeighborStore::Disk(_) => spec_node_at(*rel, ip, self.meta_page) ==> r is Ok
                    && r->Ok_0@ == spec_stored_node(*rel, ip, self.meta_page).neighbors,
            },
    {
        match &self.neighbor_store {
            GraphNeighborStore::Builder(bg) => {
                match bg.get(ip) {
                    Some(l) => {
                        let mut ips: Vec<IndexPointer> = Vec::new();
                        let mut i: usize = 0;
                        let n = l.len();
                        while i < n
                            invariant
                                0 <= i <= n,
                                n == l@.len(),
                                ips@.len() == i,
                                forall|t: int|
                                    0 <= t < i ==> #[trigger] ips@[t] == l@[t].index_pointer,
                            decreases n - i,
                        {
                            ips.push(l[i].get_index_pointer_to_neighbor());
                            i = i + 1;
                        }
                        proof {
                            assert(ips@ =~= Seq::new(l@.len(), |t: int| l@[t].index_pointer));
                        }
                        Ok(ips)
                    },
                    None => Err(IndexError::Invariant),
                }
            },
            GraphNeighborStore::Disk(_) => {
                match Node::read(rel, ip, &self.meta_page) {
                    Ok(node) => Ok(node.neighbors),
                    Err(e) => Err(e),
                }
            },
        }
    }

    /// Start a streaming search: seed the candidate list from the
    /// metadata's init ids.  An index with no init ids yields an empty,
    /// already finished search.
    pub fn greedy_search_streaming_init(
        &self,
        rel: &Relation,
        q: &Quantizer,
        sdm: &SearchDistanceMeasure,
    ) -> (r: Result<ListSearchResult, IndexError>)
        requires
            spec_quantizer_wf(*q, self.meta_page),
            sdm.wf(*q, self.meta_page),
        ensures
            r is Ok <==> (spec_no_init(self.meta_page) || spec_node_at(
                *rel,
                spec_init_ip(self.meta_page),
                self.meta_page,
            )),
            match r {
                Ok(lsr) => {
                    &&& spec_lsr_wf(lsr, *rel, self.meta_page, *q, sdm.spec_query())
                    &&& lsr.cursor == 0
                    &&& if spec_no_init(self.meta_page) {
                        lsr.candidates@ =~= Seq::<ListSearchNeighbor>::empty()
                    } else {
                        lsr.candidates@ =~= seq![
                            spec_seed_candidate(*rel, self.meta_page, *q, sdm.spec_query()),
                        ]
                    }
                },
                Err(e) => e == IndexError::Storage,
            },
    {
        let mut lsr = ListSearchResult::new();
        match self.meta_page.get_init_ids() {
            None => Ok(lsr),
            Some(ids) => {
                let ip = ids[0];
                let node = match Node::read(rel, ip, &self.meta_page) {
                    Ok(n) => n,
                    Err(e) => {
                        return Err(e);
                    },
                };
                proof {
                    crate::node::lemma_payload_of_decodable(rel.item_at(ip), self.meta_page);
                }
                lsr.stats.record_read();
                let d = sdm.distance_to_payload(q, &self.meta_page, &node.payload);
                lsr.stats.record_distance_comparison();
                let lsn = ListSearchNeighbor {
                    index_pointer: ip,
                    distance: d,
                    visited: false,
                    heap_pointer: node.heap_pointer,
                };
                lsr.insert_candidate(lsn);
                Ok(lsr)
            },
        }
    }

    /// Expand candidates until no unvisited candidate remains within the
    /// first `search_list_size` ranks, polling the host's cancellation flag
    /// at every expansion.  On success the search is complete for that
    /// list size.
    pub fn greedy_search_iterate(
        &self,
        rel: &Relation,
        lsr: &mut ListSearchResult,
        search_list_size: usize,
        q: &Quantizer,
        sdm: &SearchDistanceMeasure,
        interrupt: &mut InterruptFlag,
    ) -> (r: Result<(), IndexError>)
        requires
            self.wf(),
            spec_quantizer_wf(*q, self.meta_page),
            sdm.wf(*q, self.meta_page),
            spec_lsr_wf(*old(lsr), *rel, self.meta_page, *q, sdm.spec_query()),
        ensures
            spec_lsr_wf(*final(lsr), *rel, self.meta_page, *q, sdm.spec_query()),
            final(lsr).cursor == old(lsr).cursor,
            final(lsr).candidates@.len() >= old(lsr).candidates@.len(),
            final(interrupt).spec_countdown() <= old(interrupt).spec_countdown(),
            r is Ok ==> spec_search_complete(*final(lsr), search_list_size as int),
            spec_search_complete(*old(lsr), search_list_size as int) ==> r is Ok && final(lsr).candidates == old(lsr).candidates && final(lsr).inserted == old(lsr).inserted
                && final(interrupt).spec_countdown() == old(interrupt).spec_countdown(),
            r is Err ==> (r->Err_0 == IndexError::Storage || r->Err_0 == IndexError::Interrupted
                || r->Err_0 == IndexError::Invariant),
            r == Result::<(), IndexError>::Err(IndexError::Interrupted) ==> final(interrupt).spec_countdown() == 0,
            (self.neighbor_store matches GraphNeighborStore::Disk(_) && spec_graph_closed(
                *rel,
                self.meta_page,
            )) ==> (r is Ok || r == Result::<(), IndexError>::Err(IndexError::Interrupted)),
            match self.neighbor_store {
                GraphNeighborStore::Builder(bg) => (spec_bg_wf(
                    bg,
                    *rel,
                    self.meta_page,
                    self.meta_page.spec_max_neighbors_during_build(),
                ) && spec_candidates_in(*old(lsr), bg)) ==> ((r is Ok || r == Result::<
                    (),
                    IndexError,
                >::Err(IndexError::Interrupted)) && spec_candidates_in(*final(lsr), bg)),
                GraphNeighborStore::Disk(_) => true,
            },
            match self.neighbor_store {
                GraphNeighborStore::Builder(bg) => forall|av: IndexPointer|
                    (#[trigger] spec_lsr_avoids(*old(lsr), av) && spec_bg_avoids(bg, av)
                        && spec_bg_wf(
                        bg,
                        *rel,
                        self.meta_page,
                        self.meta_page.spec_max_neighbors_during_build(),
                    ) && spec_candidates_in(*old(lsr), bg)) ==> spec_lsr_avoids(*final(lsr), av),
                GraphNeighborStore::Disk(_) => true,
            },
    {
        lsr.stats.record_call();
        let ghost query = sdm.spec_query();
        loop
            invariant
                self.wf(),
                spec_quantizer_wf(*q, self.meta_page),
                sdm.wf(*q, self.meta_page),
                spec_lsr_wf(*lsr, *rel, self.meta_page, *q, query),
                query == sdm.spec_query(),
                lsr.cursor == old(lsr).cursor,
                lsr.candidates@.len() >= old(lsr).candidates@.len(),
                interrupt.spec_countdown() <= old(interrupt).spec_countdown(),
                spec_search_complete(*old(lsr), search_list_size as int) ==> lsr.candidates == old(lsr).candidates && lsr.inserted == old(lsr).inserted && interrupt.spec_countdown() == old(interrupt).spec_countdown(),
                match self.neighbor_store {
                    GraphNeighborStore::Builder(bg) => (spec_bg_wf(
                        bg,
                        *rel,
                        self.meta_page,
                        self.meta_page.spec_max_neighbors_during_build(),
                    ) && spec_candidates_in(*old(lsr), bg)) ==> spec_candidates_in(*lsr, bg),
                    GraphNeighborStore::Disk(_) => true,
                },
                match self.neighbor_store {
                    GraphNeighborStore::Builder(bg) => forall|av: IndexPointer|
                        (#[trigger] spec_lsr_avoids(*old(lsr), av) && spec_bg_avoids(bg, av)
                            && spec_bg_wf(
                            bg,
                            *rel,
                            self.meta_page,
                            self.meta_page.spec_max_neighbors_during_build(),
                        ) && spec_candidates_in(*old(lsr), bg)) ==> spec_lsr_avoids(*lsr, av),
                    GraphNeighborStore::Disk(_) => true,
                },
            decreases interrupt.spec_countdown(),
        {
            // The best unvisited candidate within the search list.
            let mut found: usize = 0;
            let mut have = false;
            let lim = if search_list_size < lsr.candidates.len() {
                search_list_size
            } else {
                lsr.candidates.len()
            };
            let mut i: usize = 0;
            while i < lim
                invariant
                    0 <= i <= lim,
                    lim <= lsr.candidates@.len(),
                    have ==> found < lim,
                    !have ==> forall|j: int|
                        0 <= j < i ==> (#[trigger] lsr.candidates@[j]).visited,
                    have ==> !lsr.candidates@[found as int].visited,
                decreases lim - i,
            {
                if !have && !lsr.candidates[i].visited {
                    found = i;
                    have = true;
                }
                i = i + 1;
            }
            if !have {
                return Ok(());
            }
            if interrupt.check_for_interrupts() {
                return Err(IndexError::Interrupted);
            }
            // Mark it visited and expand its neighbours.
            let ghost c0 = lsr.candidates@;
            let cur = lsr.candidates[found];
            let cur2 = ListSearchNeighbor {
                index_pointer: cur.index_pointer,
                distance: cur.distance,
                visited: true,
                heap_pointer: cur.heap_pointer,
            };
            lsr.candidates.remove(found);
            lsr.candidates.insert(found, cur2);
            proof {
                assert(lsr.candidates@ =~= c0.update(found as int, cur2));
            }
            proof {
                assert(!spec_search_complete(*old(lsr), search_list_size as int));
            }
            let ips = match self.get_neighbor_ips(rel, cur.index_pointer) {
                Ok(v) => v,
                Err(e) => {
                    return Err(e);
                },
            };
            proof {
                match &self.neighbor_store {
                    GraphNeighborStore::Builder(bg) => {
                        if spec_bg_wf(
                            *bg,
                            *rel,
                            self.meta_page,
                            self.meta_page.spec_max_neighbors_during_build(),
                        ) && spec_candidates_in(*old(lsr), *bg) {
                            assert(bg.spec_contains(cur.index_pointer));
                            assert(forall|t2: int|
                                0 <= t2 < ips@.len() ==> #[trigger] ips@[t2]
                                    == bg.spec_neighbors_of(cur.index_pointer)[t2].index_pointer);
                        }
                    },
                    GraphNeighborStore::Disk(_) => {
                        if spec_graph_closed(*rel, self.meta_page) {
                            assert(ips@ == spec_stored_node(
                                *rel,
                                cur.index_pointer,
                                self.meta_page,
                            ).neighbors);
                        }
                    },
                }
            }
            let n = ips.len();
            let mut t: usize = 0;
            while t < n
                invariant
                    0 <= t <= n,
                    n == ips@.len(),
                    spec_quantizer_wf(*q, self.meta_page),
                    sdm.wf(*q, self.meta_page),
                    query == sdm.spec_query(),
                    spec_lsr_wf(*lsr, *rel, self.meta_page, *q, query),
                    lsr.cursor == old(lsr).cursor,
                    lsr.candidates@.len() >= old(lsr).candidates@.len(),
                    !spec_search_complete(*old(lsr), search_list_size as int),
                    match self.neighbor_store {
                        GraphNeighborStore::Builder(bg) => (spec_bg_wf(
                            bg,
                            *rel,
                            self.meta_page,
                            self.meta_page.spec_max_neighbors_during_build(),
                        ) && spec_candidates_in(*old(lsr), bg)) ==> spec_candidates_in(*lsr, bg)
                            && forall|t2: int|
                            0 <= t2 < ips@.len() ==> #[trigger] ips@[t2] == bg.spec_neighbors_of(
                                cur.index_pointer,
                            )[t2].index_pointer && bg.spec_contains(cur.index_pointer),
                        GraphNeighborStore::Disk(_) => spec_graph_closed(*rel, self.meta_page)
                            ==> ips@ == spec_stored_node(
                            *rel,
                            cur.index_pointer,
                            self.meta_page,
                        ).neighbors && spec_node_at(*rel, cur.index_pointer, self.meta_page),
                    },
                    match self.neighbor_store {
                        GraphNeighborStore::Builder(bg) => forall|av: IndexPointer|
                            (#[trigger] spec_lsr_avoids(*old(lsr), av) && spec_bg_avoids(bg, av)
                                && spec_bg_wf(
                                bg,
                                *rel,
                                self.meta_page,
                                self.meta_page.spec_max_neighbors_during_build(),
                            ) && spec_candidates_in(*old(lsr), bg)) ==> spec_lsr_avoids(*lsr, av),
                        GraphNeighborStore::Disk(_) => true,
                    },
                decreases n - t,
            {
                let nip = ips[t];
                if !lsr.ip_in_candidates(nip) {
                    let nb = match Node::read(rel, nip, &self.meta_page) {
                        Ok(nb) => nb,
                        Err(e) => {
                            return Err(e);
                        },
                    };
                    proof {
                        crate::node::lemma_payload_of_decodable(
                            rel.item_at(nip),
                            self.meta_page,
                        );
                    }
                    lsr.stats.record_read();
                    let d = sdm.distance_to_payload(q, &self.meta_page, &nb.payload);
                    lsr.stats.record_distance_comparison();
                    let lsn = ListSearchNeighbor {
                        index_pointer: nip,
                        distance: d,
                        visited: false,
                        heap_pointer: nb.heap_pointer,
                    };
                    let ghost c0 = lsr.candidates@;
                    let pos = lsr.insert_candidate(lsn);
                    proof {
                        assert forall|a: int, b: int| 0 <= a < b < lsr.candidates@.len() implies (
                        #[trigger] lsr.candidates@[a]).index_pointer != (
                        #[trigger] lsr.candidates@[b]).index_pointer by {
                            if a == pos {
                                assert(lsr.candidates@[b] == c0[b - 1]);
                            } else if b == pos {
                                assert(lsr.candidates@[a] == c0[a]);
                            } else if a < pos && b > pos {
                                assert(lsr.candidates@[a] == c0[a]);
                                assert(lsr.candidates@[b] == c0[b - 1]);
                            }
                        }
                        assert forall|a: int| 0 <= a < lsr.candidates@.len() implies spec_lsn_ok(
                            *rel,
                            self.meta_page,
                            *q,
                            query,
                            #[trigger] lsr.candidates@[a],
                        ) by {
                            if a < pos {
                                assert(lsr.candidates@[a] == c0[a]);
                            } else if a > pos {
                                assert(lsr.candidates@[a] == c0[a - 1]);
                            }
                        }
                        match &self.neighbor_store {
                            GraphNeighborStore::Builder(bg) => {
                                if spec_bg_wf(
                                    *bg,
                                    *rel,
                                    self.meta_page,
                                    self.meta_page.spec_max_neighbors_during_build(),
                                ) && spec_candidates_in(*old(lsr), *bg) {
                                    assert(nip == bg.spec_neighbors_of(
                                        cur.index_pointer,
                                    )[t as int].index_pointer);
                                    assert(bg.spec_contains(nip));
                                    assert forall|a: int|
                                        0 <= a < lsr.candidates@.len() implies bg.spec_contains(
                                        (#[trigger] lsr.candidates@[a]).index_pointer,
                                    ) by {
                                        if a < pos {
                                            assert(lsr.candidates@[a] == c0[a]);
                                        } else if a > pos {
                                            assert(lsr.candidates@[a] == c0[a - 1]);
                                        }
                                    }
                                    assert forall|av: IndexPointer|
                                        #[trigger] spec_lsr_avoids(*old(lsr), av)
                                            && spec_bg_avoids(*bg, av) implies spec_lsr_avoids(
                                        *lsr,
                                        av,
                                    ) by {
                                        assert(nip != av);
                                        assert forall|a: int|
                                            0 <= a < lsr.candidates@.len() implies (
                                        #[trigger] lsr.candidates@[a]).index_pointer != av by {
                                            if a < pos {
                                                assert(lsr.candidates@[a] == c0[a]);
                                            } else if a > pos {
                                                assert(lsr.candidates@[a] == c0[a - 1]);
                                            }
                                        }
                                    }
                                }
                            },
                            GraphNeighborStore::Disk(_) => {},
                        }
                    }
                }
                t = t + 1;
            }
        }
    }
}

// ---------------------------------------------------------------------
// Insert and finalize
// ---------------------------------------------------------------------

/// The builder map is closed and clean: every registered node is stored,
/// every list stays within `cap`, holds no duplicates, never points at its
/// own node, and names only registered nodes.
pub open spec fn spec_bg_wf(bg: BuilderGraph, rel: Relation, m: MetaPage, cap: int) -> bool {
    forall|ip: IndexPointer| #[trigger] bg.spec_contains(ip) ==> {
        let l = bg.spec_neighbors_of(ip);
        &&& spec_node_at(rel, ip, m)
        &&& l.len() <= cap
        &&& spec_distinct_ips(l)
        &&& forall|j: int|
            0 <= j < l.len() ==> (#[trigger] l[j]).index_pointer != ip && bg.spec_contains(
                l[j].index_pointer,
            )
    }
}

/// Keep only candidates that are registered nodes other than `me`,
/// dropping duplicates; a pointwise property of the input carries over.
fn filter_candidates(
    bg: &BuilderGraph,
    me: IndexPointer,
    list: &Vec<NeighborWithDistance>,
    Ghost(p): Ghost<spec_fn(NeighborWithDistance) -> bool>,
) -> (r: Vec<NeighborWithDistance>)
    requires
        forall|k: int| 0 <= k < list@.len() ==> p(#[trigger] list@[k]),
    ensures
        r@.len() <= list@.len(),
        spec_distinct_ips(r@),
        forall|k: int| 0 <= k < r@.len() ==> p(#[trigger] r@[k]),
        forall|k: int|
            0 <= k < r@.len() ==> (#[trigger] r@[k]).index_pointer != me && bg.spec_contains(
                r@[k].index_pointer,
            ),
        (list@.len() > 0 && list@[0].index_pointer != me && bg.spec_contains(
            list@[0].index_pointer,
        )) ==> r@.len() > 0,
{
    let mut r: Vec<NeighborWithDistance> = Vec::new();
    let n = list.len();
    let mut i: usize = 0;
    while i < n
        invariant
            0 <= i <= n,
            n == list@.len(),
            r@.len() <= i,
            spec_distinct_ips(r@),
            forall|k: int| 0 <= k < r@.len() ==> p(#[trigger] r@[k]),
            forall|k: int|
                0 <= k < r@.len() ==> (#[trigger] r@[k]).index_pointer != me && bg.spec_contains(
                    r@[k].index_pointer,
                ),
            (i > 0 && list@.len() > 0 && list@[0].index_pointer != me && bg.spec_contains(
                list@[0].index_pointer,
            )) ==> r@.len() > 0,
        decreases n - i,
    {
        let c = list[i];
        if c.get_index_pointer_to_neighbor() != me && bg.contains(
            c.get_index_pointer_to_neighbor(),
        ) && !ip_in_list(&r, c.get_index_pointer_to_neighbor()) {
            let ghost r0 = r@;
            r.push(c);
            proof {
                assert forall|a: int, b: int| 0 <= a < b < r@.len() implies (
                #[trigger] r@[a]).index_pointer != (#[trigger] r@[b]).index_pointer by {
                    if b == r@.len() - 1 {
                        assert(r@[a] == r0[a]);
                    }
                }
            }
        }
        i = i + 1;
    }
    r
}

/// Drop every entry naming `me`, keeping the rest duplicate free; a
/// pointwise property of the input carries over.
fn drop_self(
    me: IndexPointer,
    list: &Vec<NeighborWithDistance>,
    Ghost(p): Ghost<spec_fn(NeighborWithDistance) -> bool>,
) -> (r: Vec<NeighborWithDistance>)
    requires
        forall|k: int| 0 <= k < list@.len() ==> p(#[trigger] list@[k]),
    ensures
        r@.len() <= list@.len(),
        spec_distinct_ips(r@),
        forall|k: int| 0 <= k < r@.len() ==> p(#[trigger] r@[k]),
        forall|k: int| 0 <= k < r@.len() ==> (#[trigger] r@[k]).index_pointer != me,
{
    let mut r: Vec<NeighborWithDistance> = Vec::new();
    let n = list.len();
    let mut i: usize = 0;
    while i < n
        invariant
            0 <= i <= n,
            n == list@.len(),
            r@.len() <= i,
            spec_distinct_ips(r@),
            forall|k: int| 0 <= k < r@.len() ==> p(#[trigger] r@[k]),
            forall|k: int| 0 <= k < r@.len() ==> (#[trigger] r@[k]).index_pointer != me,
        decreases n - i,
    {
        let c = list[i];
        if c.get_index_pointer_to_neighbor() != me && !ip_in_list(
            &r,
            c.get_index_pointer_to_neighbor(),
        ) {
            let ghost r0 = r@;
            r.push(c);
            proof {
                assert forall|a: int, b: int| 0 <= a < b < r@.len() implies (
                #[trigger] r@[a]).index_pointer != (#[trigger] r@[b]).index_pointer by {
                    if b == r@.len() - 1 {
                        assert(r@[a] == r0[a]);
                    }
                }
            }
        }
        i = i + 1;
    }
    r
}

impl Graph {
    /// Insert a node into the graph: search greedily from the init ids,
    /// rank the visited candidates with the storage-native node distance,
    /// prune them, store them as the node's neighbour list, and add
    /// back-edges, re-pruning any target that overflows its cap.  The
    /// first node becomes the sole init id.
    #[verifier::rlimit(100)]
    pub fn insert(
        &mut self,
        rel: &mut Relation,
        index_pointer: IndexPointer,
        vec: &Vec<i32>,
        q: &Quantizer,
        interrupt: &mut InterruptFlag,
    ) -> (r: Result<(), IndexError>)
        requires
            old(self).wf(),
            spec_quantizer_wf(*q, old(self).meta_page),
            crate::distance::wf_vector(vec@, old(self).meta_page.num_dimensions as int),
            spec_meta_ok(*old(rel)),
            spec_meta_of(*old(rel)) == old(self).meta_page,
            match old(self).neighbor_store {
                GraphNeighborStore::Builder(bg) => spec_bg_wf(
                    bg,
                    *old(rel),
                    old(self).meta_page,
                    old(self).meta_page.spec_max_neighbors_during_build(),
                ) && bg.spec_contains(index_pointer) && bg.spec_neighbors_of(
                    index_pointer,
                ).len() == 0 && spec_bg_avoids(bg, index_pointer),
                GraphNeighborStore::Disk(_) => spec_node_at(
                    *old(rel),
                    index_pointer,
                    old(self).meta_page,
                ),
            },
        ensures
            final(self).wf(),
            final(self).meta_page == old(self).meta_page,
            r is Ok ==> spec_meta_ok(*final(rel)) && spec_meta_of(*final(rel)) == final(self).meta_page,
            r is Ok ==> match final(self).neighbor_store {
                GraphNeighborStore::Builder(bg) => spec_bg_wf(
                    bg,
                    *final(rel),
                    final(self).meta_page,
                    final(self).meta_page.spec_max_neighbors_during_build(),
                ) && bg.spec_contains(index_pointer),
                GraphNeighborStore::Disk(_) => true,
            },
            match old(self).neighbor_store {
                GraphNeighborStore::Builder(_) => final(self).neighbor_store matches
                    GraphNeighborStore::Builder(_) && *final(rel) == *old(rel),
                GraphNeighborStore::Disk(_) => final(self).neighbor_store matches
                    GraphNeighborStore::Disk(_),
            },
            match (old(self).neighbor_store, final(self).neighbor_store) {
                (GraphNeighborStore::Builder(bg0), GraphNeighborStore::Builder(bg1)) => (forall|
                    ip2: IndexPointer,
                |
                    #[trigger] bg0.spec_contains(ip2) ==> bg1.spec_contains(ip2))
                    && bg1.spec_len() == bg0.spec_len(),
                _ => true,
            },
            r is Err ==> (r->Err_0 == IndexError::Storage || r->Err_0 == IndexError::Interrupted
                || r->Err_0 == IndexError::Invariant),
            r == Result::<(), IndexError>::Err(IndexError::Interrupted) ==> final(interrupt).spec_countdown() == 0,
            match old(self).neighbor_store {
                GraphNeighborStore::Builder(bg) => (spec_no_init(old(self).meta_page)
                    || bg.spec_contains(spec_init_ip(old(self).meta_page))) ==> (r is Ok || r
                    == Result::<(), IndexError>::Err(IndexError::Interrupted)),
                GraphNeighborStore::Disk(_) => (spec_graph_closed(*old(rel), old(self).meta_page)
                    && (spec_no_init(old(self).meta_page) || spec_node_at(
                    *old(rel),
                    spec_init_ip(old(self).meta_page),
                    old(self).meta_page,
                ))) ==> (r is Ok || r == Result::<(), IndexError>::Err(IndexError::Interrupted)),
            },
            match (old(self).neighbor_store, final(self).neighbor_store) {
                (GraphNeighborStore::Builder(bg0), GraphNeighborStore::Builder(bg1)) => (r is Ok
                    && !spec_no_init(old(self).meta_page) && spec_init_ip(old(self).meta_page)
                    != index_pointer && bg0.spec_contains(spec_init_ip(old(self).meta_page)))
                    ==> bg1.spec_neighbors_of(index_pointer).len() > 0,
                _ => true,
            },
            match old(self).neighbor_store {
                GraphNeighborStore::Disk(_) => (r is Ok && spec_graph_closed(
                    *old(rel),
                    old(self).meta_page,
                )) ==> forall|j: int|
                    #![trigger spec_stored_node(*final(rel), index_pointer, old(self).meta_page).neighbors[j]]
                    0 <= j < spec_stored_node(
                        *final(rel),
                        index_pointer,
                        old(self).meta_page,
                    ).neighbors.len() ==> spec_back_edge_done(
                        *old(rel),
                        *final(rel),
                        old(self).meta_page,
                        spec_stored_node(
                            *final(rel),
                            index_pointer,
                            old(self).meta_page,
                        ).neighbors[j],
                        index_pointer,
                    ),
                GraphNeighborStore::Builder(_) => true,
            },
            match old(self).neighbor_store {
                GraphNeighborStore::Disk(_) => r is Ok ==> spec_node_at(
                    *final(rel),
                    index_pointer,
                    old(self).meta_page,
                ) && spec_stored_node(*final(rel), index_pointer, old(self).meta_page).heap_pointer
                    == spec_stored_node(*old(rel), index_pointer, old(self).meta_page).heap_pointer
                    && spec_stored_node(*final(rel), index_pointer, old(self).meta_page).payload
                    == spec_stored_node(*old(rel), index_pointer, old(self).meta_page).payload
                    && spec_stored_node(*final(rel), index_pointer, old(self).meta_page).deleted
                    == spec_stored_node(*old(rel), index_pointer, old(self).meta_page).deleted,
                GraphNeighborStore::Builder(_) => true,
            },
    {
        let ghost m = self.meta_page;
        let ghost cap = self.meta_page.spec_max_neighbors_during_build();
        // Greedy search for the neighbourhood.
        let sdm = SearchDistanceMeasure::prepare(q, &self.meta_page, vec);
        let mut lsr = match self.greedy_search_streaming_init(rel, q, &sdm) {
            Ok(l) => l,
            Err(e) => {
                return Err(e);
            },
        };
        let ghost lsr_seeded = lsr;
        proof {
            match &self.neighbor_store {
                GraphNeighborStore::Builder(bg) => {
                    if !spec_no_init(m) && bg.spec_contains(spec_init_ip(m)) {
                        assert(spec_candidates_in(lsr, *bg));
                        if spec_init_ip(m) != index_pointer {
                            assert(spec_lsr_avoids(lsr, index_pointer));
                        }
                    }
                    if spec_no_init(m) {
                        assert(spec_candidates_in(lsr, *bg));
                        assert(spec_lsr_avoids(lsr, index_pointer));
                    }
                },
                GraphNeighborStore::Disk(_) => {},
            }
        }
        let l = self.meta_page.get_search_list_size_for_build() as usize;
        match self.greedy_search_iterate(rel, &mut lsr, l, q, &sdm, interrupt) {
            Ok(()) => {},
            Err(e) => {
                return Err(e);
            },
        }
        proof {
            match &self.neighbor_store {
                GraphNeighborStore::Builder(bg) => {
                    if !spec_no_init(m) && spec_init_ip(m) != index_pointer && bg.spec_contains(
                        spec_init_ip(m),
                    ) {
                        assert(spec_lsr_avoids(lsr_seeded, index_pointer));
                        assert(spec_candidates_in(lsr, *bg));
                        assert(spec_lsr_avoids(lsr, index_pointer));
                        assert(lsr.candidates@.len() >= 1);
                    }
                },
                GraphNeighborStore::Disk(_) => {},
            }
        }
        // Visited candidates, ranked by the storage-native distance.
        let me = match Node::read(rel, index_pointer, &self.meta_page) {
            Ok(n) => n,
            Err(e) => {
                return Err(e);
            },
        };
        proof {
            crate::node::lemma_payload_of_decodable(rel.item_at(index_pointer), m);
        }
        let ghost prem = match &self.neighbor_store {
            GraphNeighborStore::Builder(bg) => !spec_no_init(m) && spec_init_ip(m)
                != index_pointer && bg.spec_contains(spec_init_ip(m)) && spec_candidates_in(
                lsr,
                *bg,
            ) && spec_lsr_avoids(lsr, index_pointer),
            GraphNeighborStore::Disk(_) => false,
        };
        let mut visited: Vec<NeighborWithDistance> = Vec::new();
        let cn = lsr.candidates.len();
        let mut i: usize = 0;
        while i < cn
            invariant
                0 <= i <= cn,
                cn == lsr.candidates@.len(),
                spec_quantizer_wf(*q, m),
                m == self.meta_page,
                spec_lsr_wf(lsr, *rel, m, *q, sdm.spec_query()),
                spec_node_at(*rel, index_pointer, m),
                me@ == spec_stored_node(*rel, index_pointer, m),
                crate::node::spec_payload_wf(me@.payload, m),
                visited@.len() <= i,
                forall|k: int|
                    0 <= k < visited@.len() ==> spec_node_at(
                        *rel,
                        (#[trigger] visited@[k]).index_pointer,
                        m,
                    ),
                prem == match self.neighbor_store {
                    GraphNeighborStore::Builder(bg) => !spec_no_init(m) && spec_init_ip(m)
                        != index_pointer && bg.spec_contains(spec_init_ip(m))
                        && spec_candidates_in(lsr, bg) && spec_lsr_avoids(lsr, index_pointer),
                    GraphNeighborStore::Disk(_) => false,
                },
                prem ==> match self.neighbor_store {
                    GraphNeighborStore::Builder(bg) => forall|k: int|
                        0 <= k < visited@.len() ==> bg.spec_contains(
                            (#[trigger] visited@[k]).index_pointer,
                        ) && visited@[k].index_pointer != index_pointer,
                    GraphNeighborStore::Disk(_) => true,
                },
                i > 0 && cn > 0 && lsr.candidates@[0].visited ==> visited@.len() > 0
                    && visited@[0].index_pointer == lsr.candidates@[0].index_pointer,
            decreases cn - i,
        {
            let c = lsr.candidates[i];
            if c.visited {
                let cnode = match Node::read(rel, c.index_pointer, &self.meta_page) {
                    Ok(n) => n,
                    Err(e) => {
                        return Err(e);
                    },
                };
                proof {
                    crate::node::lemma_payload_of_decodable(rel.item_at(c.index_pointer), m);
                }
                let d = node_distance(q, &self.meta_page, &me.payload, &cnode.payload);
                visited.push(NeighborWithDistance { index_pointer: c.index_pointer, distance: d });
                proof {
                    if i == 0 {
                        assert(visited@.len() > 0);
                        assert(visited@[0].index_pointer == lsr.candidates@[0].index_pointer);
                    }
                }
            }
            i = i + 1;
        }
        // Prune and store.
        let cap_exec = self.meta_page.get_max_neighbors_during_build();
        let pruned = match robust_prune(
            rel,
            q,
            &self.meta_page,
            &visited,
            self.meta_page.get_max_alpha(),
            cap_exec,
        ) {
            Ok(p) => p,
            Err(e) => {
                return Err(e);
            },
        };
        proof {
            if prem {
                match &self.neighbor_store {
                    GraphNeighborStore::Builder(bg) => {
                        // The search stays seeded, so someone was visited,
                        // and pruning keeps only registered, non-self
                        // candidates.
                        assert(lsr.candidates@.len() >= 1);
                        assert(lsr.candidates@[0].visited);
                        assert(visited@.len() > 0);
                        assert(bg.spec_contains(visited@[0].index_pointer)
                            && visited@[0].index_pointer != index_pointer);
                        lemma_robust_prune_preserves(
                            *rel,
                            *q,
                            m,
                            visited@,
                            self.meta_page.max_alpha as int,
                            cap_exec as int,
                            |c: NeighborWithDistance|
                                bg.spec_contains(c.index_pointer) && c.index_pointer
                                    != index_pointer,
                        );
                        assert(pruned@.len() > 0);
                        assert(bg.spec_contains(pruned@[0].index_pointer) && pruned@[
                            0
                        ].index_pointer != index_pointer);
                    },
                    GraphNeighborStore::Disk(_) => {},
                }
            }
        }
        match &mut self.neighbor_store {
            GraphNeighborStore::Builder(bg) => {
                let clean = filter_candidates(
                    bg,
                    index_pointer,
                    &pruned,
                    Ghost(
                        |c: NeighborWithDistance|
                            spec_node_at(*rel, c.index_pointer, self.meta_page),
                    ),
                );
                proof {
                    if prem {
                        assert(clean@.len() > 0);
                    }
                }
                let ghost bg0 = *bg;
                bg.set(index_pointer, clean.clone());
                proof {
                    assert forall|ip2: IndexPointer| #[trigger] bg.spec_contains(ip2) implies {
                        let lst = bg.spec_neighbors_of(ip2);
                        &&& spec_node_at(*rel, ip2, m)
                        &&& lst.len() <= cap
                        &&& spec_distinct_ips(lst)
                        &&& forall|j: int|
                            0 <= j < lst.len() ==> (#[trigger] lst[j]).index_pointer != ip2
                                && bg.spec_contains(lst[j].index_pointer)
                    } by {
                        if ip2 == index_pointer {
                            assert(bg.spec_neighbors_of(ip2).len() <= cap);
                        } else {
                            assert(bg0.spec_contains(ip2));
                            assert(bg.spec_neighbors_of(ip2) == bg0.spec_neighbors_of(ip2));
                        }
                    }
                }
                // Back-edges: every kept neighbour learns of the new node.
                let bn = clean.len();
                let mut bi: usize = 0;
                while bi < bn
                    invariant
                        0 <= bi <= bn,
                        bn == clean@.len(),
                        spec_quantizer_wf(*q, m),
                        m == self.meta_page,
                        m.wf(),
                        cap == m.spec_max_neighbors_during_build(),
                        bg.keys_distinct(),
                        spec_bg_wf(*bg, *rel, m, cap),
                        bg.spec_contains(index_pointer),
                        bg.spec_len() == bg0.spec_len(),
                        prem ==> bg.spec_neighbors_of(index_pointer).len() > 0,
                        forall|k: int|
                            0 <= k < clean@.len() ==> bg.spec_contains(
                                (#[trigger] clean@[k]).index_pointer,
                            ) && clean@[k].index_pointer != index_pointer,
                        forall|ip2: IndexPointer|
                            #[trigger] bg0.spec_contains(ip2) ==> bg.spec_contains(ip2),
                    decreases bn - bi,
                {
                    let t = clean[bi].get_index_pointer_to_neighbor();
                    let mut tl = match bg.get(t) {
                        Some(l) => l,
                        None => {
                            return Err(IndexError::Invariant);
                        },
                    };
                    if !ip_in_list(&tl, index_pointer) {
                        tl.push(
                            NeighborWithDistance {
                                index_pointer,
                                distance: clean[bi].get_distance(),
                            },
                        );
                        if tl.len() > cap_exec {
                            let rp = match robust_prune(
                                rel,
                                q,
                                &self.meta_page,
                                &tl,
                                self.meta_page.get_max_alpha(),
                                cap_exec,
                            ) {
                                Ok(p) => p,
                                Err(e) => {
                                    return Err(e);
                                },
                            };
                            tl = filter_candidates(
                                bg,
                                t,
                                &rp,
                                Ghost(
                                    |c: NeighborWithDistance|
                                        spec_node_at(*rel, c.index_pointer, self.meta_page),
                                ),
                            );
                        } else {
                            tl = filter_candidates(
                                bg,
                                t,
                                &tl,
                                Ghost(
                                    |c: NeighborWithDistance|
                                        spec_node_at(*rel, c.index_pointer, self.meta_page),
                                ),
                            );
                        }
                        let ghost bgb = *bg;
                        bg.set(t, tl);
                        proof {
                            assert forall|ip2: IndexPointer| #[trigger] bg.spec_contains(
                                ip2,
                            ) implies {
                                let lst = bg.spec_neighbors_of(ip2);
                                &&& spec_node_at(*rel, ip2, m)
                                &&& lst.len() <= cap
                                &&& spec_distinct_ips(lst)
                                &&& forall|j: int|
                                    0 <= j < lst.len() ==> (#[trigger] lst[j]).index_pointer != ip2
                                        && bg.spec_contains(lst[j].index_pointer)
                            } by {
                                if ip2 == t {
                                } else {
                                    assert(bgb.spec_contains(ip2));
                                    assert(bg.spec_neighbors_of(ip2) == bgb.spec_neighbors_of(
                                        ip2,
                                    ));
                                }
                            }
                            assert(clean@[bi as int].index_pointer != index_pointer);
                            assert(t == clean@[bi as int].index_pointer);
                            assert(t != index_pointer);
                            assert(bgb.spec_contains(index_pointer));
                            assert(bg.spec_contains(index_pointer));
                            assert(bg.spec_neighbors_of(index_pointer) == bgb.spec_neighbors_of(
                                index_pointer,
                            ));
                        }
                    }
                    bi = bi + 1;
                }
                Ok(())
            },
            GraphNeighborStore::Disk(dig) => {
                let n_cap = self.meta_page.get_num_neighbors() as usize;
                let pruned2 = drop_self(
                    index_pointer,
                    &pruned,
                    Ghost(
                        |c: NeighborWithDistance|
                            spec_node_at(*rel, c.index_pointer, self.meta_page),
                    ),
                );
                let stored = if pruned2.len() > n_cap {
                    match robust_prune(
                        rel,
                        q,
                        &self.meta_page,
                        &pruned2,
                        self.meta_page.get_max_alpha(),
                        n_cap,
                    ) {
                        Ok(p) => p,
                        Err(e) => {
                            return Err(e);
                        },
                    }
                } else {
                    pruned2
                };
                let stored = drop_self(
                    index_pointer,
                    &stored,
                    Ghost(
                        |c: NeighborWithDistance|
                            spec_node_at(*rel, c.index_pointer, self.meta_page),
                    ),
                );
                let ghost relw = *rel;
                match dig.set_neighbors(q, rel, &self.meta_page, index_pointer, &stored) {
                    Ok(()) => {},
                    Err(e) => {
                        return Err(e);
                    },
                }
                proof {
                    assert(index_pointer.block_number != 0);
                    assert(rel.items(0) == relw.items(0));
                    assert(spec_meta_ok(*rel) && spec_meta_of(*rel) == m);
                }
                let ghost nv0 = spec_stored_node(*rel, index_pointer, m);
                let ghost dprem = spec_graph_closed(*old(rel), m);
                proof {
                    assert(nv0.neighbors =~= Seq::new(
                        stored@.len(),
                        |k: int| stored@[k].index_pointer,
                    ));
                }
                // Back-edges on disk: append and re-prune past the cap.
                let bn = stored.len();
                let mut bi: usize = 0;
                while bi < bn
                    invariant
                        0 <= bi <= bn,
                        bn == stored@.len(),
                        spec_quantizer_wf(*q, m),
                        m == self.meta_page,
                        m.wf(),
                        spec_meta_ok(*rel),
                        spec_meta_of(*rel) == m,
                        spec_node_at(*rel, index_pointer, m),
                        spec_stored_node(*rel, index_pointer, m) == nv0,
                        dprem == spec_graph_closed(*old(rel), m),
                        spec_distinct_ips(stored@),
                        forall|k: int|
                            0 <= k < stored@.len() ==> (#[trigger] stored@[k]).index_pointer
                                != index_pointer,
                        forall|ipx: IndexPointer|
                            spec_node_at(*old(rel), ipx, m) ==> #[trigger] spec_node_at(
                                *rel,
                                ipx,
                                m,
                            ),
                        forall|k: int|
                            0 <= k < stored@.len() ==> spec_node_at(
                                *old(rel),
                                (#[trigger] stored@[k]).index_pointer,
                                m,
                            ),
                        forall|k: int|
                            bi <= k < bn ==> spec_stored_node(
                                *rel,
                                (#[trigger] stored@[k]).index_pointer,
                                m,
                            ) == spec_stored_node(*old(rel), stored@[k].index_pointer, m),
                        dprem ==> forall|k: int|
                            0 <= k < bi ==> spec_back_edge_done(
                                *old(rel),
                                *rel,
                                m,
                                (#[trigger] stored@[k]).index_pointer,
                                index_pointer,
                            ),
                    decreases bn - bi,
                {
                    let t = stored[bi].get_index_pointer_to_neighbor();
                    let mut tl: Vec<NeighborWithDistance> = Vec::new();
                    let ghost t_old_node = spec_stored_node(*old(rel), t, m);
                    proof {
                        if dprem {
                            // The graph was closed, so the target and its
                            // neighbours all decode.
                            assert(spec_node_at(*old(rel), t, m));
                            assert(spec_node_at(*rel, t, m));
                            assert(spec_stored_node(*rel, t, m) == t_old_node);
                            assert forall|j: int|
                                0 <= j < spec_stored_node(*rel, t, m).neighbors.len()
                                    implies spec_node_at(
                                *rel,
                                #[trigger] spec_stored_node(*rel, t, m).neighbors[j],
                                m,
                            ) by {
                                assert(spec_node_at(*old(rel), t_old_node.neighbors[j], m));
                            }
                        }
                    }
                    match dig.get_neighbors_with_full_vector_distances(
                        rel,
                        q,
                        &self.meta_page,
                        t,
                        &mut tl,
                    ) {
                        Ok(()) => {},
                        Err(_) => {
                            proof {
                                if dprem {
                                    assert(false);
                                }
                            }
                            bi = bi + 1;
                            continue;
                        },
                    }
                    if !ip_in_list(&tl, index_pointer) && t != index_pointer {
                        proof {
                            assert forall|k: int| 0 <= k < tl@.len() implies spec_node_at(
                                *rel,
                                (#[trigger] tl@[k]).index_pointer,
                                self.meta_page,
                            ) by {
                                assert(tl@[k] == crate::disk_index_graph::spec_disk_neighbors(
                                    *rel,
                                    self.meta_page,
                                    *q,
                                    t,
                                )[k]);
                                assert(tl@[k].index_pointer == spec_stored_node(
                                    *rel,
                                    t,
                                    self.meta_page,
                                ).neighbors[k]);
                            }
                        }
                        let ghost tl_orig_len = tl@.len();
                        let mut tl = drop_self(
                            t,
                            &tl,
                            Ghost(
                                |c: NeighborWithDistance|
                                    spec_node_at(*rel, c.index_pointer, self.meta_page),
                            ),
                        );
                        let ghost tl0 = tl@;
                        tl.push(
                            NeighborWithDistance {
                                index_pointer,
                                distance: stored[bi].get_distance(),
                            },
                        );
                        proof {
                            assert forall|k: int| 0 <= k < tl@.len() implies spec_node_at(
                                *rel,
                                (#[trigger] tl@[k]).index_pointer,
                                self.meta_page,
                            ) by {
                                if k < tl0.len() {
                                    assert(tl@[k] == tl0[k]);
                                }
                            }
                        }
                        let appended = tl.len() <= n_cap;
                        let rp = if !appended {
                            let p = match robust_prune(
                                rel,
                                q,
                                &self.meta_page,
                                &tl,
                                self.meta_page.get_max_alpha(),
                                n_cap,
                            ) {
                                Ok(p) => p,
                                Err(e) => {
                                    return Err(e);
                                },
                            };
                            drop_self(
                                t,
                                &p,
                                Ghost(
                                    |c: NeighborWithDistance|
                                        spec_node_at(*rel, c.index_pointer, self.meta_page),
                                ),
                            )
                        } else {
                            // The list has room: the new edge is appended
                            // as the last slot.
                            tl
                        };
                        let ghost relw2 = *rel;
                        match dig.set_neighbors(q, rel, &self.meta_page, t, &rp) {
                            Ok(()) => {},
                            Err(e) => {
                                return Err(e);
                            },
                        }
                        proof {
                            assert(t.block_number != 0);
                            assert(rel.items(0) == relw2.items(0));
                            assert(spec_meta_ok(*rel) && spec_meta_of(*rel) == m);
                            assert(rel.item_at(index_pointer) == relw2.item_at(index_pointer));
                            assert(spec_node_at(*rel, index_pointer, m));
                            assert(spec_stored_node(*rel, index_pointer, m) == nv0);
                            assert forall|ipx: IndexPointer|
                                spec_node_at(*old(rel), ipx, m) implies #[trigger] spec_node_at(
                                *rel,
                                ipx,
                                m,
                            ) by {
                                assert(spec_node_at(relw2, ipx, m));
                                if ipx != t {
                                    assert(relw2.valid_ip(ipx));
                                    assert(rel.item_at(ipx) == relw2.item_at(ipx));
                                    if ipx.block_number == t.block_number {
                                        assert(rel.page_ty(ipx.block_number as int) == relw2.page_ty(
                                            ipx.block_number as int,
                                        ));
                                    }
                                }
                            }
                            assert forall|k: int|
                                bi + 1 <= k < bn implies spec_stored_node(
                                *rel,
                                (#[trigger] stored@[k]).index_pointer,
                                m,
                            ) == spec_stored_node(*old(rel), stored@[k].index_pointer, m) by {
                                assert(stored@[bi as int].index_pointer != stored@[
                                    k
                                ].index_pointer);
                                assert(spec_node_at(*old(rel), stored@[k].index_pointer, m));
                                assert(spec_node_at(relw2, stored@[k].index_pointer, m));
                                assert(rel.item_at(stored@[k].index_pointer) == relw2.item_at(
                                    stored@[k].index_pointer,
                                ));
                            }
                            if dprem {
                                assert(spec_back_edge_done(
                                    *old(rel),
                                    *rel,
                                    m,
                                    t,
                                    index_pointer,
                                )) by {
                                    if t_old_node.neighbors.len() < m.num_neighbors && (forall|
                                        k: int,
                                    |
                                        0 <= k < t_old_node.neighbors.len()
                                            ==> #[trigger] t_old_node.neighbors[k]
                                            != index_pointer) {
                                        assert(appended);
                                        assert(rp@.last().index_pointer == index_pointer);
                                        assert(spec_stored_node(*rel, t, m).neighbors.last()
                                            == index_pointer);
                                    }
                                }
                                assert forall|k: int| 0 <= k < bi implies spec_back_edge_done(
                                    *old(rel),
                                    *rel,
                                    m,
                                    (#[trigger] stored@[k]).index_pointer,
                                    index_pointer,
                                ) by {
                                    assert(spec_back_edge_done(
                                        *old(rel),
                                        relw2,
                                        m,
                                        stored@[k].index_pointer,
                                        index_pointer,
                                    ));
                                    assert(stored@[k].index_pointer != t);
                                    assert(spec_node_at(relw2, stored@[k].index_pointer, m));
                                    assert(rel.item_at(stored@[k].index_pointer) == relw2.item_at(
                                        stored@[k].index_pointer,
                                    ));
                                    assert(spec_stored_node(*rel, stored@[k].index_pointer, m)
                                        == spec_stored_node(relw2, stored@[k].index_pointer, m));
                                }
                            }
                        }
                    }
                    bi = bi + 1;
                }
                Ok(())
            },
        }
    }
}


/// After a disk insert, target `t` (an entry of the new node's list) has
/// gained the back-edge as its last slot, provided its list had room and
/// did not already name the new node.
pub open spec fn spec_back_edge_done(
    rel0: Relation,
    rel1: Relation,
    m: MetaPage,
    t: IndexPointer,
    new_ip: IndexPointer,
) -> bool {
    &&& t != new_ip
    &&& spec_node_at(rel1, t, m)
    &&& ((spec_stored_node(rel0, t, m).neighbors.len() < m.num_neighbors && (forall|k: int|
        0 <= k < spec_stored_node(rel0, t, m).neighbors.len()
            ==> #[trigger] spec_stored_node(rel0, t, m).neighbors[k] != new_ip)) ==> (
    spec_stored_node(rel1, t, m).neighbors.len() > 0 && spec_stored_node(
        rel1,
        t,
        m,
    ).neighbors.last() == new_ip))
}

/// End-of-build property: every registered node is stored with a
/// duplicate-free neighbour list of at most `num_neighbors` entries, no
/// self-loop, and every neighbour resolves to a registered, stored node.
pub open spec fn spec_graph_finalized(bg: BuilderGraph, rel: Relation, m: MetaPage) -> bool {
    forall|ip: IndexPointer| #[trigger] bg.spec_contains(ip) ==> {
        let nbrs = spec_stored_node(rel, ip, m).neighbors;
        &&& spec_node_at(rel, ip, m)
        &&& nbrs.len() <= m.num_neighbors
        &&& (forall|a: int, b: int| 0 <= a < b < nbrs.len() ==> nbrs[a] != nbrs[b])
        &&& forall|j: int|
            0 <= j < nbrs.len() ==> #[trigger] nbrs[j] != ip && bg.spec_contains(nbrs[j])
                && spec_node_at(rel, nbrs[j], m)
    }
}

/// Write every builder list into its node's slots, pruning lists that
/// exceed the stored cap.  Afterwards the graph on disk satisfies the
/// end-of-build property: no self-loops, no duplicates, every neighbour
/// resolves.
pub fn finalize_node_neighbors(
    bg: &BuilderGraph,
    rel: &mut Relation,
    q: &Quantizer,
    m: &MetaPage,
) -> (r: Result<WriteStats, IndexError>)
    requires
        bg.keys_distinct(),
        spec_quantizer_wf(*q, *m),
        spec_bg_wf(*bg, *old(rel), *m, m.spec_max_neighbors_during_build()),
    ensures
        r is Ok,
        r is Ok ==> spec_graph_finalized(*bg, *final(rel), *m),
        forall|ip2: ItemPointer| old(rel).valid_ip(ip2) <==> #[trigger] final(rel).valid_ip(ip2),
        forall|p: int|
            0 <= p < old(rel).num_pages() ==> final(rel).page_ty(p) == old(rel).page_ty(p),
        final(rel).num_pages() == old(rel).num_pages(),
        forall|ip2: ItemPointer|
            old(rel).valid_ip(ip2) && old(rel).page_ty(ip2.block_number as int)
                != PageType::Node ==> #[trigger] final(rel).item_at(ip2) == old(rel).item_at(ip2),
    {
        let mut stats = WriteStats::new();
        let total = bg.num_nodes();
        let n_cap = m.get_num_neighbors() as usize;
        let mut i: usize = 0;
        while i < total
            invariant
                0 <= i <= total,
                total == bg.spec_len(),
                bg.keys_distinct(),
                spec_quantizer_wf(*q, *m),
                n_cap == m.num_neighbors,
                spec_bg_wf(*bg, *rel, *m, m.spec_max_neighbors_during_build()),
                forall|ip2: ItemPointer|
                    old(rel).valid_ip(ip2) <==> #[trigger] rel.valid_ip(ip2),
                forall|p: int|
                    0 <= p < old(rel).num_pages() ==> rel.page_ty(p) == old(rel).page_ty(p),
                rel.num_pages() == old(rel).num_pages(),
                forall|ip2: ItemPointer|
                    old(rel).valid_ip(ip2) && old(rel).page_ty(ip2.block_number as int)
                        != PageType::Node ==> #[trigger] rel.item_at(ip2) == old(rel).item_at(ip2),
                forall|t: int|
                    0 <= t < i ==> spec_entry_finalized(*bg, *rel, *m, #[trigger] bg.view_entries()[t].0),
            decreases total - i,
        {
            let (ip, l) = bg.entry_at(i);
            proof {
                crate::graph_neighbor_store::lemma_find_props(bg.view_entries(), ip);
                let f = crate::graph_neighbor_store::spec_find(bg.view_entries(), ip);
                assert(bg.view_entries()[f].0 == ip);
                if f != i as int {
                    if f < i as int {
                        crate::graph_neighbor_store::lemma_keys_distinct_at(*bg, f, i as int);
                    } else {
                        crate::graph_neighbor_store::lemma_keys_distinct_at(*bg, i as int, f);
                    }
                }
                assert(bg.spec_neighbors_of(ip) == l@);
                assert forall|k: int| 0 <= k < l@.len() implies spec_node_at(
                    *rel,
                    (#[trigger] l@[k]).index_pointer,
                    *m,
                ) by {
                    assert(bg.spec_contains(ip));
                    assert(bg.spec_neighbors_of(ip)[k] == l@[k]);
                }
            }
            let use_list = if l.len() > n_cap {
                let rp = match robust_prune(rel, q, m, &l, m.get_max_alpha(), n_cap) {
                    Ok(p) => p,
                    Err(e) => {
                        return Err(e);
                    },
                };
                stats.num_prunes = if stats.num_prunes < u64::MAX {
                    stats.num_prunes + 1
                } else {
                    stats.num_prunes
                };
                filter_candidates(
                    bg,
                    ip,
                    &rp,
                    Ghost(|c: NeighborWithDistance| spec_node_at(*rel, c.index_pointer, *m)),
                )
            } else {
                filter_candidates(
                    bg,
                    ip,
                    &l,
                    Ghost(|c: NeighborWithDistance| spec_node_at(*rel, c.index_pointer, *m)),
                )
            };
            let mut ptrs: Vec<IndexPointer> = Vec::new();
            let un = use_list.len();
            let mut t: usize = 0;
            while t < un
                invariant
                    0 <= t <= un,
                    un == use_list@.len(),
                    ptrs@.len() == t,
                    forall|k: int|
                        0 <= k < t ==> #[trigger] ptrs@[k] == use_list@[k].index_pointer,
                decreases un - t,
            {
                ptrs.push(use_list[t].get_index_pointer_to_neighbor());
                t = t + 1;
            }
            let ghost relb = *rel;
            match Node::update_neighbors(rel, ip, m, &ptrs) {
                Ok(()) => {},
                Err(e) => {
                    return Err(e);
                },
            }
            proof {
                assert(ptrs@ =~= Seq::new(
                    use_list@.len(),
                    |j: int| use_list@[j].index_pointer,
                ));
                lemma_finalize_step(*bg, relb, *rel, *m, ip, i as int, use_list@, ptrs@);
            }
            stats.num_nodes = if stats.num_nodes < u64::MAX {
                stats.num_nodes + 1
            } else {
                stats.num_nodes
            };
            i = i + 1;
        }
        proof {
            assert forall|ipk: IndexPointer| #[trigger] bg.spec_contains(ipk) implies {
                let nbrs = spec_stored_node(*rel, ipk, *m).neighbors;
                &&& spec_node_at(*rel, ipk, *m)
                &&& nbrs.len() <= m.num_neighbors
                &&& (forall|a: int, b: int| 0 <= a < b < nbrs.len() ==> nbrs[a] != nbrs[b])
                &&& forall|j: int|
                    0 <= j < nbrs.len() ==> #[trigger] nbrs[j] != ipk && bg.spec_contains(nbrs[j])
                        && spec_node_at(*rel, nbrs[j], *m)
            } by {
                crate::graph_neighbor_store::lemma_find_props(bg.view_entries(), ipk);
                let f = crate::graph_neighbor_store::spec_find(bg.view_entries(), ipk);
                assert(bg.view_entries()[f].0 == ipk);
                assert(spec_entry_finalized(*bg, *rel, *m, ipk));
            }
        }
        Ok(stats)
    }

/// One node's slots hold a finalized list.
pub open spec fn spec_entry_finalized(
    bg: BuilderGraph,
    rel: Relation,
    m: MetaPage,
    ip: IndexPointer,
) -> bool {
    let nbrs = spec_stored_node(rel, ip, m).neighbors;
    &&& spec_node_at(rel, ip, m)
    &&& nbrs.len() <= m.num_neighbors
    &&& (forall|a: int, b: int| 0 <= a < b < nbrs.len() ==> nbrs[a] != nbrs[b])
    &&& forall|j: int|
        0 <= j < nbrs.len() ==> #[trigger] nbrs[j] != ip && bg.spec_contains(nbrs[j])
            && spec_node_at(rel, nbrs[j], m)
}

/// After writing `ptrs` into the node at `ip`, that entry is finalized and
/// every previously finalized entry stays finalized.
proof fn lemma_finalize_step(
    bg: BuilderGraph,
    r0: Relation,
    r1: Relation,
    m: MetaPage,
    ip: IndexPointer,
    i: int,
    use_list: Seq<NeighborWithDistance>,
    ptrs: Seq<IndexPointer>,
)
    requires
        bg.keys_distinct(),
        0 <= i < bg.spec_len(),
        bg.view_entries()[i].0 == ip,
        spec_bg_wf(bg, r0, m, m.spec_max_neighbors_during_build()),
        ptrs.len() == use_list.len(),
        use_list.len() <= m.num_neighbors,
        forall|k: int| 0 <= k < ptrs.len() ==> #[trigger] ptrs[k] == use_list[k].index_pointer,
        spec_distinct_ips(use_list),
        forall|k: int|
            0 <= k < use_list.len() ==> (#[trigger] use_list[k]).index_pointer != ip
                && bg.spec_contains(use_list[k].index_pointer),
        spec_node_at(r1, ip, m),
        spec_stored_node(r1, ip, m) == (crate::node::NodeV {
            neighbors: Seq::new(use_list.len(), |j: int| use_list[j].index_pointer),
            ..spec_stored_node(r0, ip, m)
        }),
        forall|ip2: ItemPointer| r0.valid_ip(ip2) <==> #[trigger] r1.valid_ip(ip2),
        forall|ip2: ItemPointer|
            r0.valid_ip(ip2) && ip2 != ip ==> #[trigger] r1.item_at(ip2) == r0.item_at(ip2),
        r1.same_except(r0, ip.block_number as int),
        r1.page_ty(ip.block_number as int) == r0.page_ty(ip.block_number as int),
        forall|t: int|
            0 <= t < i ==> spec_entry_finalized(bg, r0, m, #[trigger] bg.view_entries()[t].0),
    ensures
        spec_bg_wf(bg, r1, m, m.spec_max_neighbors_during_build()),
        forall|t: int|
            0 <= t <= i ==> spec_entry_finalized(bg, r1, m, #[trigger] bg.view_entries()[t].0),
{
    assert forall|ipx: IndexPointer| #[trigger] bg.spec_contains(ipx) implies spec_node_at(
        r1,
        ipx,
        m,
    ) && (ipx != ip ==> spec_stored_node(r1, ipx, m) == spec_stored_node(r0, ipx, m)) by {
        if ipx != ip {
            assert(r0.valid_ip(ipx));
            assert(r1.item_at(ipx) == r0.item_at(ipx));
            assert(r1.page_ty(ipx.block_number as int) == r0.page_ty(ipx.block_number as int))
                by {
                if ipx.block_number != ip.block_number {
                } else {
                }
            }
        }
    }
    assert forall|ipx: IndexPointer| #[trigger] bg.spec_contains(ipx) implies {
        let l = bg.spec_neighbors_of(ipx);
        &&& spec_node_at(r1, ipx, m)
        &&& l.len() <= m.spec_max_neighbors_during_build()
        &&& spec_distinct_ips(l)
        &&& forall|j: int|
            0 <= j < l.len() ==> (#[trigger] l[j]).index_pointer != ipx && bg.spec_contains(
                l[j].index_pointer,
            )
    } by {}
    let nbrs = spec_stored_node(r1, ip, m).neighbors;
    assert(nbrs =~= Seq::new(use_list.len(), |j: int| use_list[j].index_pointer));
    assert(spec_entry_finalized(bg, r1, m, ip)) by {
        assert forall|a: int, b: int| 0 <= a < b < nbrs.len() implies nbrs[a] != nbrs[b] by {
            assert(use_list[a].index_pointer != use_list[b].index_pointer);
        }
        assert forall|j: int| 0 <= j < nbrs.len() implies #[trigger] nbrs[j] != ip
            && bg.spec_contains(nbrs[j]) && spec_node_at(r1, nbrs[j], m) by {
            assert(nbrs[j] == use_list[j].index_pointer);
        }
    }
    assert forall|t: int| 0 <= t <= i implies spec_entry_finalized(
        bg,
        r1,
        m,
        #[trigger] bg.view_entries()[t].0,
    ) by {
        let ipt = bg.view_entries()[t].0;
        if t < i {
            assert(spec_entry_finalized(bg, r0, m, ipt));
            assert(ipt != ip) by {
                crate::graph_neighbor_store::lemma_keys_distinct_at(bg, t, i);
            }
            let nt = spec_stored_node(r0, ipt, m).neighbors;
            assert(spec_stored_node(r1, ipt, m) == spec_stored_node(r0, ipt, m)) by {
                crate::graph_neighbor_store::lemma_find_props(bg.view_entries(), ipt);
                assert(bg.spec_contains(ipt));
            }
            assert forall|j: int| 0 <= j < nt.len() implies #[trigger] nt[j] != ipt
                && bg.spec_contains(nt[j]) && spec_node_at(r1, nt[j], m) by {
                crate::graph_neighbor_store::lemma_find_props(bg.view_entries(), nt[j]);
            }
        }
    }
}

} // verus!