//! The disk-backed view of the proximity graph: neighbour lists are read
//! from and written to the nodes' own pages.  Scans and single-row inserts
//! go through this store; builds use the in-memory builder map instead.

use vstd::prelude::*;
use crate::graph::NodeNeighbor;
use crate::meta_page::MetaPage;
use crate::neighbor_with_distance::NeighborWithDistance;
use crate::node::{spec_node_at, spec_stored_node, Node, NodeV};
use crate::page::Relation;
use crate::storage::{node_distance, spec_node_dist, spec_quantizer_wf, Quantizer};
use crate::util::{IndexError, IndexPointer, ItemPointer};

verus! {

/// The neighbour lists a node's page holds, with the storage-native
/// distance from the node to each neighbour.
pub open spec fn spec_disk_neighbors(
    rel: Relation,
    m: MetaPage,
    q: Quantizer,
    neighbors_of: ItemPointer,
) -> Seq<NeighborWithDistance> {
    let node = spec_stored_node(rel, neighbors_of, m);
    Seq::new(
        node.neighbors.len(),
        |j: int| NeighborWithDistance {
            index_pointer: node.neighbors[j],
            distance: spec_node_dist(
                q,
                m,
                node.payload,
                spec_stored_node(rel, node.neighbors[j], m).payload,
            ) as u64,
        },
    )
}

/// The graph as stored on disk.
pub struct DiskIndexGraph {}

impl DiskIndexGraph {
    pub fn new() -> (r: Self)
        ensures
            r == (DiskIndexGraph {}),
    {
        Self {  }
    }

    /// The neighbour pointers a node reports.
    pub fn get_neighbors<N: NodeNeighbor>(&self, node: &N) -> (r: Vec<ItemPointer>)
        ensures
            r@ == node.neighbors_view(),
    {
        node.get_index_pointer_to_neighbors()
    }

    /// Read the node at `neighbors_of` and push one entry per neighbour,
    /// with the storage-native distance to it.  Fails with `Storage`
    /// exactly when the node or one of its neighbours does not decode.
    pub fn get_neighbors_with_full_vector_distances(
        &self,
        rel: &Relation,
        q: &Quantizer,
        m: &MetaPage,
        neighbors_of: ItemPointer,
        result: &mut Vec<NeighborWithDistance>,
    ) -> (r: Result<(), IndexError>)
        requires
            spec_quantizer_wf(*q, *m),
        ensures
            r is Ok <==> spec_node_at(*rel, neighbors_of, *m) && (forall|j: int|
                0 <= j < spec_stored_node(*rel, neighbors_of, *m).neighbors.len()
                    ==> spec_node_at(
                    *rel,
                    #[trigger] spec_stored_node(*rel, neighbors_of, *m).neighbors[j],
                    *m,
                )),
            match r {
                Ok(()) => {
                    &&& spec_node_at(*rel, neighbors_of, *m)
                    &&& final(result)@ == old(result)@ + spec_disk_neighbors(
                        *rel,
                        *m,
                        *q,
                        neighbors_of,
                    )
                    &&& forall|j: int|
                        0 <= j < spec_stored_node(*rel, neighbors_of, *m).neighbors.len()
                            ==> spec_node_at(
                            *rel,
                            #[trigger] spec_stored_node(*rel, neighbors_of, *m).neighbors[j],
                            *m,
                        )
                },
                Err(e) => e == IndexError::Storage,
            },
    {
        let node = match Node::read(rel, neighbors_of, m) {
            Ok(n) => n,
            Err(e) => {
                return Err(e);
            },
        };
        let ghost base = result@;
        let ghost want = spec_disk_neighbors(*rel, *m, *q, neighbors_of);
        let mut j: usize = 0;
        let n = node.neighbors.len();
        while j < n
            invariant
                0 <= j <= n,
                n == node.neighbors@.len(),
                spec_quantizer_wf(*q, *m),
                spec_node_at(*rel, neighbors_of, *m),
                node@ == spec_stored_node(*rel, neighbors_of, *m),
                want == spec_disk_neighbors(*rel, *m, *q, neighbors_of),
                want.len() == n,
                result@ == base + want.take(j as int),
                forall|t: int|
                    0 <= t < j ==> spec_node_at(*rel, #[trigger] node@.neighbors[t], *m),
            decreases n - j,
        {
            let nip = node.neighbors[j];
            let nb = match Node::read(rel, nip, m) {
                Ok(nb) => nb,
                Err(e) => {
                    return Err(e);
                },
            };
            proof {
                crate::node::lemma_payload_of_decodable(rel.item_at(neighbors_of), *m);
                crate::node::lemma_payload_of_decodable(rel.item_at(nip), *m);
            }
            let d = node_distance(q, m, &node.payload, &nb.payload);
            result.push(NeighborWithDistance { index_pointer: nip, distance: d });
            proof {
                assert(result@ =~= base + want.take(j as int + 1));
            }
            j = j + 1;
        }
        proof {
            assert(want.take(n as int) =~= want);
        }
        Ok(())
    }

    /// Rewrite a node's neighbour slots in place.
    pub fn set_neighbors(
        &mut self,
        q: &Quantizer,
        rel: &mut Relation,
        meta_page: &MetaPage,
        neighbors_of: ItemPointer,
        new_neighbors: &Vec<NeighborWithDistance>,
    ) -> (r: Result<(), IndexError>)
        requires
            spec_quantizer_wf(*q, *meta_page),
            new_neighbors@.len() <= meta_page.num_neighbors,
        ensures
            r is Ok <==> spec_node_at(*old(rel), neighbors_of, *meta_page),
            match r {
                Ok(()) => {
                    &&& spec_node_at(*final(rel), neighbors_of, *meta_page)
                    &&& spec_stored_node(*final(rel), neighbors_of, *meta_page) == (NodeV {
                        neighbors: Seq::new(
                            new_neighbors@.len(),
                            |j: int| new_neighbors@[j].index_pointer,
                        ),
                        ..spec_stored_node(*old(rel), neighbors_of, *meta_page)
                    })
                    &&& forall|ip2: ItemPointer|
                        old(rel).valid_ip(ip2) <==> #[trigger] final(rel).valid_ip(ip2)
                    &&& forall|ip2: ItemPointer|
                        old(rel).valid_ip(ip2) && ip2 != neighbors_of ==> #[trigger] final(rel).item_at(ip2) == old(rel).item_at(ip2)
                    &&& final(rel).same_except(*old(rel), neighbors_of.block_number as int)
                    &&& final(rel).page_ty(neighbors_of.block_number as int) == old(rel).page_ty(
                        neighbors_of.block_number as int,
                    )
                },
                Err(e) => {
                    &&& e == IndexError::Storage
                    &&& *final(rel) == *old(rel)
                },
            },
    {
        let mut ptrs: Vec<IndexPointer> = Vec::new();
        let n = new_neighbors.len();
        let mut j: usize = 0;
        while j < n
            invariant
                0 <= j <= n,
                n == new_neighbors@.len(),
                ptrs@.len() == j,
                forall|t: int| 0 <= t < j ==> #[trigger] ptrs@[t] == new_neighbors@[t].index_pointer,
            decreases n - j,
        {
            ptrs.push(new_neighbors[j].get_index_pointer_to_neighbor());
            j = j + 1;
        }
        let r = Node::update_neighbors(rel, neighbors_of, meta_page, &ptrs);
        proof {
            if r is Ok {
                assert(ptrs@ =~= Seq::new(
                    new_neighbors@.len(),
                    |t: int| new_neighbors@[t].index_pointer,
                ));
            }
        }
        r
    }

    /// The neighbour cap each node's slots were allocated for.
    pub fn max_neighbors(&self, meta_page: &MetaPage) -> (r: usize)
        ensures
            r == meta_page.num_neighbors,
    {
        meta_page.get_num_neighbors() as usize
    }
}

} // verus!
