//! The two homes a node's neighbour list can have: the builder's in-memory
//! map while an index is being built, and the nodes' own pages afterwards.

use vstd::prelude::*;
use crate::disk_index_graph::DiskIndexGraph;
use crate::neighbor_with_distance::NeighborWithDistance;
use crate::util::IndexPointer;

verus! {

/// Position of `ip` among the entries, searched from the back; `-1` when
/// absent.
pub open spec fn spec_find(s: Seq<(IndexPointer, Vec<NeighborWithDistance>)>, ip: IndexPointer) -> int
    decreases s.len(),
{
    if s.len() == 0 {
        -1
    } else if s.last().0 == ip {
        s.len() - 1
    } else {
        spec_find(s.drop_last(), ip)
    }
}

pub proof fn lemma_find_props(s: Seq<(IndexPointer, Vec<NeighborWithDistance>)>, ip: IndexPointer)
    ensures
        spec_find(s, ip) >= 0 <==> exists|i: int| 0 <= i < s.len() && (#[trigger] s[i]).0 == ip,
        spec_find(s, ip) >= 0 ==> spec_find(s, ip) < s.len() && s[spec_find(s, ip)].0 == ip,
    decreases s.len(),
{
    if s.len() > 0 {
        lemma_find_props(s.drop_last(), ip);
        if s.last().0 == ip {
        } else {
            assert(forall|i: int|
                0 <= i < s.len() - 1 ==> (#[trigger] s[i]) == s.drop_last()[i]);
        }
    }
}

/// The in-memory neighbour map a build works against: one entry per node
/// created so far.
pub struct BuilderGraph {
    entries: Vec<(IndexPointer, Vec<NeighborWithDistance>)>,
}

impl BuilderGraph {
    /// The underlying association list.
    pub closed spec fn view_entries(self) -> Seq<(IndexPointer, Vec<NeighborWithDistance>)> {
        self.entries@
    }

    /// Number of nodes registered.
    pub open spec fn spec_len(self) -> int {
        self.view_entries().len() as int
    }

    /// Whether `ip` is a registered node.
    pub open spec fn spec_contains(self, ip: IndexPointer) -> bool {
        spec_find(self.view_entries(), ip) >= 0
    }

    /// The neighbour list registered for `ip`.
    pub open spec fn spec_neighbors_of(self, ip: IndexPointer) -> Seq<NeighborWithDistance> {
        self.view_entries()[spec_find(self.view_entries(), ip)].1@
    }

    /// Keys are never repeated.
    pub closed spec fn keys_distinct(self) -> bool {
        forall|i: int, j: int|
            0 <= i < j < self.entries@.len() ==> (#[trigger] self.entries@[i]).0 != (
            #[trigger] self.entries@[j]).0
    }

    pub fn new() -> (r: Self)
        ensures
            r.spec_len() == 0,
            r.keys_distinct(),
            forall|ip: IndexPointer| !r.spec_contains(ip),
    {
        let r = BuilderGraph { entries: Vec::new() };
        proof {
            assert forall|ip: IndexPointer| !r.spec_contains(ip) by {
                lemma_find_props(r.entries@, ip);
            }
        }
        r
    }

    pub fn num_nodes(&self) -> (r: usize)
        ensures
            r as int == self.spec_len(),
    {
        self.entries.len()
    }

    pub fn contains(&self, ip: IndexPointer) -> (r: bool)
        ensures
            r == self.spec_contains(ip),
    {
        let mut i: usize = 0;
        let n = self.entries.len();
        proof {
            lemma_find_props(self.entries@, ip);
        }
        while i < n
            invariant
                0 <= i <= n,
                n == self.entries@.len(),
                forall|j: int| 0 <= j < i ==> (#[trigger] self.entries@[j]).0 != ip,
            decreases n - i,
        {
            if self.entries[i].0 == ip {
                return true;
            }
            i = i + 1;
        }
        false
    }

    /// The neighbour list of a registered node; `None` exactly when the
    /// node is unknown.
    pub fn get(&self, ip: IndexPointer) -> (r: Option<Vec<NeighborWithDistance>>)
        requires
            self.keys_distinct(),
        ensures
            r is Some <==> self.spec_contains(ip),
            r is Some ==> r->Some_0@ == self.spec_neighbors_of(ip),
    {
        let mut i: usize = 0;
        let n = self.entries.len();
        proof {
            lemma_find_props(self.entries@, ip);
        }
        while i < n
            invariant
                0 <= i <= n,
                n == self.entries@.len(),
                self.keys_distinct(),
                forall|j: int| 0 <= j < i ==> (#[trigger] self.entries@[j]).0 != ip,
            decreases n - i,
        {
            if self.entries[i].0 == ip {
                proof {
                    lemma_find_props(self.entries@, ip);
                    let f = spec_find(self.entries@, ip);
                    assert(self.entries@[f].0 == ip);
                    assert(f == i);
                }
                let v = self.entries[i].1.clone();
                proof {
                    assert(v@ =~= self.entries@[i as int].1@);
                }
                return Some(v);
            }
            i = i + 1;
        }
        None
    }

    /// Register or replace the neighbour list of a node.  No other entry
    /// moves.
    pub fn set(&mut self, ip: IndexPointer, neighbors: Vec<NeighborWithDistance>)
        requires
            old(self).keys_distinct(),
        ensures
            final(self).keys_distinct(),
            final(self).spec_contains(ip),
            final(self).spec_neighbors_of(ip) == neighbors@,
            forall|ip2: IndexPointer|
                ip2 != ip ==> (#[trigger] final(self).spec_contains(ip2) == old(self).spec_contains(ip2)) && (old(self).spec_contains(ip2) ==> final(self).spec_neighbors_of(ip2) == old(self).spec_neighbors_of(ip2)),
            old(self).spec_contains(ip) ==> final(self).spec_len() == old(self).spec_len(),
            !old(self).spec_contains(ip) ==> final(self).spec_len() == old(self).spec_len() + 1,
    {
        let ghost entries0 = self.entries@;
        let mut i: usize = 0;
        let n = self.entries.len();
        proof {
            lemma_find_props(self.entries@, ip);
        }
        while i < n
            invariant
                0 <= i <= n,
                n == self.entries@.len(),
                self.entries@ == entries0,
                self.keys_distinct(),
                forall|j: int| 0 <= j < i ==> (#[trigger] self.entries@[j]).0 != ip,
            decreases n - i,
        {
            if self.entries[i].0 == ip {
                let ghost prev = self.entries@;
                self.entries.remove(i);
                self.entries.insert(i, (ip, neighbors));
                proof {
                    assert(self.entries@ =~= prev.update(i as int, self.entries@[i as int]));
                    assert(self.entries@[i as int].0 == ip && self.entries@[i as int].1@
                        == neighbors@);
                    lemma_find_from_distinct(self.entries@, ip, i as int);
                    assert forall|ip2: IndexPointer| ip2 != ip implies (
                    #[trigger] self.spec_contains(ip2) == old(self).spec_contains(ip2)) && (old(
                        self,
                    ).spec_contains(ip2) ==> self.spec_neighbors_of(ip2) == old(
                        self,
                    ).spec_neighbors_of(ip2)) by {
                        lemma_find_update_other(prev, self.entries@, ip2, i as int);
                    }
                }
                return;
            }
            i = i + 1;
        }
        let ghost prev = self.entries@;
        self.entries.push((ip, neighbors));
        proof {
            assert(self.entries@.last().0 == ip);
            assert(self.entries@.drop_last() =~= prev);
            assert(spec_find(self.entries@, ip) == self.entries@.len() - 1);
            assert(self.entries@[self.entries@.len() - 1].1@ == neighbors@);
            assert forall|ip2: IndexPointer| ip2 != ip implies (
            #[trigger] self.spec_contains(ip2) == old(self).spec_contains(ip2)) && (old(
                self,
            ).spec_contains(ip2) ==> self.spec_neighbors_of(ip2) == old(
                self,
            ).spec_neighbors_of(ip2)) by {
                lemma_find_props(prev, ip2);
                assert(self.entries@.len() == prev.len() + 1);
                assert(self.entries@.last().0 != ip2);
                assert(self.entries@.drop_last() =~= prev);
                assert(spec_find(self.entries@, ip2) == spec_find(self.entries@.drop_last(), ip2));
                assert(spec_find(self.entries@, ip2) == spec_find(prev, ip2));
            }
        }
    }

    /// The entry at a position, for walking the map at finalize.
    pub fn entry_at(&self, i: usize) -> (r: (IndexPointer, Vec<NeighborWithDistance>))
        requires
            0 <= i < self.spec_len(),
        ensures
            r.0 == self.view_entries()[i as int].0,
            r.1@ == self.view_entries()[i as int].1@,
            self.spec_contains(r.0),
    {
        proof {
            lemma_find_props(self.view_entries(), self.view_entries()[i as int].0);
        }
        let e = &self.entries[i];
        let v = e.1.clone();
        proof {
            assert(v@ =~= self.entries@[i as int].1@);
        }
        (e.0, v)
    }
}

/// Distinct keys never repeat at two positions.
pub proof fn lemma_keys_distinct_at(bg: BuilderGraph, a: int, b: int)
    requires
        bg.keys_distinct(),
        0 <= a < b < bg.spec_len(),
    ensures
        bg.view_entries()[a].0 != bg.view_entries()[b].0,
{
}

/// In a distinct-key list, the key at `i` is found at `i`.
proof fn lemma_find_from_distinct(
    s: Seq<(IndexPointer, Vec<NeighborWithDistance>)>,
    ip: IndexPointer,
    i: int,
)
    requires
        0 <= i < s.len(),
        s[i].0 == ip,
        forall|a: int, b: int| 0 <= a < b < s.len() ==> (#[trigger] s[a]).0 != (#[trigger] s[b]).0,
    ensures
        spec_find(s, ip) == i,
    decreases s.len(),
{
    if s.len() > 0 {
        if s.last().0 == ip {
            assert(i == s.len() - 1);
        } else {
            assert(i < s.len() - 1);
            lemma_find_from_distinct(s.drop_last(), ip, i);
        }
    }
}

/// Updating entry `i` leaves every other key's lookup unchanged.
proof fn lemma_find_update_other(
    s0: Seq<(IndexPointer, Vec<NeighborWithDistance>)>,
    s1: Seq<(IndexPointer, Vec<NeighborWithDistance>)>,
    ip: IndexPointer,
    i: int,
)
    requires
        s0.len() == s1.len(),
        0 <= i < s0.len(),
        forall|j: int| 0 <= j < s0.len() && j != i ==> s0[j] == s1[j],
        s0[i].0 != ip,
        s1[i].0 != ip,
    ensures
        spec_find(s0, ip) == spec_find(s1, ip),
        spec_find(s0, ip) >= 0 ==> s0[spec_find(s0, ip)].1 == s1[spec_find(s1, ip)].1,
    decreases s0.len(),
{
    lemma_find_props(s0, ip);
    lemma_find_props(s1, ip);
    if s0.len() > 0 {
        if i == s0.len() - 1 {
            assert(s0.drop_last() =~= s1.drop_last());
        } else {
            assert(s0.last() == s1.last());
            if s0.last().0 == ip {
            } else {
                lemma_find_update_other(s0.drop_last(), s1.drop_last(), ip, i);
            }
        }
        if spec_find(s0, ip) >= 0 {
            let f = spec_find(s0, ip);
            assert(s0[f].0 == ip);
            assert(f != i);
            assert(s0[f] == s1[f]);
        }
    }
}

/// Where neighbour lists live: the builder's map during a build, the
/// nodes' own pages for scans and single-row inserts.
pub enum GraphNeighborStore {
    Builder(BuilderGraph),
    Disk(DiskIndexGraph),
}

} // verus!
