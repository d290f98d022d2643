//! Counters the operations keep about their own work, reported by the
//! host when a scan ends, and the model of the host's cancellation flag
//! that long operations poll.

use vstd::prelude::*;

verus! {

/// What one greedy search did.
#[derive(Clone, Copy, PartialEq, Eq, Structural, Debug)]
pub struct GreedySearchStats {
    pub calls: u64,
    pub node_reads: u64,
    pub distance_comparisons: u64,
    pub quantized_distance_comparisons: u64,
}

impl GreedySearchStats {
    pub fn new() -> (r: Self)
        ensures
            r == (GreedySearchStats {
                calls: 0,
                node_reads: 0,
                distance_comparisons: 0,
                quantized_distance_comparisons: 0,
            }),
    {
        GreedySearchStats { calls: 0, node_reads: 0, distance_comparisons: 0, quantized_distance_comparisons: 0 }
    }

    pub fn get_calls(&self) -> (r: u64)
        ensures
            r == self.calls,
    {
        self.calls
    }

    pub fn get_node_reads(&self) -> (r: u64)
        ensures
            r == self.node_reads,
    {
        self.node_reads
    }

    pub fn get_total_distance_comparisons(&self) -> (r: u64)
        ensures
            r == self.distance_comparisons,
    {
        self.distance_comparisons
    }

    pub fn get_quantized_distance_comparisons(&self) -> (r: u64)
        ensures
            r == self.quantized_distance_comparisons,
    {
        self.quantized_distance_comparisons
    }

    /// Count saturate rather than wrap, so bookkeeping can never abort an
    /// operation.
    pub fn record_call(&mut self)
        ensures
            final(self).calls >= old(self).calls,
    {
        if self.calls < u64::MAX {
            self.calls = self.calls + 1;
        }
    }

    pub fn record_read(&mut self)
        ensures
            final(self).node_reads >= old(self).node_reads,
    {
        if self.node_reads < u64::MAX {
            self.node_reads = self.node_reads + 1;
        }
    }

    pub fn record_distance_comparison(&mut self)
        ensures
            final(self).distance_comparisons >= old(self).distance_comparisons,
    {
        if self.distance_comparisons < u64::MAX {
            self.distance_comparisons = self.distance_comparisons + 1;
        }
    }
}

/// Quantizer blob traffic during a scan or build.
#[derive(Clone, Copy, PartialEq, Eq, Structural, Debug)]
pub struct QuantizerStats {
    pub node_reads: u64,
    pub node_writes: u64,
}

impl QuantizerStats {
    pub fn new() -> (r: Self)
        ensures
            r == (QuantizerStats { node_reads: 0, node_writes: 0 }),
    {
        QuantizerStats { node_reads: 0, node_writes: 0 }
    }
}

/// What finalizing the build wrote.
#[derive(Clone, Copy, PartialEq, Eq, Structural, Debug)]
pub struct WriteStats {
    pub num_nodes: u64,
    pub num_neighbors: u64,
    pub num_prunes: u64,
}

impl WriteStats {
    pub fn new() -> (r: Self)
        ensures
            r == (WriteStats { num_nodes: 0, num_neighbors: 0, num_prunes: 0 }),
    {
        WriteStats { num_nodes: 0, num_neighbors: 0, num_prunes: 0 }
    }
}

/// The host's cancellation flag as an operation sees it: some number of
/// polls from now, the flag will read true.  The host passes the budget;
/// every row and candidate-expansion step polls once.  Only polling can
/// lower the count, so a cancellation error really means the budget ran
/// out.
pub struct InterruptFlag {
    countdown: u64,
}

impl InterruptFlag {
    /// Polls left before the flag reads true.
    pub closed spec fn spec_countdown(self) -> u64 {
        self.countdown
    }

    pub fn new(countdown: u64) -> (r: Self)
        ensures
            r.spec_countdown() == countdown,
    {
        InterruptFlag { countdown }
    }

    /// Poll the flag; `true` means the host asked to cancel.
    pub fn check_for_interrupts(&mut self) -> (r: bool)
        ensures
            r == (old(self).spec_countdown() == 0),
            !r ==> final(self).spec_countdown() == old(self).spec_countdown() - 1,
            r ==> final(self).spec_countdown() == 0,
    {
        if self.countdown == 0 {
            true
        } else {
            self.countdown = self.countdown - 1;
            false
        }
    }
}

} // verus!
