//! Index options as given at index creation, and their validation.  Alpha
//! is carried in hundredths, so `max_alpha == 130` means a slack factor of
//! 1.30.

use vstd::prelude::*;
use crate::util::IndexError;

verus! {

/// Smallest legal slack factor, in hundredths: 1.00.
pub const MIN_ALPHA_X100: u32 = 100;

/// Largest accepted neighbour count per node: more slots than this cannot
/// fit a node page even with an empty payload.
pub const MAX_NUM_NEIGHBORS: u32 = 1000;

/// Number of dimensions must stay below this.
pub const MAX_DIMENSIONS: u32 = 2000;

/// The options given at index creation.
#[derive(Clone, Copy, PartialEq, Eq, Structural, Debug)]
pub struct TSVIndexOptions {
    /// Max outgoing edges a node keeps on disk (R in the papers).
    pub num_neighbors: u32,
    /// Search list length used while building (L).
    pub search_list_size: u32,
    /// Robust-prune slack factor, in hundredths.
    pub max_alpha: u32,
    /// Store product-quantized codes instead of full vectors.
    pub use_pq: bool,
    /// Segment length for product quantization; must divide the dimension
    /// count when `use_pq` is set.
    pub pq_vector_length: u32,
    /// Keep binary-quantized codes beside each node for fast ranking.
    pub use_bq: bool,
}

impl TSVIndexOptions {
    /// The defaults applied when an option is not given.
    pub fn defaults() -> (r: Self)
        ensures
            r == (TSVIndexOptions {
                num_neighbors: 50,
                search_list_size: 100,
                max_alpha: 100,
                use_pq: false,
                pq_vector_length: 64,
                use_bq: false,
            }),
    {
        TSVIndexOptions {
            num_neighbors: 50,
            search_list_size: 100,
            max_alpha: 100,
            use_pq: false,
            pq_vector_length: 64,
            use_bq: false,
        }
    }

    /// The configuration rules: every one of them must hold for a build to
    /// start.
    pub open spec fn spec_valid(self, num_dimensions: u32) -> bool {
        &&& 0 < num_dimensions < MAX_DIMENSIONS
        &&& 1 <= self.num_neighbors <= MAX_NUM_NEIGHBORS
        &&& self.num_neighbors <= self.search_list_size
        &&& MIN_ALPHA_X100 <= self.max_alpha
        &&& !(self.use_pq && self.use_bq)
        &&& self.use_pq ==> {
            &&& 1 <= self.pq_vector_length <= num_dimensions
            &&& num_dimensions as int % self.pq_vector_length as int == 0
        }
    }

    /// Check the configuration rules; `Err(Config)` exactly when one fails.
    pub fn validate(&self, num_dimensions: u32) -> (r: Result<(), IndexError>)
        ensures
            r is Ok <==> self.spec_valid(num_dimensions),
            r is Err ==> r == Result::<(), IndexError>::Err(IndexError::Config),
    {
        if !(0 < num_dimensions && num_dimensions < MAX_DIMENSIONS) {
            return Err(IndexError::Config);
        }
        if !(1 <= self.num_neighbors && self.num_neighbors <= MAX_NUM_NEIGHBORS) {
            return Err(IndexError::Config);
        }
        if !(self.num_neighbors <= self.search_list_size) {
            return Err(IndexError::Config);
        }
        if !(MIN_ALPHA_X100 <= self.max_alpha) {
            return Err(IndexError::Config);
        }
        if self.use_pq && self.use_bq {
            return Err(IndexError::Config);
        }
        if self.use_pq {
            if !(1 <= self.pq_vector_length && self.pq_vector_length <= num_dimensions) {
                return Err(IndexError::Config);
            }
            if num_dimensions % self.pq_vector_length != 0 {
                return Err(IndexError::Config);
            }
        }
        Ok(())
    }
}

} // verus!
