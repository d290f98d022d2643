//! An approximate-nearest-neighbour vector index over a page-structured store.
//!
//! The index keeps a directed proximity graph whose nodes live in fixed-size
//! pages.  Vectors are stored either at full precision, product-quantized
//! against a per-segment codebook, or binary-quantized against the global
//! mean.  Queries run a greedy beam search over the graph; builds insert
//! nodes with incremental robust pruning and finalize neighbour lists at the
//! end.  Vector components are fixed-point integers; the host converts.

#![verifier::loop_isolation(false)]

pub mod util;
pub mod page;
pub mod tape;
pub mod codec;
pub mod distance;
pub mod options;
pub mod storage;
pub mod meta_page;
pub mod node;
pub mod blob;
pub mod bq;
pub mod pq_quantizer;
pub mod neighbor_with_distance;
pub mod stats;
pub mod graph_neighbor_store;
pub mod disk_index_graph;
pub mod graph;
pub mod scan;
pub mod build_index;
