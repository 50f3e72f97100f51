//! An in-memory analytics accelerator: periodic columnar snapshots are
//! ingested into a bounded raw-period store, aggregated per group under
//! a status filter, and pairwise period comparisons are memoized in a
//! bounded result cache.
//!
//! The raw-period store evicts by least recent access when a new key
//! arrives at capacity; the result cache does the same and additionally
//! expires entries by idle time.  Aggregation is a commutative,
//! associative reduction over row ranges, so partial results over any
//! partitioning of the rows merge to the whole.

pub mod agg;
pub mod assoc;
pub mod dataset;
pub mod engine;
pub mod ingest;
pub mod period_store;
pub mod result_cache;
