//! A lazy, dirty-tracking cache layer over a key-addressed byte store.
//!
//! Programs that pay a real cost for every read or write of persistent
//! state manipulate in-memory values through this layer instead.  Loads
//! from the backing store are deferred until a value is actually touched,
//! writes are deferred until an explicit synchronization point, and only
//! values that were actually mutated are written back.  A per-type
//! footprint (cell count) lets sibling values be laid out in the key
//! space without loading any data.

pub mod codec;
pub mod entry;
pub mod key;
pub mod lazy;
pub mod smallvec;
pub mod storage_vec;
pub mod store;
pub mod traits;
