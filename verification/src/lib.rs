//! Storage core of a triple store.
//!
//! The crate interns arbitrary string terms into compact 32-bit identifiers
//! through a bidirectional dictionary, fans every (subject, predicate, object)
//! triple out into six permutation index tables so that any lookup pattern is
//! an ordered scan over exactly one partition, and keeps dictionary and index
//! writes consistent by staging them into a single atomic batch.
//!
//! The ordered key-value substrate that persists the partitions is an external
//! collaborator: this crate produces the exact bytes to write (see [`Batch`])
//! and the ordering rule each partition must honor (see [`cmp_encoded`]), and
//! a thin shell around the crate carries them to the substrate.

pub mod batch;
pub mod index;
pub mod index_key;
pub mod storage_engine;
pub mod table;
pub mod table_value;

pub use batch::{Batch, BatchEntry};
pub use index::{IndexEntry, IndexKeyType};
pub use index_key::IndexKey;
pub use table::{ColumnDescriptor, Table, TableDescriptor, TableIterator};
pub use storage_engine::StorageEngine;
pub use table_value::cmp_encoded;
pub use table_value::TableValue;
