//! Splits an encyclopedia dump into record-aligned shards, extracts a link
//! graph from each shard, and folds the per-shard stores into one final store.

pub mod extract;
pub mod files;
pub mod filter;
pub mod markup;
pub mod partition;
pub mod scan;
pub mod store;
pub mod text;
pub mod xml;
