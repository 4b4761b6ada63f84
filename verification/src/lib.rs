//! A verified secondary index for a UTXO blockchain with an SLP token layer.
//!
//! The crate models the indexer core: fixed-layout composite keys with
//! big-endian integer fields (so byte order equals numeric order), an ordered
//! in-memory column-family store with atomic batches, the per-block and
//! per-mempool-tx batch builders, the mempool overlay read path, and the
//! typed query surface used by a block-explorer front end.

pub mod bytesord;
pub mod chain;
pub mod codec;
pub mod db;
pub mod hexstr;
pub mod keys;
pub mod laws;
pub mod mocker;
pub mod pipeline;
pub mod queries;
pub mod records;
pub mod schema;
pub mod script;
pub mod server_primitives;
pub mod slp;
pub mod store;
