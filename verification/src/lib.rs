//! Incremental discovery of newly produced ledger blocks.
//!
//! The crate tracks a watermark (the height of the last block already
//! delivered), computes the delta of heights that became available since,
//! validates and orders the fetched block data, and decides how long a
//! fixed-rate polling loop must sleep between iterations.  All decisions are
//! made on plain values, so the whole of that logic is verified; the caller
//! supplies the raw responses of whatever RPC transport it uses.

pub mod block;
pub mod interval_ensurer;
pub mod polling;
pub mod scheduling;

pub use block::Block;
pub use block::Hash256;
