//! The value types describing one fetched block.

use vstd::prelude::*;

verus! {

/// A 256-bit identifier: a block hash or a transaction hash.
#[derive(Clone, Copy, PartialEq, Eq, Debug)]
pub struct Hash256 {
    pub bytes: [u8; 32],
}

/// One complete block: its hash, its height in the ledger, and the ordered
/// list of its transaction identifiers.
///
/// A `Block` is only ever built from source data in which both the hash and
/// the height were present; incomplete source data is a distinct error case
/// (`BlockGettingError::Incomplete`), never a `Block` with placeholder
/// fields.
#[derive(Clone, PartialEq, Eq, Debug)]
pub struct Block {
    pub hash: Hash256,
    pub number: u64,
    pub transaction_ids: Vec<Hash256>,
}

} // verus!
