//! Executor attestation for a block-producing node.
//!
//! A bounded, sorted set of authorized executors; an append-only ledger of
//! the receipts they sign; the resolver that finds which locally held key is
//! an executor; and the decisions of one seal cycle, from the first check of
//! the transaction pool to the signed receipt for the imported block.

pub mod identity;
pub mod membership;
pub mod receipt;
pub mod discovery;
pub mod seal;
