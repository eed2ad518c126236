//! Receipts and the ledger that keeps them.
//!
//! A receipt is one executor's attestation of a block. The ledger keeps
//! every receipt ever submitted, in the order of submission, and beside it
//! the receipts that were promoted, each under a sequence number. The
//! ledger checks neither signature nor membership: it stores.

use crate::identity::AuthorityId;
use std::collections::HashMap;
use vstd::prelude::*;

verus! {

broadcast use vstd::std_specs::hash::group_hash_axioms;

/// Number of bytes in a signature.
pub const SIGNATURE_LEN: usize = 64;

/// A 32-byte hash: of a block, or of the state after a block.
#[derive(Clone, Copy, Debug, PartialEq, Eq, Hash)]
pub struct H256 {
    pub bytes: [u8; 32],
}

/// The root of the state after a block was executed.
pub type StateRoot = H256;

/// The hash of a block.
pub type BlockHash = H256;

/// An executor's signature.
#[derive(Clone, Copy, Debug, PartialEq, Eq, Hash)]
pub struct Signature {
    pub bytes: [u8; 64],
}

impl Signature {
    /// The signature held in `raw`: there is one exactly where `raw` has
    /// the length of a signature, and it has the bytes of `raw`.
    pub fn from_bytes(raw: &Vec<u8>) -> (r: Option<Signature>)
        ensures
            r is Some <==> raw@.len() == SIGNATURE_LEN,
            r is Some ==> r->Some_0.bytes@ == raw@,
    {
        if raw.len() != SIGNATURE_LEN {
            return None;
        }
        let mut bytes: [u8; 64] = [0u8; 64];
        let mut i: usize = 0;
        while i < SIGNATURE_LEN
            invariant
                0 <= i <= SIGNATURE_LEN,
                raw@.len() == SIGNATURE_LEN,
                forall|j: int| 0 <= j < i ==> bytes@[j] == raw@[j],
            decreases SIGNATURE_LEN - i,
        {
            bytes[i] = raw[i];
            i += 1;
        }
        assert(bytes@ =~= raw@);
        Some(Signature { bytes })
    }
}

/// One executor's attestation of one block: the state root after the block,
/// the block's hash, who attests, and the attester's signature over the
/// encoded state root.
#[derive(Clone, Copy, Debug, PartialEq, Eq)]
pub struct Receipt {
    pub final_root_balance: StateRoot,
    pub last_block: BlockHash,
    pub executor: AuthorityId,
    pub signed_root_balance: Signature,
}

/// What the ledger announces.
#[derive(Clone, Copy, Debug, PartialEq, Eq)]
pub enum LedgerEvent {
    /// A receipt for the block with this hash was received.
    Received(BlockHash),
}

/// The store of receipts.
pub struct ReceiptLedger {
    received: Vec<Receipt>,
    validated: HashMap<u32, Receipt>,
}

impl ReceiptLedger {
    /// Every receipt submitted so far, oldest first.
    pub closed spec fn received_view(&self) -> Seq<Receipt> {
        self.received@
    }

    /// The promoted receipts, by sequence number.
    pub closed spec fn validated_view(&self) -> Map<u32, Receipt> {
        self.validated@
    }

    /// A ledger that holds nothing.
    pub fn new() -> (ledger: ReceiptLedger)
        ensures
            ledger.received_view() == Seq::<Receipt>::empty(),
            ledger.validated_view() == Map::<u32, Receipt>::empty(),
    {
        ReceiptLedger { received: Vec::new(), validated: HashMap::new() }
    }

    /// Appends `receipt` to the received receipts, unchecked, and announces
    /// the block it attests.
    pub fn submit_receipt(&mut self, receipt: Receipt) -> (event: LedgerEvent)
        ensures
            final(self).received_view() == old(self).received_view().push(receipt),
            final(self).validated_view() == old(self).validated_view(),
            event == LedgerEvent::Received(receipt.last_block),
    {
        self.received.push(receipt);
        LedgerEvent::Received(receipt.last_block)
    }

    /// Submission of a receipt that this node produced.
    pub fn broadcast_receipt(&mut self, receipt: Receipt) -> (event: LedgerEvent)
        ensures
            final(self).received_view() == old(self).received_view().push(receipt),
            final(self).validated_view() == old(self).validated_view(),
            event == LedgerEvent::Received(receipt.last_block),
    {
        self.submit_receipt(receipt)
    }

    /// Submission of a receipt that another node relayed.
    pub fn gossip_receipt(&mut self, receipt: Receipt) -> (event: LedgerEvent)
        ensures
            final(self).received_view() == old(self).received_view().push(receipt),
            final(self).validated_view() == old(self).validated_view(),
            event == LedgerEvent::Received(receipt.last_block),
    {
        self.submit_receipt(receipt)
    }

    /// The whole history of received receipts, oldest first.
    pub fn received(&self) -> (r: Vec<Receipt>)
        ensures
            r@ == self.received_view(),
    {
        let mut out: Vec<Receipt> = Vec::new();
        let mut i: usize = 0;
        while i < self.received.len()
            invariant
                0 <= i <= self.received@.len(),
                out@ == self.received@.take(i as int),
            decreases self.received@.len() - i,
        {
            out.push(self.received[i]);
            assert(self.received@.take(i + 1) =~= self.received@.take(i as int).push(
                self.received@[i as int],
            ));
            i += 1;
        }
        assert(self.received@.take(i as int) =~= self.received@);
        out
    }

    /// The promoted receipt under `key`, if there is one.
    pub fn validated(&self, key: u32) -> (r: Option<Receipt>)
        ensures
            r == if self.validated_view().contains_key(key) {
                Some(self.validated_view()[key])
            } else {
                None
            },
    {
        match self.validated.get(&key) {
            Some(receipt) => Some(*receipt),
            None => None,
        }
    }

    /// Stores `receipt` as promoted under `key`, in place of any receipt
    /// that stood there. Which receipt deserves promotion is the caller's
    /// decision: the ledger holds what it is given.
    pub fn promote(&mut self, key: u32, receipt: Receipt)
        ensures
            final(self).validated_view() == old(self).validated_view().insert(key, receipt),
            final(self).received_view() == old(self).received_view(),
    {
        self.validated.insert(key, receipt);
    }
}

/// A submission keeps every earlier receipt in its place: the history
/// before it is the history after it without the last entry.
pub proof fn lemma_submission_keeps_history(before: Seq<Receipt>, receipt: Receipt)
    ensures
        before.push(receipt).len() == before.len() + 1,
        before.push(receipt).last() == receipt,
        before.push(receipt).drop_last() == before,
        forall|i: int| 0 <= i < before.len() ==> before.push(receipt)[i] == before[i],
{
    assert(before.push(receipt).drop_last() =~= before);
}

} // verus!
