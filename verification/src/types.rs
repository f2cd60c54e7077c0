//! Plain-value model of the data this core reads from transactions, and the
//! error delivered when a batch request gives up.

use vstd::prelude::*;

verus! {

use crate::PeerId;

/// Sender and sequence number of a transaction: enough to identify it in
/// exclusion sets handed back to the transaction pool.
#[derive(Clone, Copy, PartialEq, Eq, Structural, Debug)]
pub struct TransactionSummary {
    pub sender: PeerId,
    pub sequence_number: u64,
}

/// A transaction as this core reads it: its author, its sequence number, and
/// its serialized wire form (produced upstream; this core only measures and
/// moves the bytes).
#[derive(Clone, PartialEq, Eq, Debug)]
pub struct SignedTransaction {
    pub sender: PeerId,
    pub sequence_number: u64,
    pub serialized: Vec<u8>,
}

impl SignedTransaction {
    /// The summary used for deduplication and exclusion.
    pub open spec fn summary(self) -> TransactionSummary {
        TransactionSummary { sender: self.sender, sequence_number: self.sequence_number }
    }
}

/// The serialized bytes of one transaction, ready to be packed into a batch.
pub struct SerializedTransaction {
    pub bytes: Vec<u8>,
}

impl SerializedTransaction {
    /// Copies out the wire form of `txn`.
    pub fn from_signed_txn(txn: &SignedTransaction) -> (r: Self)
        ensures
            r.bytes@ == txn.serialized@,
    {
        let mut bytes: Vec<u8> = Vec::new();
        let mut i: usize = 0;
        while i < txn.serialized.len()
            invariant
                i <= txn.serialized.len(),
                bytes@ == txn.serialized@.take(i as int),
            decreases txn.serialized.len() - i,
        {
            bytes.push(txn.serialized[i]);
            assert(txn.serialized@.take(i + 1) =~= txn.serialized@.take(i as int).push(
                txn.serialized@[i as int],
            ));
            i = i + 1;
        }
        assert(bytes@ =~= txn.serialized@);
        SerializedTransaction { bytes }
    }

    pub fn len(&self) -> (n: usize)
        ensures
            n == self.bytes@.len(),
    {
        self.bytes.len()
    }
}

/// Failure delivered to the caller of a batch request: the retry budget ran
/// out without any peer answering.
#[derive(Clone, Copy, PartialEq, Eq, Structural, Debug)]
pub enum BatchRequestError {
    CouldNotGetData,
}

/// What a batch request eventually delivers through its result sink.
pub type BatchResult = Result<Vec<SignedTransaction>, BatchRequestError>;

/// A reply from the transaction pool, as the batch-assembly path reads it:
/// either the requested batch of candidate transactions, or a reply of some
/// other kind.
pub enum PoolResponse {
    Batch(Vec<SignedTransaction>),
    Other,
}

/// Failure of a pull from the transaction pool.
#[derive(Clone, Copy, PartialEq, Eq, Structural, Debug)]
pub enum PoolError {
    Timeout,
    UnexpectedResponse,
}

/// Decision core of a pull from the transaction pool: no reply in time is a
/// timeout, a reply of the wrong kind is a protocol mismatch, and a batch
/// reply yields exactly its transactions.
pub fn interpret_pool_response(resp: Option<PoolResponse>) -> (r: Result<
    Vec<SignedTransaction>,
    PoolError,
>)
    ensures
        resp is None ==> r == Err::<Vec<SignedTransaction>, PoolError>(PoolError::Timeout),
        (resp matches Some(PoolResponse::Batch(txns)) ==> r == Ok::<
            Vec<SignedTransaction>,
            PoolError,
        >(txns)),
        (resp matches Some(PoolResponse::Other) ==> r == Err::<Vec<SignedTransaction>, PoolError>(
            PoolError::UnexpectedResponse,
        )),
{
    match resp {
        None => Err(PoolError::Timeout),
        Some(PoolResponse::Batch(txns)) => Ok(txns),
        Some(PoolResponse::Other) => Err(PoolError::UnexpectedResponse),
    }
}

} // verus!
