//! Byte-bounded batch assembly: transactions are appended whole until the
//! configured byte budget would be exceeded, then the serialized data and the
//! summaries are drained in that order.

use vstd::prelude::*;

verus! {

use crate::BatchId;
use crate::types::{SerializedTransaction, SignedTransaction, TransactionSummary};

/// Sum of the lengths of a sequence of byte strings.
pub open spec fn total_len(data: Seq<Seq<u8>>) -> int
    decreases data.len(),
{
    if data.len() == 0 {
        0
    } else {
        total_len(data.drop_last()) + data.last().len()
    }
}

/// Accumulates transactions into a byte-bounded batch identified by a
/// monotonically increasing id.
pub struct BatchBuilder {
    pub id: BatchId,
    pub summaries: Vec<TransactionSummary>,
    pub data: Vec<SerializedTransaction>,
    pub num_bytes: usize,
    pub max_bytes: usize,
}

impl BatchBuilder {
    pub open spec fn spec_id(self) -> BatchId {
        self.id
    }

    pub open spec fn summaries_seq(self) -> Seq<TransactionSummary> {
        self.summaries@
    }

    /// The serialized transactions currently held, each as its byte string.
    pub open spec fn data_views(self) -> Seq<Seq<u8>> {
        self.data@.map_values(|t: SerializedTransaction| t.bytes@)
    }

    pub open spec fn spec_num_bytes(self) -> int {
        self.num_bytes as int
    }

    pub open spec fn spec_max_bytes(self) -> int {
        self.max_bytes as int
    }

    pub open spec fn inv(self) -> bool {
        self.num_bytes <= self.max_bytes
    }

    /// The running byte count equals the bytes held in the serialized-data
    /// sequence. Holds from creation until `take_serialized_txns` is called,
    /// and again from `take_summaries` on.
    pub open spec fn byte_count_consistent(self) -> bool {
        self.spec_num_bytes() == total_len(self.data_views())
    }

    pub fn new(batch_id: BatchId, max_bytes: usize) -> (r: Self)
        ensures
            r.inv(),
            r.byte_count_consistent(),
            r.spec_id() == batch_id,
            r.summaries_seq() == Seq::<TransactionSummary>::empty(),
            r.data_views() == Seq::<Seq<u8>>::empty(),
            r.spec_num_bytes() == 0,
            r.spec_max_bytes() == max_bytes,
    {
        let r = BatchBuilder {
            id: batch_id,
            summaries: Vec::new(),
            data: Vec::new(),
            num_bytes: 0,
            max_bytes,
        };
        assert(r.data_views() =~= Seq::<Seq<u8>>::empty());
        r
    }

    /// Appends `txn` whole if its serialized form still fits in the byte
    /// budget; otherwise leaves the builder untouched and reports rejection.
    pub fn append_transaction(&mut self, txn: &SignedTransaction) -> (accepted: bool)
        requires
            old(self).inv(),
        ensures
            final(self).inv(),
            accepted == (old(self).spec_num_bytes() + txn.serialized@.len()
                <= old(self).spec_max_bytes()),
            accepted ==> {
                &&& final(self).summaries_seq() == old(self).summaries_seq().push(txn.summary())
                &&& final(self).data_views() == old(self).data_views().push(txn.serialized@)
                &&& final(self).spec_num_bytes() == old(self).spec_num_bytes()
                    + txn.serialized@.len()
            },
            !accepted ==> *final(self) == *old(self),
            final(self).spec_id() == old(self).spec_id(),
            final(self).spec_max_bytes() == old(self).spec_max_bytes(),
            old(self).byte_count_consistent() ==> final(self).byte_count_consistent(),
    {
        let serialized_txn = SerializedTransaction::from_signed_txn(txn);

        if serialized_txn.len() <= self.max_bytes - self.num_bytes {
            let ghost pre = *self;
            self.summaries.push(TransactionSummary {
                sender: txn.sender,
                sequence_number: txn.sequence_number,
            });
            self.num_bytes = self.num_bytes + serialized_txn.len();
            self.data.push(serialized_txn);
            proof {
                assert(self.data_views() =~= pre.data_views().push(txn.serialized@));
                assert(self.data_views().drop_last() =~= pre.data_views());
            }
            true
        } else {
            false
        }
    }

    /// True iff no summaries have been appended since creation or since the
    /// last `take_summaries`.
    pub fn is_empty(&self) -> (r: bool)
        ensures
            r == (self.summaries_seq().len() == 0),
    {
        self.summaries.is_empty()
    }

    /// The current batch id; `append_transaction` never changes it.
    pub fn batch_id(&self) -> (id: BatchId)
        ensures
            id == self.spec_id(),
    {
        self.id
    }

    /// Removes and returns all accumulated serialized transactions, leaving
    /// the summaries and the byte count untouched.
    pub fn take_serialized_txns(&mut self) -> (txns: Vec<SerializedTransaction>)
        ensures
            txns@.map_values(|t: SerializedTransaction| t.bytes@) == old(self).data_views(),
            final(self).data_views() == Seq::<Seq<u8>>::empty(),
            final(self).summaries_seq() == old(self).summaries_seq(),
            final(self).spec_num_bytes() == old(self).spec_num_bytes(),
            final(self).spec_id() == old(self).spec_id(),
            final(self).spec_max_bytes() == old(self).spec_max_bytes(),
            old(self).inv() ==> final(self).inv(),
    {
        let mut txns: Vec<SerializedTransaction> = Vec::new();
        core::mem::swap(&mut self.data, &mut txns);
        assert(self.data_views() =~= Seq::<Seq<u8>>::empty());
        txns
    }

    /// Starts the next batch: increments the id, resets the byte count, and
    /// removes and returns all summaries. The serialized data must already
    /// have been drained.
    pub fn take_summaries(&mut self) -> (summaries: Vec<TransactionSummary>)
        requires
            old(self).data_views().len() == 0,
            old(self).spec_id() < BatchId::MAX,
        ensures
            summaries@ == old(self).summaries_seq(),
            final(self).summaries_seq() == Seq::<TransactionSummary>::empty(),
            final(self).data_views() == old(self).data_views(),
            final(self).spec_id() == old(self).spec_id() + 1,
            final(self).spec_num_bytes() == 0,
            final(self).spec_max_bytes() == old(self).spec_max_bytes(),
            final(self).inv(),
            final(self).byte_count_consistent(),
    {
        self.id = self.id + 1;
        self.num_bytes = 0;
        let mut summaries: Vec<TransactionSummary> = Vec::new();
        core::mem::swap(&mut self.summaries, &mut summaries);
        summaries
    }

    /// Non-destructive view of the current summaries, for building exclusion
    /// sets while the batch is still being filled.
    pub fn summaries(&self) -> (r: &Vec<TransactionSummary>)
        ensures
            r@ == self.summaries_seq(),
    {
        &self.summaries
    }
}

} // verus!
