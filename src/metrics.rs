use vstd::prelude::*;
use crate::classify::{EncodedTransaction, is_vote_transaction, transaction_is_vote};

verus! {

/// Execution status of a transaction, as the node recorded it.
pub struct TransactionMeta {
    /// The transaction carries an error marker.
    pub failed: bool,
    /// Compute units consumed, where the node reports them.
    pub compute_units_consumed: Option<u64>,
}

/// A transaction of a block with its status, if the node sent one.
pub struct TransactionWithMeta {
    pub transaction: EncodedTransaction,
    pub meta: Option<TransactionMeta>,
}

/// A fetched block.
pub struct Block {
    /// The block's transactions; absent where the node sent no list.
    pub transactions: Option<Vec<TransactionWithMeta>>,
}

/// What one produced slot contributed.
pub struct SlotMetrics {
    pub slot: u64,
    /// Compute units of the slot's non-vote transactions.
    pub compute_units_used: u128,
    pub vote_count: u64,
    pub succeeded_count: u64,
    pub failed_count: u64,
}

/// The block of `slot` could not be fetched.
pub struct FetchFailure {
    pub slot: u64,
}

/// The part of a slot's capacity that was used: `used / capacity` of it, that
/// is `100 * used / capacity` percent.
pub struct CuShare {
    pub used: u128,
    pub capacity: u128,
}

/// What a transaction can add to its slot's record.
pub enum TxCount {
    ComputeUnits,
    Votes,
    Succeeded,
    Failed,
}

/// What `t` adds to the counter `c` of its slot. A transaction without
/// status adds nothing; a vote adds one vote and no compute units; any other
/// adds its compute units (zero where unknown) and counts as failed or
/// succeeded by its error marker.
pub open spec fn tx_count(t: TransactionWithMeta, c: TxCount) -> int {
    match t.meta {
        None => 0,
        Some(m) => if transaction_is_vote(t.transaction) {
            match c {
                TxCount::Votes => 1,
                _ => 0,
            }
        } else {
            match c {
                TxCount::ComputeUnits => match m.compute_units_consumed {
                    Some(u) => u as int,
                    None => 0,
                },
                TxCount::Votes => 0,
                TxCount::Succeeded => if m.failed { 0 } else { 1 },
                TxCount::Failed => if m.failed { 1 } else { 0 },
            }
        },
    }
}

/// The counter `c` summed over `txs`.
pub open spec fn tx_total(txs: Seq<TransactionWithMeta>, c: TxCount) -> int
    decreases txs.len(),
{
    if txs.len() == 0 {
        0
    } else {
        tx_total(txs.drop_last(), c) + tx_count(txs.last(), c)
    }
}

/// The transactions of a block; none where it has no list.
pub open spec fn block_transactions(b: Block) -> Seq<TransactionWithMeta> {
    match b.transactions {
        Some(v) => v@,
        None => Seq::empty(),
    }
}

/// The record of `slot` for a block with transactions `txs`.
pub open spec fn metrics_match(m: SlotMetrics, slot: u64, txs: Seq<TransactionWithMeta>) -> bool {
    &&& m.slot == slot
    &&& m.compute_units_used == tx_total(txs, TxCount::ComputeUnits)
    &&& m.vote_count == tx_total(txs, TxCount::Votes)
    &&& m.succeeded_count == tx_total(txs, TxCount::Succeeded)
    &&& m.failed_count == tx_total(txs, TxCount::Failed)
}

/// Replacing one transaction changes a total by the difference of the two
/// transactions' counts.
pub proof fn lemma_tx_total_update(txs: Seq<TransactionWithMeta>, i: int, t: TransactionWithMeta, c: TxCount)
    requires
        0 <= i < txs.len(),
    ensures
        tx_total(txs.update(i, t), c) == tx_total(txs, c) - tx_count(txs[i], c) + tx_count(t, c),
    decreases txs.len(),
{
    let u = txs.update(i, t);
    if i == txs.len() - 1 {
        assert(u.drop_last() =~= txs.drop_last());
    } else {
        lemma_tx_total_update(txs.drop_last(), i, t, c);
        assert(u.drop_last() =~= txs.drop_last().update(i, t));
    }
}

/// A vote transaction adds nothing to its slot's compute units, whatever its
/// status says it consumed: replacing it by any other vote transaction with a
/// status leaves the slot's compute-unit total as it was.
pub proof fn lemma_votes_use_no_compute_units(txs: Seq<TransactionWithMeta>, i: int, t: TransactionWithMeta)
    requires
        0 <= i < txs.len(),
        txs[i].meta is Some,
        transaction_is_vote(txs[i].transaction),
        t.meta is Some,
        transaction_is_vote(t.transaction),
    ensures
        tx_total(txs.update(i, t), TxCount::ComputeUnits) == tx_total(txs, TxCount::ComputeUnits),
{
    lemma_tx_total_update(txs, i, t, TxCount::ComputeUnits);
}

/// Counts the transactions of one block and sums the compute units of its
/// non-vote transactions.
pub fn block_metrics(txs: &Vec<TransactionWithMeta>, slot: u64) -> (m: SlotMetrics)
    ensures
        metrics_match(m, slot, txs@),
{
    let mut cu: u128 = 0;
    let mut votes: u64 = 0;
    let mut succeeded: u64 = 0;
    let mut failed: u64 = 0;
    let mut i: usize = 0;
    while i < txs.len()
        invariant
            0 <= i <= txs@.len(),
            cu == tx_total(txs@.subrange(0, i as int), TxCount::ComputeUnits),
            votes == tx_total(txs@.subrange(0, i as int), TxCount::Votes),
            succeeded == tx_total(txs@.subrange(0, i as int), TxCount::Succeeded),
            failed == tx_total(txs@.subrange(0, i as int), TxCount::Failed),
            cu <= i * 18446744073709551615,
            votes <= i,
            succeeded <= i,
            failed <= i,
        decreases txs@.len() - i,
    {
        let tx = &txs[i];
        assert(txs@.subrange(0, i + 1).drop_last() =~= txs@.subrange(0, i as int));
        if let Some(meta) = &tx.meta {
            if is_vote_transaction(&tx.transaction) {
                votes = votes + 1;
            } else {
                if meta.failed {
                    failed = failed + 1;
                } else {
                    succeeded = succeeded + 1;
                }
                match meta.compute_units_consumed {
                    Some(units) => {
                        cu = cu + units as u128;
                    },
                    None => {},
                }
            }
        }
        i = i + 1;
    }
    assert(txs@.subrange(0, i as int) =~= txs@);
    SlotMetrics {
        slot,
        compute_units_used: cu,
        vote_count: votes,
        succeeded_count: succeeded,
        failed_count: failed,
    }
}

/// The record of `slot` from the result of fetching its block: a failure
/// where the block could not be had, and a block without a transaction list
/// counts as one with no transactions.
pub fn extract_metrics(fetched: &Option<Block>, slot: u64) -> (r: Result<SlotMetrics, FetchFailure>)
    ensures
        r is Err <==> fetched is None,
        r matches Err(f) ==> f.slot == slot,
        r matches Ok(m) ==> metrics_match(m, slot, block_transactions(fetched->0)),
        r matches Ok(m) ==> (block_transactions(fetched->0).len() == 0 ==> m.compute_units_used == 0
            && m.vote_count == 0 && m.succeeded_count == 0 && m.failed_count == 0),
{
    match fetched {
        None => Err(FetchFailure { slot }),
        Some(block) => match &block.transactions {
            Some(txs) => Ok(block_metrics(txs, slot)),
            None => Ok(
                SlotMetrics {
                    slot,
                    compute_units_used: 0,
                    vote_count: 0,
                    succeeded_count: 0,
                    failed_count: 0,
                },
            ),
        },
    }
}

impl SlotMetrics {
    /// The part of `capacity` compute units that this slot used.
    pub fn share_of(&self, capacity: u64) -> (r: CuShare)
        ensures
            r.used == self.compute_units_used,
            r.capacity == capacity,
    {
        CuShare { used: self.compute_units_used, capacity: capacity as u128 }
    }
}

} // verus!
