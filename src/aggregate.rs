use vstd::prelude::*;
use crate::metrics::{CuShare, FetchFailure, SlotMetrics};

verus! {

/// Compute units a slot can hold on the main network.
pub const TOTAL_CAPABLE_CU: u64 = 48_000_000;

/// What a slot's result can add to the epoch's totals.
pub enum SlotCount {
    ComputeUnits,
    Votes,
    Succeeded,
    Failed,
    Processed,
}

/// What the result of one slot adds to the total `c`: a slot whose block
/// could not be fetched adds nothing.
pub open spec fn slot_count(r: Result<SlotMetrics, FetchFailure>, c: SlotCount) -> int {
    match r {
        Err(_) => 0,
        Ok(m) => match c {
            SlotCount::ComputeUnits => m.compute_units_used as int,
            SlotCount::Votes => m.vote_count as int,
            SlotCount::Succeeded => m.succeeded_count as int,
            SlotCount::Failed => m.failed_count as int,
            SlotCount::Processed => 1,
        },
    }
}

/// The total `c` over the results of the slots `rs`.
pub open spec fn epoch_total(rs: Seq<Result<SlotMetrics, FetchFailure>>, c: SlotCount) -> int
    decreases rs.len(),
{
    if rs.len() == 0 {
        0
    } else {
        epoch_total(rs.drop_last(), c) + slot_count(rs.last(), c)
    }
}

/// Totals over the slots an epoch owes a validator.
pub struct EpochSummary {
    /// Compute units used by the slots whose block was fetched.
    pub cu_sum: u128,
    pub vote_tx_sum: u128,
    pub succeeded_tx_sum: u128,
    pub failed_tx_sum: u128,
    /// Slots whose block was fetched.
    pub processed: u64,
    /// Slots reached so far, fetched or not.
    pub resolved: u64,
    /// Slots the schedule assigns in the whole epoch.
    pub owed: u64,
    /// Compute units one slot can hold.
    pub capacity: u64,
}

/// The summary of the per-slot results `rs` (one per resolved slot), for a
/// validator owed `owed` slots, with `capacity` compute units per slot.
pub open spec fn summary_match(
    s: EpochSummary,
    rs: Seq<Result<SlotMetrics, FetchFailure>>,
    owed: int,
    capacity: int,
) -> bool {
    &&& s.cu_sum == epoch_total(rs, SlotCount::ComputeUnits)
    &&& s.vote_tx_sum == epoch_total(rs, SlotCount::Votes)
    &&& s.succeeded_tx_sum == epoch_total(rs, SlotCount::Succeeded)
    &&& s.failed_tx_sum == epoch_total(rs, SlotCount::Failed)
    &&& s.processed == epoch_total(rs, SlotCount::Processed)
    &&& s.resolved == rs.len()
    &&& s.owed == owed
    &&& s.capacity == capacity
}

/// Totals add up over a concatenation.
pub proof fn lemma_epoch_total_append(
    a: Seq<Result<SlotMetrics, FetchFailure>>,
    b: Seq<Result<SlotMetrics, FetchFailure>>,
    c: SlotCount,
)
    ensures
        epoch_total(a + b, c) == epoch_total(a, c) + epoch_total(b, c),
    decreases b.len(),
{
    if b.len() == 0 {
        assert(a + b =~= a);
    } else {
        lemma_epoch_total_append(a, b.drop_last(), c);
        assert((a + b).drop_last() =~= a + b.drop_last());
    }
}

/// A slot whose block could not be fetched leaves every total as it would be
/// without that slot, and the slots after it still count in full.
pub proof fn lemma_fetch_failure_adds_nothing(
    before: Seq<Result<SlotMetrics, FetchFailure>>,
    failure: FetchFailure,
    after: Seq<Result<SlotMetrics, FetchFailure>>,
    c: SlotCount,
)
    ensures
        epoch_total(before.push(Err(failure)) + after, c) == epoch_total(before, c) + epoch_total(after, c),
        epoch_total(before.push(Err(failure)) + after, c) == epoch_total(before + after, c),
{
    lemma_epoch_total_append(before.push(Err(failure)), after, c);
    lemma_epoch_total_append(before, after, c);
    assert(before.push(Err(failure)).drop_last() =~= before);
}

/// Folds the per-slot results (one per resolved slot) into the epoch's
/// totals.
pub fn aggregate(results: &Vec<Result<SlotMetrics, FetchFailure>>, owed: usize, capacity: u64) -> (s:
    EpochSummary)
    requires
        forall|k: int|
            0 <= k < results@.len() ==> (#[trigger] results@[k] matches Ok(m)
                ==> m.compute_units_used <= u64::MAX),
    ensures
        summary_match(s, results@, owed as int, capacity as int),
{
    let mut cu: u128 = 0;
    let mut votes: u128 = 0;
    let mut succeeded: u128 = 0;
    let mut failed: u128 = 0;
    let mut processed: u64 = 0;
    let mut i: usize = 0;
    while i < results.len()
        invariant
            0 <= i <= results@.len(),
            forall|k: int|
                0 <= k < results@.len() ==> (#[trigger] results@[k] matches Ok(m)
                    ==> m.compute_units_used <= u64::MAX),
            cu == epoch_total(results@.subrange(0, i as int), SlotCount::ComputeUnits),
            votes == epoch_total(results@.subrange(0, i as int), SlotCount::Votes),
            succeeded == epoch_total(results@.subrange(0, i as int), SlotCount::Succeeded),
            failed == epoch_total(results@.subrange(0, i as int), SlotCount::Failed),
            processed == epoch_total(results@.subrange(0, i as int), SlotCount::Processed),
            cu <= i * 18446744073709551615,
            votes <= i * 18446744073709551615,
            succeeded <= i * 18446744073709551615,
            failed <= i * 18446744073709551615,
            processed <= i,
        decreases results@.len() - i,
    {
        assert(results@.subrange(0, i + 1).drop_last() =~= results@.subrange(0, i as int));
        match &results[i] {
            Ok(m) => {
                cu = cu + m.compute_units_used;
                votes = votes + m.vote_count as u128;
                succeeded = succeeded + m.succeeded_count as u128;
                failed = failed + m.failed_count as u128;
                processed = processed + 1;
            },
            Err(_) => {},
        }
        i = i + 1;
    }
    assert(results@.subrange(0, i as int) =~= results@);
    EpochSummary {
        cu_sum: cu,
        vote_tx_sum: votes,
        succeeded_tx_sum: succeeded,
        failed_tx_sum: failed,
        processed,
        resolved: results.len() as u64,
        owed: owed as u64,
        capacity,
    }
}

impl EpochSummary {
    /// The average share of a slot's capacity used over the resolved slots:
    /// the compute units used against the capacity of all resolved slots.
    /// None where no slot was resolved or slots hold no compute units.
    pub fn average_cu_share(&self) -> (r: Option<CuShare>)
        ensures
            r is None <==> (self.resolved == 0 || self.capacity == 0),
            r matches Some(q) ==> q.used == self.cu_sum && q.capacity == self.capacity
                * self.resolved,
    {
        if self.resolved == 0 || self.capacity == 0 {
            None
        } else {
            let c: u64 = self.capacity;
            let n: u64 = self.resolved;
            assert(c as int * n as int <= 18446744073709551615int * 18446744073709551615int) by (nonlinear_arith)
                requires
                    c <= 18446744073709551615int,
                    n <= 18446744073709551615int,
            ;
            Some(CuShare { used: self.cu_sum, capacity: self.capacity as u128 * self.resolved as u128 })
        }
    }

    /// Vote transactions per owed slot, rounded down; None where none is owed.
    pub fn average_vote_tx(&self) -> (r: Option<u128>)
        ensures
            r is None <==> self.owed == 0,
            r matches Some(a) ==> a == self.vote_tx_sum as int / (self.owed as int),
    {
        if self.owed == 0 {
            None
        } else {
            Some(self.vote_tx_sum / self.owed as u128)
        }
    }

    /// Succeeded non-vote transactions per owed slot, rounded down; None
    /// where none is owed.
    pub fn average_succeeded_tx(&self) -> (r: Option<u128>)
        ensures
            r is None <==> self.owed == 0,
            r matches Some(a) ==> a == self.succeeded_tx_sum as int / (self.owed as int),
    {
        if self.owed == 0 {
            None
        } else {
            Some(self.succeeded_tx_sum / self.owed as u128)
        }
    }

    /// Failed non-vote transactions per owed slot, rounded down; None where
    /// none is owed.
    pub fn average_failed_tx(&self) -> (r: Option<u128>)
        ensures
            r is None <==> self.owed == 0,
            r matches Some(a) ==> a == self.failed_tx_sum as int / (self.owed as int),
    {
        if self.owed == 0 {
            None
        } else {
            Some(self.failed_tx_sum / self.owed as u128)
        }
    }
}

} // verus!
