//! Block-production efficiency of one validator over the current epoch:
//! which slots it leads, what each of its blocks holds, and the epoch's
//! totals and averages.
use vstd::prelude::*;

pub mod classify;
pub mod schedule;
pub mod metrics;
pub mod aggregate;

verus! {

} // verus!
