use vstd::prelude::*;

verus! {

/// How many records a pruning pass removes from the front of the log.
pub const PRUNE_TRANSACTIONS_COUNT: u32 = 1000;

/// Above this many retained records the log should be pruned.
pub const TRANSACTIONS_COUNT_LIMIT: u32 = 1_000_000;

/// Whether a log holding `transactions_count` records has grown past the limit.
pub fn should_prune_transactions(transactions_count: u32) -> (r: bool)
    ensures
        r == (transactions_count > TRANSACTIONS_COUNT_LIMIT),
{
    transactions_count > TRANSACTIONS_COUNT_LIMIT
}

} // verus!
