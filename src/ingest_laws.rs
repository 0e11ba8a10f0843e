use crate::accounts_store::{
    classify, empty_view, height_accepted, ingested, next_index, StoreView,
};
use crate::ledger::{AccountIdentifier, Memo, TimeStamp, Transfer};
use vstd::prelude::*;

verus! {

/// The store after the ingestion calls `calls` (transfer, memo, block height, timestamp),
/// in order, each of them successful.
pub open spec fn ingest_all(
    v: StoreView,
    calls: Seq<(Transfer, Memo, u64, TimeStamp)>,
    accounts: Seq<AccountIdentifier>,
) -> StoreView
    decreases calls.len(),
{
    if calls.len() == 0 {
        v
    } else {
        let c = calls.last();
        ingested(ingest_all(v, calls.drop_last(), accounts), c.0, c.1, c.2, c.3, accounts)
    }
}

/// Every call in `calls` offers the block that follows the watermark it meets.
pub open spec fn all_accepted(
    v: StoreView,
    calls: Seq<(Transfer, Memo, u64, TimeStamp)>,
    accounts: Seq<AccountIdentifier>,
) -> bool {
    forall|i: int|
        0 <= i < calls.len() ==> height_accepted(
            #[trigger] ingest_all(v, calls.subrange(0, i), accounts).synced_up_to,
            calls[i].2,
        )
}

proof fn lemma_accepted_prefix(
    v: StoreView,
    calls: Seq<(Transfer, Memo, u64, TimeStamp)>,
    accounts: Seq<AccountIdentifier>,
)
    requires
        calls.len() > 0,
        all_accepted(v, calls, accounts),
    ensures
        all_accepted(v, calls.drop_last(), accounts),
        height_accepted(ingest_all(v, calls.drop_last(), accounts).synced_up_to, calls.last().2),
{
    let init = calls.drop_last();
    assert forall|i: int| 0 <= i < init.len() implies height_accepted(
        #[trigger] ingest_all(v, init.subrange(0, i), accounts).synced_up_to,
        init[i].2,
    ) by {
        assert(init.subrange(0, i) =~= calls.subrange(0, i));
        assert(height_accepted(ingest_all(v, calls.subrange(0, i), accounts).synced_up_to, calls[i].2));
    }
    assert(calls.subrange(0, calls.len() - 1) =~= init);
    assert(height_accepted(
        ingest_all(v, calls.subrange(0, calls.len() - 1), accounts).synced_up_to,
        calls[calls.len() - 1].2,
    ));
}

/// Starting from an empty store, successful ingestion calls number the records they keep
/// 0, 1, 2, ... in order, however many transfers were discarded between them.
pub proof fn lemma_dense_numbering(
    calls: Seq<(Transfer, Memo, u64, TimeStamp)>,
    accounts: Seq<AccountIdentifier>,
)
    requires
        all_accepted(empty_view(), calls, accounts),
    ensures
        forall|i: int|
            0 <= i < ingest_all(empty_view(), calls, accounts).log.len() ==> #[trigger] ingest_all(
                empty_view(),
                calls,
                accounts,
            ).log[i].transaction_index == i,
        ingest_all(empty_view(), calls, accounts).log.len() <= calls.len(),
        calls.len() > 0 ==> ingest_all(empty_view(), calls, accounts).synced_up_to is Some
            && ingest_all(empty_view(), calls, accounts).synced_up_to.unwrap() >= calls.len() - 1,
    decreases calls.len(),
{
    if calls.len() > 0 {
        let init = calls.drop_last();
        lemma_accepted_prefix(empty_view(), calls, accounts);
        lemma_dense_numbering(init, accounts);
        let before = ingest_all(empty_view(), init, accounts);
        let c = calls.last();
        if before.log.len() > 0 {
            assert(before.log.last().transaction_index == before.log.len() - 1);
        }
        if init.len() > 0 {
            assert(before.synced_up_to.unwrap() + 1 <= u64::MAX);
        }
        assert(next_index(before.log) == before.log.len());
    }
}

/// Ingesting, block after block, transfers that touch no tracked account leaves the log as
/// it was, while each call is accepted and moves the watermark up by one.
pub proof fn lemma_discard_keeps_log(
    v: StoreView,
    synced_up_to: u64,
    calls: Seq<(Transfer, Memo, u64, TimeStamp)>,
    accounts: Seq<AccountIdentifier>,
)
    requires
        v.synced_up_to == Some(synced_up_to),
        forall|i: int| 0 <= i < calls.len() ==> classify(#[trigger] calls[i].0, accounts) is None,
        forall|i: int| 0 <= i < calls.len() ==> #[trigger] calls[i].2 == synced_up_to + i + 1,
    ensures
        ingest_all(v, calls, accounts).log == v.log,
        ingest_all(v, calls, accounts).synced_up_to == Some((synced_up_to + calls.len()) as u64),
        all_accepted(v, calls, accounts),
    decreases calls.len(),
{
    if calls.len() > 0 {
        let init = calls.drop_last();
        assert forall|i: int| 0 <= i < init.len() implies classify(#[trigger] init[i].0, accounts)
            is None by {
            assert(init[i] == calls[i]);
        }
        assert forall|i: int| 0 <= i < init.len() implies #[trigger] init[i].2 == synced_up_to + i
            + 1 by {
            assert(init[i] == calls[i]);
        }
        lemma_discard_keeps_log(v, synced_up_to, init, accounts);
        assert(classify(calls[calls.len() - 1].0, accounts) is None);
        assert(calls[calls.len() - 1].2 == synced_up_to + calls.len());
        assert forall|i: int| 0 <= i < calls.len() implies height_accepted(
            #[trigger] ingest_all(v, calls.subrange(0, i), accounts).synced_up_to,
            calls[i].2,
        ) by {
            if i < init.len() {
                assert(init.subrange(0, i) =~= calls.subrange(0, i));
                assert(height_accepted(ingest_all(v, init.subrange(0, i), accounts).synced_up_to, init[i].2));
            } else {
                assert(calls.subrange(0, i) =~= init);
            }
        }
    } else {
        assert forall|i: int| 0 <= i < calls.len() implies height_accepted(
            #[trigger] ingest_all(v, calls.subrange(0, i), accounts).synced_up_to,
            calls[i].2,
        ) by {}
    }
}

} // verus!
