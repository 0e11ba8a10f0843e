use icnaming_ledger::accounts_store::{
    encode_metrics, AccountsStore, FollowUp, PendingAction, PendingDeposit, Registry, SyncError,
    TransactionType,
};
use icnaming_ledger::codec::DecodeError;
use icnaming_ledger::ledger::{AccountIdentifier, Memo, TimeStamp, Tokens, Transfer};
use icnaming_ledger::periodic_tasks::should_prune_transactions;
use icnaming_ledger::state::{StableState, State};

fn account(id: u64) -> AccountIdentifier {
    AccountIdentifier { id }
}

fn send(from: u64, to: u64, amount: u64, fee: u64) -> Transfer {
    Transfer::Send {
        from: account(from),
        to: account(to),
        amount: Tokens { e8s: amount },
        fee: Tokens { e8s: fee },
    }
}

fn registry(watched: &[u64]) -> Registry {
    Registry {
        accounts: watched.iter().map(|id| account(*id)).collect(),
        pending_deposits: Vec::new(),
        pending_actions: Vec::new(),
    }
}

fn ts(nanos: u64) -> TimeStamp {
    TimeStamp { timestamp_nanos: nanos }
}

fn ingest(store: &mut AccountsStore, reg: &Registry, t: Transfer, height: u64) -> Result<bool, SyncError> {
    let mut follow_ups = Vec::new();
    store.append_transaction(t, Memo(0), height, ts(height * 10), reg, &mut follow_ups)
}

/// A store holding retained records at heights 10, 12 and 15.
fn three_records() -> AccountsStore {
    let reg = registry(&[1]);
    let mut store = AccountsStore::new();
    store.init_block_height_synced_up_to(9);
    for h in 10..=15u64 {
        let t = if h == 10 || h == 12 || h == 15 { send(1, 2, 5, 1) } else { send(3, 4, 5, 1) };
        assert!(ingest(&mut store, &reg, t, h).is_ok());
    }
    store
}

#[test]
fn send_from_tracked_account_is_retained() {
    let reg = registry(&[1]);
    let mut store = AccountsStore::new();
    store.init_block_height_synced_up_to(100);
    let mut follow_ups = Vec::new();
    let r = store.append_transaction(send(1, 2, 5, 1), Memo(0), 101, ts(1000), &reg, &mut follow_ups);
    assert_eq!(r, Ok(true));
    assert_eq!(store.get_stats(0).transactions_count, 1);
    assert_eq!(store.get_transaction_index(101), Some(0));
    assert_eq!(store.get_stats(0).block_height_synced_up_to, Some(101));
    assert!(follow_ups.is_empty());
}

#[test]
fn skipped_height_is_rejected_without_change() {
    let reg = registry(&[1]);
    let mut store = AccountsStore::new();
    store.init_block_height_synced_up_to(100);
    assert_eq!(ingest(&mut store, &reg, send(1, 2, 5, 1), 101), Ok(true));
    let r = ingest(&mut store, &reg, send(1, 2, 5, 1), 103);
    assert_eq!(r, Err(SyncError::HeightMismatch { synced_up_to: 101, block_height: 103 }));
    assert_eq!(store.get_stats(0).transactions_count, 1);
    assert_eq!(store.get_block_height_synced_up_to(), Some(101));
    assert_eq!(ingest(&mut store, &reg, send(1, 2, 5, 1), 101), Err(SyncError::HeightMismatch { synced_up_to: 101, block_height: 101 }));
    assert_eq!(ingest(&mut store, &reg, send(1, 2, 5, 1), 102), Ok(true));
}

#[test]
fn lookup_by_height_with_gaps() {
    let store = three_records();
    assert_eq!(store.get_transactions_count(), 3);
    assert_eq!(store.get_transaction_index(10), Some(0));
    assert_eq!(store.get_transaction_index(12), Some(1));
    assert_eq!(store.get_transaction_index(15), Some(2));
    assert_eq!(store.get_transaction_index(13), None);
    assert_eq!(store.get_transaction_index(20), None);
    assert_eq!(store.get_transaction_index(5), None);
}

#[test]
fn lookup_in_empty_store() {
    let store = AccountsStore::new();
    assert_eq!(store.get_transaction_index(0), None);
    assert!(store.get_transaction(0).is_none());
    assert_eq!(store.get_next_transaction_index(), 0);
}

#[test]
fn numbers_are_dense_despite_discards() {
    let reg = registry(&[7]);
    let mut store = AccountsStore::new();
    store.init_block_height_synced_up_to(0);
    let mut kept = 0u64;
    for h in 1..=20u64 {
        let t = if h % 3 == 0 { send(7, 8, h, 1) } else { send(8, 9, h, 1) };
        let r = ingest(&mut store, &reg, t, h).unwrap();
        assert_eq!(r, h % 3 == 0);
        if r {
            kept += 1;
        }
    }
    assert_eq!(store.get_transactions_count() as u64, kept);
    for i in 0..kept {
        let t = store.get_transaction(i).unwrap();
        assert_eq!(t.transaction_index, i);
        assert_eq!(t.block_height, 3 * (i + 1));
    }
    assert_eq!(store.get_next_transaction_index(), kept);
}

#[test]
fn untracked_transfers_only_advance_the_watermark() {
    let reg = registry(&[1]);
    let mut store = AccountsStore::new();
    store.init_block_height_synced_up_to(50);
    for k in 1..=5u64 {
        assert_eq!(ingest(&mut store, &reg, send(3, 4, 5, 1), 50 + k), Ok(false));
        assert_eq!(store.get_transactions_count(), 0);
        assert_eq!(store.get_block_height_synced_up_to(), Some(50 + k));
    }
}

#[test]
fn first_ingest_without_watermark_accepts_any_height() {
    let reg = registry(&[1]);
    let mut store = AccountsStore::new();
    assert_eq!(ingest(&mut store, &reg, send(1, 2, 5, 1), 42), Ok(true));
    assert_eq!(store.get_block_height_synced_up_to(), Some(42));
}

#[test]
fn watermark_at_maximum_rejects_everything() {
    let reg = registry(&[1]);
    let mut store = AccountsStore::new();
    store.init_block_height_synced_up_to(u64::MAX);
    assert_eq!(
        ingest(&mut store, &reg, send(1, 2, 5, 1), 0),
        Err(SyncError::HeightMismatch { synced_up_to: u64::MAX, block_height: 0 })
    );
}

#[test]
fn classification_of_each_shape() {
    let reg = registry(&[1]);
    let mut store = AccountsStore::new();
    store.init_block_height_synced_up_to(0);
    let burn = Transfer::Burn { from: account(1), amount: Tokens { e8s: 3 } };
    let mint = Transfer::Mint { to: account(1), amount: Tokens { e8s: 4 } };
    let other_burn = Transfer::Burn { from: account(2), amount: Tokens { e8s: 3 } };
    let other_mint = Transfer::Mint { to: account(2), amount: Tokens { e8s: 4 } };
    assert_eq!(ingest(&mut store, &reg, burn, 1), Ok(true));
    assert_eq!(ingest(&mut store, &reg, mint, 2), Ok(true));
    assert_eq!(ingest(&mut store, &reg, send(2, 1, 9, 1), 3), Ok(true));
    assert_eq!(ingest(&mut store, &reg, send(1, 2, 9, 1), 4), Ok(true));
    assert_eq!(ingest(&mut store, &reg, other_burn, 5), Ok(false));
    assert_eq!(ingest(&mut store, &reg, other_mint, 6), Ok(false));
    let types: Vec<Option<TransactionType>> =
        (0..4).map(|i| store.get_transaction(i).unwrap().transaction_type).collect();
    assert_eq!(
        types,
        vec![
            Some(TransactionType::Burn),
            Some(TransactionType::Mint),
            Some(TransactionType::Send),
            Some(TransactionType::Send)
        ]
    );
    let t = store.get_transaction(0).unwrap();
    assert_eq!(t.transfer, burn);
    assert_eq!(t.timestamp, ts(10));
}

#[test]
fn deposit_to_pending_address_emits_follow_up() {
    let reg = Registry {
        accounts: vec![account(1)],
        pending_deposits: vec![
            PendingDeposit { account: account(20), principal: 77, memo: Memo(5) },
            PendingDeposit { account: account(20), principal: 88, memo: Memo(6) },
        ],
        pending_actions: Vec::new(),
    };
    let mut store = AccountsStore::new();
    store.init_block_height_synced_up_to(0);
    let mut follow_ups = Vec::new();
    let r = store.append_transaction(send(3, 20, 9, 1), Memo(0), 1, ts(1), &reg, &mut follow_ups);
    assert_eq!(r, Ok(false));
    assert_eq!(follow_ups, vec![FollowUp { principal: 77, block_height: 1, memo: Memo(5) }]);
    assert_eq!(store.get_transactions_count(), 0);
    let r = store.append_transaction(send(1, 20, 9, 1), Memo(0), 2, ts(2), &reg, &mut follow_ups);
    assert_eq!(r, Ok(true));
    assert_eq!(follow_ups.len(), 1);
    let r = store.append_transaction(send(3, 21, 9, 1), Memo(0), 3, ts(3), &reg, &mut follow_ups);
    assert_eq!(r, Ok(false));
    assert_eq!(follow_ups.len(), 1);
}

#[test]
fn lookup_by_number_respects_window() {
    let mut store = three_records();
    assert_eq!(store.get_transaction(1).unwrap().block_height, 12);
    assert!(store.get_transaction(3).is_none());
    assert_eq!(store.prune_transactions(1), 1);
    assert!(store.get_transaction(0).is_none());
    assert_eq!(store.get_transaction(1).unwrap().block_height, 12);
    assert_eq!(store.get_transaction(2).unwrap().block_height, 15);
    assert_eq!(store.get_transaction_index(10), None);
    assert_eq!(store.get_transaction_index(15), Some(2));
    assert_eq!(store.get_next_transaction_index(), 3);
}

#[test]
fn prune_more_than_held_empties_log() {
    let mut store = three_records();
    assert_eq!(store.prune_transactions(10), 3);
    assert_eq!(store.get_transactions_count(), 0);
    assert_eq!(store.get_block_height_synced_up_to(), Some(15));
}

#[test]
fn stats_of_store() {
    let mut store = three_records();
    store.mark_ledger_sync_complete(1_000_000_000);
    let stats = store.get_stats(3_500_000_000);
    assert_eq!(stats.transactions_count, 3);
    assert_eq!(stats.block_height_synced_up_to, Some(15));
    assert_eq!(stats.earliest_transaction_block_height, 10);
    assert_eq!(stats.earliest_transaction_timestamp_nanos, 100);
    assert_eq!(stats.latest_transaction_block_height, 15);
    assert_eq!(stats.latest_transaction_timestamp_nanos, 150);
    assert_eq!(stats.seconds_since_last_ledger_sync, 2);
    assert_eq!(store.get_stats(500).seconds_since_last_ledger_sync, 0);
}

#[test]
fn stats_of_empty_store() {
    let stats = AccountsStore::default().get_stats(7_000_000_000);
    assert_eq!(stats.transactions_count, 0);
    assert_eq!(stats.block_height_synced_up_to, None);
    assert_eq!(stats.earliest_transaction_block_height, 0);
    assert_eq!(stats.latest_transaction_timestamp_nanos, 0);
    assert_eq!(stats.seconds_since_last_ledger_sync, 7);
}

#[test]
fn metrics_gauges() {
    let mut store = three_records();
    store.mark_ledger_sync_complete(0);
    let gauges = encode_metrics(&store.get_stats(4_000_000_000));
    assert_eq!(gauges.len(), 2);
    assert_eq!(gauges[0].name, "transactions_count");
    assert_eq!(gauges[0].value, 3);
    assert_eq!(gauges[1].name, "seconds_since_last_ledger_sync");
    assert_eq!(gauges[1].value, 4);
}

#[test]
fn prune_threshold() {
    assert!(!should_prune_transactions(1_000_000));
    assert!(should_prune_transactions(1_000_001));
    assert!(!should_prune_transactions(0));
}

fn same_observations(a: &AccountsStore, b: &AccountsStore) {
    assert_eq!(a.get_stats(9_000_000_000), b.get_stats(9_000_000_000));
    assert_eq!(a.get_block_height_synced_up_to(), b.get_block_height_synced_up_to());
    for i in 0..20u64 {
        assert_eq!(a.get_transaction(i), b.get_transaction(i));
        assert_eq!(a.get_transaction_index(i), b.get_transaction_index(i));
    }
}

#[test]
fn snapshot_round_trip() {
    let mut store = three_records();
    store.mark_ledger_sync_complete(123_456_789);
    let bytes = store.encode_snapshot();
    assert_eq!(bytes.len(), 8 * (1 + 10 * 3 + 3));
    let restored = AccountsStore::decode_snapshot(&bytes).unwrap();
    same_observations(&store, &restored);
    assert_eq!(restored.encode_snapshot(), bytes);
}

#[test]
fn snapshot_round_trip_of_empty_store() {
    let store = AccountsStore::new();
    let bytes = store.encode_snapshot();
    assert_eq!(bytes.len(), 32);
    let restored = AccountsStore::decode_snapshot(&bytes).unwrap();
    same_observations(&store, &restored);
}

#[test]
fn snapshot_round_trip_after_pruning() {
    let mut store = three_records();
    store.prune_transactions(2);
    let restored = AccountsStore::decode_snapshot(&store.encode_snapshot()).unwrap();
    same_observations(&store, &restored);
    assert_eq!(restored.get_next_transaction_index(), 3);
}

#[test]
fn snapshot_words_are_little_endian() {
    let mut store = AccountsStore::new();
    store.init_block_height_synced_up_to(0x0102);
    store.mark_ledger_sync_complete(5);
    let bytes = store.encode_snapshot();
    let mut expected = vec![0u8; 8];
    expected.extend_from_slice(&[1, 0, 0, 0, 0, 0, 0, 0]);
    expected.extend_from_slice(&[2, 1, 0, 0, 0, 0, 0, 0]);
    expected.extend_from_slice(&[5, 0, 0, 0, 0, 0, 0, 0]);
    assert_eq!(bytes, expected);
}

#[test]
fn decode_rejects_malformed_bytes() {
    let store = three_records();
    let bytes = store.encode_snapshot();
    // not a whole number of words
    assert_eq!(AccountsStore::decode_snapshot(&bytes[..bytes.len() - 1].to_vec()).err(), Some(DecodeError::Malformed));
    // empty input
    assert_eq!(AccountsStore::decode_snapshot(&Vec::new()).err(), Some(DecodeError::Malformed));
    // record count disagrees with the length
    let mut wrong_count = bytes.clone();
    wrong_count[0] = 4;
    assert!(AccountsStore::decode_snapshot(&wrong_count).is_err());
    // unknown transfer tag in the first record
    let mut bad_tag = bytes.clone();
    bad_tag[8 * (1 + 4)] = 9;
    assert!(AccountsStore::decode_snapshot(&bad_tag).is_err());
    // unknown classification word
    let mut bad_type = bytes.clone();
    bad_type[8 * (1 + 9)] = 4;
    assert!(AccountsStore::decode_snapshot(&bad_type).is_err());
    // a gap in the record numbers
    let mut gap = bytes.clone();
    gap[8 * (1 + 10)] = 5;
    assert!(AccountsStore::decode_snapshot(&gap).is_err());
    // watermark below the latest record
    let mut low_watermark = bytes.clone();
    let w = 8 * (1 + 30 + 1);
    low_watermark[w] = 3;
    assert!(AccountsStore::decode_snapshot(&low_watermark).is_err());
    // watermark flag out of range
    let mut bad_flag = bytes.clone();
    bad_flag[8 * (1 + 30)] = 2;
    assert!(AccountsStore::decode_snapshot(&bad_flag).is_err());
}

#[test]
fn state_encode_decode_and_replace() {
    let mut state = State::default();
    let source = State { accounts_store: three_records() };
    let bytes = source.encode();
    let decoded = State::decode(bytes).unwrap();
    state.replace(decoded);
    assert_eq!(state.accounts_store.get_transactions_count(), 3);
    assert_eq!(state.accounts_store.get_transaction_index(12), Some(1));
    assert!(State::decode(vec![1, 2, 3]).is_err());
    let store_bytes = StableState::encode(&three_records());
    let store = <AccountsStore as StableState>::decode(store_bytes).unwrap();
    assert_eq!(store.get_block_height_synced_up_to(), Some(15));
}

#[test]
fn lookups_across_pruning_and_appending() {
    let reg = registry(&[1]);
    let mut store = three_records();
    assert_eq!(store.prune_transactions(2), 2);
    for h in 16..=19u64 {
        assert_eq!(ingest(&mut store, &reg, send(1, 2, 5, 1), h), Ok(true));
    }
    // window: heights 15..=19, numbers 2..=6
    assert_eq!(store.get_transactions_count(), 5);
    assert_eq!(store.get_transaction_index(15), Some(2));
    assert_eq!(store.get_transaction_index(17), Some(4));
    assert_eq!(store.get_transaction_index(19), Some(6));
    assert_eq!(store.get_transaction_index(12), None);
    assert_eq!(store.prune_transactions(2), 2);
    assert_eq!(store.get_transaction_index(15), None);
    assert_eq!(store.get_transaction_index(16), None);
    assert_eq!(store.get_transaction_index(18), Some(5));
    assert_eq!(store.get_transaction(4).unwrap().block_height, 17);
    assert!(store.get_transaction(3).is_none());
    assert_eq!(ingest(&mut store, &reg, send(1, 2, 5, 1), 20), Ok(true));
    assert_eq!(store.get_transaction_index(20), Some(7));
    let stats = store.get_stats(0);
    assert_eq!(stats.earliest_transaction_block_height, 17);
    assert_eq!(stats.latest_transaction_block_height, 20);
    let restored = AccountsStore::decode_snapshot(&store.encode_snapshot()).unwrap();
    same_observations(&store, &restored);
}

#[test]
fn tracked_sender_completes_pending_action() {
    let reg = Registry {
        accounts: vec![account(1), account(2)],
        pending_deposits: vec![PendingDeposit { account: account(30), principal: 99, memo: Memo(1) }],
        pending_actions: vec![
            PendingAction { account: account(30), memo: Memo(7), principal: 55 },
            PendingAction { account: account(30), memo: Memo(7), principal: 66 },
        ],
    };
    let mut store = AccountsStore::new();
    store.init_block_height_synced_up_to(0);
    let mut follow_ups = Vec::new();
    // tracked sender, untracked recipient, matching memo
    let r = store.append_transaction(send(1, 30, 9, 1), Memo(7), 1, ts(1), &reg, &mut follow_ups);
    assert_eq!(r, Ok(true));
    assert_eq!(follow_ups, vec![FollowUp { principal: 55, block_height: 1, memo: Memo(7) }]);
    assert_eq!(store.get_transaction(0).unwrap().transaction_type, Some(TransactionType::Send));
    // another memo: nothing waits for it
    let r = store.append_transaction(send(1, 30, 9, 1), Memo(8), 2, ts(2), &reg, &mut follow_ups);
    assert_eq!(r, Ok(true));
    assert_eq!(follow_ups.len(), 1);
    // recipient tracked too: kept, no follow-up
    let r = store.append_transaction(send(1, 2, 9, 1), Memo(7), 3, ts(3), &reg, &mut follow_ups);
    assert_eq!(r, Ok(true));
    assert_eq!(follow_ups.len(), 1);
    // untracked sender to the same address: the deposit, not the action
    let r = store.append_transaction(send(5, 30, 9, 1), Memo(7), 4, ts(4), &reg, &mut follow_ups);
    assert_eq!(r, Ok(false));
    assert_eq!(follow_ups[1], FollowUp { principal: 99, block_height: 4, memo: Memo(1) });
}

#[test]
fn record_at_largest_height() {
    let reg = registry(&[1]);
    let mut store = AccountsStore::new();
    assert_eq!(ingest(&mut store, &reg, send(1, 2, 5, 1), u64::MAX / 10), Ok(true));
    let mut other = AccountsStore::new();
    let mut follow_ups = Vec::new();
    let r = other.append_transaction(send(1, 2, 5, 1), Memo(0), u64::MAX, ts(0), &reg, &mut follow_ups);
    assert_eq!(r, Ok(true));
    assert_eq!(other.get_next_transaction_index(), 1);
    assert_eq!(other.get_transaction_index(u64::MAX), Some(0));
    let restored = AccountsStore::decode_snapshot(&other.encode_snapshot()).unwrap();
    assert_eq!(restored.get_transaction_index(u64::MAX), Some(0));
}
