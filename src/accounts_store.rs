use crate::codec::{decode_parts, decoding, encode_parts, encoding, DecodeError};
use crate::ledger::{AccountIdentifier, Memo, TimeStamp, Transfer};
use vstd::prelude::*;

verus! {

/// How a retained transfer concerns the tracked accounts.
#[derive(Clone, Copy, Debug, PartialEq, Eq, Structural)]
pub enum TransactionType {
    Burn,
    Mint,
    Send,
}

/// One retained transfer, numbered by the mirror and never changed after creation.
#[derive(Clone, Copy, Debug, PartialEq, Eq, Structural)]
pub struct Transaction {
    pub transaction_index: u64,
    pub block_height: u64,
    pub timestamp: TimeStamp,
    pub memo: Memo,
    pub transfer: Transfer,
    pub transaction_type: Option<TransactionType>,
}

impl Transaction {
    pub fn new(
        transaction_index: u64,
        block_height: u64,
        timestamp: TimeStamp,
        memo: Memo,
        transfer: Transfer,
        transaction_type: Option<TransactionType>,
    ) -> (r: Transaction)
        ensures
            r == (Transaction {
                transaction_index,
                block_height,
                timestamp,
                memo,
                transfer,
                transaction_type,
            }),
    {
        Transaction { transaction_index, block_height, timestamp, memo, transfer, transaction_type }
    }
}

/// An address set aside for a pending operation of some principal: funds that reach it
/// from untracked accounts call for a follow-up action.
#[derive(Clone, Copy, Debug, PartialEq, Eq, Structural)]
pub struct PendingDeposit {
    pub account: AccountIdentifier,
    pub principal: u64,
    pub memo: Memo,
}

/// An operation of some principal that waits for funds sent from one of its tracked
/// accounts to `account` under `memo` (a stake or a top-up, say).
#[derive(Clone, Copy, Debug, PartialEq, Eq, Structural)]
pub struct PendingAction {
    pub account: AccountIdentifier,
    pub memo: Memo,
    pub principal: u64,
}

/// A deferred action for another subsystem: funds arrived for a pending operation.
#[derive(Clone, Copy, Debug, PartialEq, Eq, Structural)]
pub struct FollowUp {
    pub principal: u64,
    pub block_height: u64,
    pub memo: Memo,
}

/// The accounts this mirror has been told to watch, and the pending deposit addresses.
pub struct Registry {
    pub accounts: Vec<AccountIdentifier>,
    pub pending_deposits: Vec<PendingDeposit>,
    pub pending_actions: Vec<PendingAction>,
}

/// Ingestion offered a block out of sequence.
#[derive(Clone, Copy, Debug, PartialEq, Eq, Structural)]
pub enum SyncError {
    HeightMismatch { synced_up_to: u64, block_height: u64 },
}

/// Aggregate counters derived from the store.
#[derive(Clone, Copy, Debug, PartialEq, Eq, Structural)]
pub struct Stats {
    pub transactions_count: u64,
    pub block_height_synced_up_to: Option<u64>,
    pub earliest_transaction_timestamp_nanos: u64,
    pub earliest_transaction_block_height: u64,
    pub latest_transaction_timestamp_nanos: u64,
    pub latest_transaction_block_height: u64,
    pub seconds_since_last_ledger_sync: u64,
}

/// The log of retained transfers, the sync watermark and the time of the last full sync.
///
/// The log is a window held in two physical segments: the live part of `front` (from
/// `head` on), then `back`. Eviction moves `head`; appending pushes onto `back`; once the
/// front is used up, `back` takes its place. No record is moved on either.
pub struct AccountsStore {
    front: Vec<Transaction>,
    head: usize,
    back: Vec<Transaction>,
    block_height_synced_up_to: Option<u64>,
    last_ledger_sync_timestamp_nanos: u64,
}

/// The mathematical content of an `AccountsStore`.
pub struct StoreView {
    pub log: Seq<Transaction>,
    pub synced_up_to: Option<u64>,
    pub last_sync_nanos: u64,
}

impl View for AccountsStore {
    type V = StoreView;

    closed spec fn view(&self) -> StoreView {
        StoreView {
            log: self.front@.subrange(self.head as int, self.front@.len() as int) + self.back@,
            synced_up_to: self.block_height_synced_up_to,
            last_sync_nanos: self.last_ledger_sync_timestamp_nanos,
        }
    }
}

/// Records are numbered densely from the first one, heights strictly increase, and no
/// record is numbered above its height.
pub open spec fn records_wf(log: Seq<Transaction>) -> bool {
    &&& forall|i: int|
        0 <= i < log.len() ==> #[trigger] log[i].transaction_index == log[0].transaction_index
            + i
    &&& forall|i: int, j: int|
        0 <= i < j < log.len() ==> #[trigger] log[i].block_height < #[trigger] log[j].block_height
    &&& forall|i: int| 0 <= i < log.len() ==> #[trigger] log[i].transaction_index <= log[i].block_height
}

/// The records are well formed and the watermark covers the whole log.
pub open spec fn log_wf(log: Seq<Transaction>, synced_up_to: Option<u64>) -> bool {
    &&& records_wf(log)
    &&& log.len() > 0 ==> synced_up_to is Some && log.last().block_height <= synced_up_to.unwrap()
}

pub open spec fn empty_view() -> StoreView {
    StoreView { log: Seq::empty(), synced_up_to: None, last_sync_nanos: 0 }
}

/// The number the next retained record gets.
pub open spec fn next_index(log: Seq<Transaction>) -> int {
    if log.len() == 0 {
        0
    } else {
        log.last().transaction_index + 1
    }
}

/// Whether a block at `block_height` may be ingested after the watermark.
pub open spec fn height_accepted(synced_up_to: Option<u64>, block_height: u64) -> bool {
    match synced_up_to {
        None => true,
        Some(w) => block_height == w + 1,
    }
}

/// The classification of a transfer for the tracked `accounts`; `None` means it is not kept.
pub open spec fn classify(transfer: Transfer, accounts: Seq<AccountIdentifier>) -> Option<
    TransactionType,
> {
    match transfer {
        Transfer::Burn { from, .. } => if accounts.contains(from) {
            Some(TransactionType::Burn)
        } else {
            None
        },
        Transfer::Mint { to, .. } => if accounts.contains(to) {
            Some(TransactionType::Mint)
        } else {
            None
        },
        Transfer::Send { from, to, .. } => if accounts.contains(to) || accounts.contains(from) {
            Some(TransactionType::Send)
        } else {
            None
        },
    }
}

/// The first pending deposit registered for `account`.
pub open spec fn first_deposit(deposits: Seq<PendingDeposit>, account: AccountIdentifier) -> Option<
    PendingDeposit,
>
    decreases deposits.len(),
{
    if deposits.len() == 0 {
        None
    } else if deposits[0].account == account {
        Some(deposits[0])
    } else {
        first_deposit(deposits.subrange(1, deposits.len() as int), account)
    }
}

/// The first pending action that waits for funds sent to `account` under `memo`.
pub open spec fn first_action(actions: Seq<PendingAction>, account: AccountIdentifier, memo: Memo) -> Option<
    PendingAction,
>
    decreases actions.len(),
{
    if actions.len() == 0 {
        None
    } else if actions[0].account == account && actions[0].memo == memo {
        Some(actions[0])
    } else {
        first_action(actions.subrange(1, actions.len() as int), account, memo)
    }
}

/// The follow-up actions that ingesting `transfer` at `block_height` emits.
/// A tracked sender paying an untracked recipient under a memo that a pending action
/// waits for completes that action; funds from untracked accounts that reach a pending
/// deposit address complete the deposit.
pub open spec fn follow_ups_of(
    transfer: Transfer,
    memo: Memo,
    block_height: u64,
    accounts: Seq<AccountIdentifier>,
    deposits: Seq<PendingDeposit>,
    actions: Seq<PendingAction>,
) -> Seq<FollowUp> {
    match transfer {
        Transfer::Send { from, to, .. } => if !accounts.contains(to) && accounts.contains(from)
            && first_action(actions, to, memo) is Some {
            let a = first_action(actions, to, memo).unwrap();
            seq![FollowUp { principal: a.principal, block_height, memo: a.memo }]
        } else if classify(transfer, accounts) is None && first_deposit(
            deposits,
            to,
        ) is Some {
            let d = first_deposit(deposits, to).unwrap();
            seq![FollowUp { principal: d.principal, block_height, memo: d.memo }]
        } else {
            Seq::empty()
        },
        _ => Seq::empty(),
    }
}

/// The store after a successful ingestion.
pub open spec fn ingested(
    v: StoreView,
    transfer: Transfer,
    memo: Memo,
    block_height: u64,
    timestamp: TimeStamp,
    accounts: Seq<AccountIdentifier>,
) -> StoreView {
    StoreView {
        log: match classify(transfer, accounts) {
            Some(ty) => v.log.push(
                Transaction {
                    transaction_index: next_index(v.log) as u64,
                    block_height,
                    timestamp,
                    memo,
                    transfer,
                    transaction_type: Some(ty),
                },
            ),
            None => v.log,
        },
        synced_up_to: Some(block_height),
        last_sync_nanos: v.last_sync_nanos,
    }
}

/// Whether record number `index` lies in the retained window of `log`.
pub open spec fn in_window(log: Seq<Transaction>, index: u64) -> bool {
    log.len() > 0 && log[0].transaction_index <= index < log[0].transaction_index + log.len()
}

fn contains_account(accounts: &Vec<AccountIdentifier>, a: AccountIdentifier) -> (r: bool)
    ensures
        r == accounts@.contains(a),
{
    let mut i: usize = 0;
    while i < accounts.len()
        invariant
            0 <= i <= accounts@.len(),
            forall|j: int| 0 <= j < i ==> accounts@[j] != a,
        decreases accounts@.len() - i,
    {
        if accounts[i] == a {
            return true;
        }
        i = i + 1;
    }
    false
}

fn classify_transfer(transfer: &Transfer, accounts: &Vec<AccountIdentifier>) -> (r: Option<
    TransactionType,
>)
    ensures
        r == classify(*transfer, accounts@),
{
    match transfer {
        Transfer::Burn { from, .. } => if contains_account(accounts, *from) {
            Some(TransactionType::Burn)
        } else {
            None
        },
        Transfer::Mint { to, .. } => if contains_account(accounts, *to) {
            Some(TransactionType::Mint)
        } else {
            None
        },
        Transfer::Send { from, to, .. } => if contains_account(accounts, *to) || contains_account(
            accounts,
            *from,
        ) {
            Some(TransactionType::Send)
        } else {
            None
        },
    }
}

fn find_pending_action(actions: &Vec<PendingAction>, account: AccountIdentifier, memo: Memo) -> (r:
    Option<PendingAction>)
    ensures
        r == first_action(actions@, account, memo),
{
    let mut i: usize = 0;
    assert(actions@.subrange(0, actions@.len() as int) =~= actions@);
    while i < actions.len()
        invariant
            0 <= i <= actions@.len(),
            first_action(actions@, account, memo) == first_action(
                actions@.subrange(i as int, actions@.len() as int),
                account,
                memo,
            ),
        decreases actions@.len() - i,
    {
        let ghost rest = actions@.subrange(i as int, actions@.len() as int);
        assert(rest.subrange(1, rest.len() as int) =~= actions@.subrange(
            i + 1,
            actions@.len() as int,
        ));
        if actions[i].account == account && actions[i].memo == memo {
            return Some(actions[i]);
        }
        i = i + 1;
    }
    assert(actions@.subrange(i as int, actions@.len() as int).len() == 0);
    None
}

fn find_pending_deposit(deposits: &Vec<PendingDeposit>, account: AccountIdentifier) -> (r: Option<
    PendingDeposit,
>)
    ensures
        r == first_deposit(deposits@, account),
{
    let mut i: usize = 0;
    assert(deposits@.subrange(0, deposits@.len() as int) =~= deposits@);
    while i < deposits.len()
        invariant
            0 <= i <= deposits@.len(),
            first_deposit(deposits@, account) == first_deposit(
                deposits@.subrange(i as int, deposits@.len() as int),
                account,
            ),
        decreases deposits@.len() - i,
    {
        let ghost rest = deposits@.subrange(i as int, deposits@.len() as int);
        assert(rest.subrange(1, rest.len() as int) =~= deposits@.subrange(
            i + 1,
            deposits@.len() as int,
        ));
        if deposits[i].account == account {
            return Some(deposits[i]);
        }
        i = i + 1;
    }
    assert(deposits@.subrange(i as int, deposits@.len() as int).len() == 0);
    None
}

/// Binary search by height within `seg[start..]`, whose heights strictly increase.
fn search_segment(seg: &Vec<Transaction>, start: usize, block_height: u64) -> (r: Option<usize>)
    requires
        start <= seg@.len(),
        forall|i: int, j: int|
            start <= i < j < seg@.len() ==> #[trigger] seg@[i].block_height
                < #[trigger] seg@[j].block_height,
    ensures
        r matches Some(k) ==> start <= k < seg@.len() && seg@[k as int].block_height == block_height,
        r is None ==> forall|j: int|
            start <= j < seg@.len() ==> #[trigger] seg@[j].block_height != block_height,
{
    let mut lo: usize = start;
    let mut hi: usize = seg.len();
    while lo < hi
        invariant
            start <= lo <= hi <= seg@.len(),
            forall|i: int, j: int|
                start <= i < j < seg@.len() ==> #[trigger] seg@[i].block_height
                    < #[trigger] seg@[j].block_height,
            forall|j: int| start <= j < lo ==> #[trigger] seg@[j].block_height < block_height,
            forall|j: int| hi <= j < seg@.len() ==> #[trigger] seg@[j].block_height > block_height,
        decreases hi - lo,
    {
        let mid = lo + (hi - lo) / 2;
        let h = seg[mid].block_height;
        if h < block_height {
            proof {
                assert forall|j: int| start <= j < mid + 1 implies #[trigger] seg@[j].block_height
                    < block_height by {
                    if j < mid {
                        assert(seg@[j].block_height < seg@[mid as int].block_height);
                    }
                }
            }
            lo = mid + 1;
        } else if h > block_height {
            proof {
                assert forall|j: int| mid <= j < seg@.len() implies #[trigger] seg@[j].block_height
                    > block_height by {
                    if j > mid {
                        assert(seg@[mid as int].block_height < seg@[j].block_height);
                    }
                }
            }
            hi = mid;
        } else {
            return Some(mid);
        }
    }
    None
}

impl AccountsStore {
    /// The head lies within the front segment.
    pub closed spec fn segments_wf(&self) -> bool {
        self.head <= self.front@.len()
    }

    pub open spec fn wf(&self) -> bool {
        self.segments_wf() && log_wf(self@.log, self@.synced_up_to)
    }

    proof fn lemma_segments(&self)
        requires
            self.segments_wf(),
        ensures
            self@.log.len() == self.front@.len() - self.head + self.back@.len(),
            forall|i: int|
                self.head <= i < self.front@.len() ==> #[trigger] self.front@[i] == self@.log[i
                    - self.head],
            forall|j: int|
                0 <= j < self.back@.len() ==> #[trigger] self.back@[j] == self@.log[self.front@.len()
                    - self.head + j],
    {
    }

    /// The record at position `i` of the window.
    fn log_at(&self, i: usize) -> (r: &Transaction)
        requires
            self.segments_wf(),
            i < self@.log.len(),
        ensures
            *r == self@.log[i as int],
    {
        proof {
            self.lemma_segments();
        }
        let live = self.front.len() - self.head;
        if i < live {
            &self.front[self.head + i]
        } else {
            &self.back[i - live]
        }
    }

    /// The length of the window, saturated at `u64::MAX`.
    fn log_len(&self) -> (r: u64)
        requires
            self.segments_wf(),
        ensures
            r == saturated_len(self@.log),
    {
        proof {
            self.lemma_segments();
        }
        let live = (self.front.len() - self.head) as u64;
        live.saturating_add(self.back.len() as u64)
    }

    fn is_empty(&self) -> (r: bool)
        requires
            self.segments_wf(),
        ensures
            r == (self@.log.len() == 0),
    {
        proof {
            self.lemma_segments();
        }
        self.head == self.front.len() && self.back.len() == 0
    }

    /// A contiguous copy of the window.
    fn records(&self) -> (r: Vec<Transaction>)
        requires
            self.segments_wf(),
        ensures
            r@ == self@.log,
    {
        proof {
            self.lemma_segments();
        }
        let mut r: Vec<Transaction> = Vec::new();
        let mut i: usize = self.head;
        while i < self.front.len()
            invariant
                self.segments_wf(),
                self.head <= i <= self.front@.len(),
                r@ =~= self.front@.subrange(self.head as int, i as int),
            decreases self.front@.len() - i,
        {
            r.push(self.front[i]);
            i = i + 1;
        }
        let mut j: usize = 0;
        while j < self.back.len()
            invariant
                j <= self.back@.len(),
                r@ =~= self.front@.subrange(self.head as int, self.front@.len() as int)
                    + self.back@.subrange(0, j as int),
            decreases self.back@.len() - j,
        {
            r.push(self.back[j]);
            j = j + 1;
        }
        assert(self.back@.subrange(0, self.back@.len() as int) =~= self.back@);
        r
    }

    /// Drops the oldest record of a non-empty window.
    fn evict_front(&mut self)
        requires
            old(self).segments_wf(),
            old(self)@.log.len() > 0,
        ensures
            final(self).segments_wf(),
            final(self)@ == (StoreView { log: old(self)@.log.drop_first(), ..old(self)@ }),
    {
        if self.head == self.front.len() {
            core::mem::swap(&mut self.front, &mut self.back);
            self.back = Vec::new();
            self.head = 0;
            assert(self@.log =~= old(self)@.log);
        }
        self.head = self.head + 1;
        assert(self@.log =~= old(self)@.log.drop_first());
    }

    /// An empty store: no records, no watermark, never synced.
    pub fn new() -> (r: AccountsStore)
        ensures
            r@ == empty_view(),
            r.wf(),
    {
        let r = AccountsStore {
            front: Vec::new(),
            head: 0,
            back: Vec::new(),
            block_height_synced_up_to: None,
            last_ledger_sync_timestamp_nanos: 0,
        };
        assert(r@.log =~= Seq::<Transaction>::empty());
        r
    }

    /// Ingests the transfer of block `block_height`. The block must follow the watermark;
    /// a transfer that touches a tracked account is kept under the next record number,
    /// one that only pays into a pending deposit address emits a follow-up, and the
    /// watermark moves to `block_height` either way.
    pub fn append_transaction(
        &mut self,
        transfer: Transfer,
        memo: Memo,
        block_height: u64,
        timestamp: TimeStamp,
        registry: &Registry,
        follow_ups: &mut Vec<FollowUp>,
    ) -> (r: Result<bool, SyncError>)
        requires
            old(self).wf(),
        ensures
            final(self).wf(),
            r is Ok <==> height_accepted(old(self)@.synced_up_to, block_height),
            r is Err ==> final(self)@ == old(self)@ && final(follow_ups)@ == old(follow_ups)@,
            r matches Err(e) ==> e == (SyncError::HeightMismatch {
                synced_up_to: old(self)@.synced_up_to.unwrap(),
                block_height,
            }),
            r matches Ok(retained) ==> {
                &&& retained == classify(transfer, registry.accounts@) is Some
                &&& final(self)@ == ingested(
                    old(self)@,
                    transfer,
                    memo,
                    block_height,
                    timestamp,
                    registry.accounts@,
                )
                &&& final(follow_ups)@ == old(follow_ups)@ + follow_ups_of(
                    transfer,
                    memo,
                    block_height,
                    registry.accounts@,
                    registry.pending_deposits@,
                    registry.pending_actions@,
                )
            },
    {
        if let Some(synced_up_to) = self.block_height_synced_up_to {
            if synced_up_to == u64::MAX || block_height != synced_up_to + 1 {
                return Err(SyncError::HeightMismatch { synced_up_to, block_height });
            }
        }
        let transaction_index = self.get_next_transaction_index();
        let transaction_type = classify_transfer(&transfer, &registry.accounts);
        let retained = transaction_type.is_some();
        if retained {
            let record = Transaction::new(
                transaction_index,
                block_height,
                timestamp,
                memo,
                transfer,
                transaction_type,
            );
            self.back.push(record);
            assert(self@.log =~= old(self)@.log.push(record));
            if let Transfer::Send { from, to, .. } = transfer {
                if !contains_account(&registry.accounts, to) && contains_account(
                    &registry.accounts,
                    from,
                ) {
                    if let Some(action) = find_pending_action(&registry.pending_actions, to, memo) {
                        follow_ups.push(
                            FollowUp { principal: action.principal, block_height, memo: action.memo },
                        );
                    }
                }
            }
        } else if let Transfer::Send { to, .. } = transfer {
            if let Some(deposit) = find_pending_deposit(&registry.pending_deposits, to) {
                follow_ups.push(
                    FollowUp { principal: deposit.principal, block_height, memo: deposit.memo },
                );
            }
        }
        self.block_height_synced_up_to = Some(block_height);
        proof {
            let log = self@.log;
            let old_log = old(self)@.log;
            if retained {
                assert(log.len() == old_log.len() + 1);
                assert forall|i: int, j: int| 0 <= i < j < log.len() implies #[trigger] log[i].block_height
                    < #[trigger] log[j].block_height by {
                    if j == old_log.len() && i < j - 1 {
                        assert(old_log[i].block_height < old_log[j - 1].block_height);
                    }
                }
            }
        }
        assert(follow_ups@ =~= old(follow_ups)@ + follow_ups_of(
            transfer,
            memo,
            block_height,
            registry.accounts@,
            registry.pending_deposits@,
            registry.pending_actions@,
        ));
        Ok(retained)
    }

    /// Records the time at which a full sync pass completed.
    pub fn mark_ledger_sync_complete(&mut self, now_nanos: u64)
        ensures
            final(self)@ == (StoreView { last_sync_nanos: now_nanos, ..old(self)@ }),
    {
        self.last_ledger_sync_timestamp_nanos = now_nanos;
    }

    /// Sets the watermark from which ingestion starts; it may be set only once.
    pub fn init_block_height_synced_up_to(&mut self, block_height: u64)
        requires
            old(self).wf(),
            old(self)@.synced_up_to is None,
        ensures
            final(self).wf(),
            final(self)@ == (StoreView { synced_up_to: Some(block_height), ..old(self)@ }),
    {
        self.block_height_synced_up_to = Some(block_height);
    }

    /// The number the next retained record gets.
    pub fn get_next_transaction_index(&self) -> (r: u64)
        requires
            self.wf(),
            self@.log.len() > 0 ==> self@.log.last().transaction_index < u64::MAX,
        ensures
            r == next_index(self@.log),
    {
        proof {
            self.lemma_segments();
        }
        if self.back.len() > 0 {
            self.back[self.back.len() - 1].transaction_index + 1
        } else if self.head < self.front.len() {
            self.front[self.front.len() - 1].transaction_index + 1
        } else {
            0
        }
    }

    pub fn get_block_height_synced_up_to(&self) -> (r: Option<u64>)
        ensures
            r == self@.synced_up_to,
    {
        self.block_height_synced_up_to
    }

    /// The number of retained records, saturated at `u32::MAX`.
    pub fn get_transactions_count(&self) -> (r: u32)
        requires
            self.wf(),
        ensures
            r == if self@.log.len() > u32::MAX {
                u32::MAX as int
            } else {
                self@.log.len() as int
            },
    {
        let n = self.log_len();
        if n > u32::MAX as u64 {
            u32::MAX
        } else {
            n as u32
        }
    }

    /// The record numbered `transaction_index`, if it is in the retained window.
    pub fn get_transaction(&self, transaction_index: u64) -> (r: Option<&Transaction>)
        requires
            self.wf(),
        ensures
            match r {
                Some(t) => in_window(self@.log, transaction_index) && *t == self@.log[transaction_index
                    - self@.log[0].transaction_index],
                None => !in_window(self@.log, transaction_index),
            },
    {
        proof {
            self.lemma_segments();
        }
        if self.is_empty() {
            return None;
        }
        let offset = self.log_at(0).transaction_index;
        if offset > transaction_index {
            return None;
        }
        let position = transaction_index - offset;
        let live = self.front.len() - self.head;
        if position < live as u64 {
            Some(&self.front[self.head + position as usize])
        } else if position - (live as u64) < self.back.len() as u64 {
            Some(&self.back[(position - live as u64) as usize])
        } else {
            None
        }
    }

    /// The number of the record that block `block_height` produced; `None` where no
    /// retained record has that height. The search first picks the segment whose range
    /// holds the height, then halves within it.
    #[verifier::rlimit(50)]
    pub fn get_transaction_index(&self, block_height: u64) -> (r: Option<u64>)
        requires
            self.wf(),
        ensures
            r matches Some(k) ==> exists|j: int|
                0 <= j < self@.log.len() && #[trigger] self@.log[j].block_height == block_height
                    && self@.log[j].transaction_index == k,
            r is None ==> forall|j: int|
                0 <= j < self@.log.len() ==> #[trigger] self@.log[j].block_height != block_height,
            forall|j: int|
                0 <= j < self@.log.len() && #[trigger] self@.log[j].block_height == block_height
                    ==> r == Some(self@.log[j].transaction_index),
            (self@.log.len() == 0 || block_height > self@.log.last().block_height) ==> r is None,
    {
        proof {
            self.lemma_segments();
        }
        let ghost log = self@.log;
        let ghost head = self.head as int;
        let ghost live = self.front@.len() - self.head;
        if self.is_empty() {
            return None;
        }
        let last = if self.back.len() > 0 {
            self.back[self.back.len() - 1].block_height
        } else {
            self.front[self.front.len() - 1].block_height
        };
        assert(last == log.last().block_height);
        if block_height > last {
            proof {
                assert forall|j: int| 0 <= j < log.len() implies #[trigger] log[j].block_height
                    != block_height by {
                    if j < log.len() - 1 {
                        assert(log[j].block_height < log[log.len() - 1].block_height);
                    }
                }
            }
            return None;
        }
        proof {
            assert forall|i: int, j: int| self.head <= i < j < self.front@.len() implies #[trigger] self.front@[i].block_height
                < #[trigger] self.front@[j].block_height by {
                assert(log[i - head].block_height < log[j - head].block_height);
            }
            assert forall|i: int, j: int| 0 <= i < j < self.back@.len() implies #[trigger] self.back@[i].block_height
                < #[trigger] self.back@[j].block_height by {
                assert(log[live + i].block_height < log[live + j].block_height);
            }
        }
        if self.back.len() > 0 && self.back[0].block_height <= block_height {
            let found = search_segment(&self.back, 0, block_height);
            proof {
                assert forall|j: int| 0 <= j < live implies #[trigger] log[j].block_height
                    != block_height by {
                    assert(log[j].block_height < log[live].block_height);
                }
                if found is None {
                    assert forall|j: int| 0 <= j < log.len() implies #[trigger] log[j].block_height
                        != block_height by {
                        if j >= live {
                            assert(self.back@[j - live] == log[j]);
                        }
                    }
                }
            }
            match found {
                Some(k) => {
                    assert(self.back@[k as int] == log[live + k]);
                    Some(self.back[k].transaction_index)
                },
                None => None,
            }
        } else {
            let found = search_segment(&self.front, self.head, block_height);
            proof {
                if found is None {
                    assert forall|j: int| 0 <= j < log.len() implies #[trigger] log[j].block_height
                        != block_height by {
                        if j >= live {
                            assert(log[live].block_height <= log[j].block_height);
                        } else {
                            assert(self.front@[head + j] == log[j]);
                        }
                    }
                }
            }
            match found {
                Some(k) => {
                    assert(self.front@[k as int] == log[k - head]);
                    Some(self.front[k].transaction_index)
                },
                None => None,
            }
        }
    }

    /// Removes up to `count` of the oldest records; the rest keep their numbers.
    pub fn prune_transactions(&mut self, count: usize) -> (removed: usize)
        requires
            old(self).wf(),
        ensures
            final(self).wf(),
            removed == if count < old(self)@.log.len() {
                count as int
            } else {
                old(self)@.log.len() as int
            },
            final(self)@ == (StoreView {
                log: old(self)@.log.subrange(removed as int, old(self)@.log.len() as int),
                ..old(self)@
            }),
    {
        let ghost old_log = old(self)@.log;
        let mut removed: usize = 0;
        assert(old_log.subrange(0, old_log.len() as int) =~= old_log);
        while removed < count && !self.is_empty()
            invariant
                self.segments_wf(),
                removed <= count,
                removed <= old_log.len(),
                self@ == (StoreView {
                    log: old_log.subrange(removed as int, old_log.len() as int),
                    ..old(self)@
                }),
            decreases count - removed,
        {
            self.evict_front();
            assert(old_log.subrange(removed as int, old_log.len() as int).drop_first()
                =~= old_log.subrange(removed + 1, old_log.len() as int));
            removed = removed + 1;
        }
        proof {
            let log = self@.log;
            assert forall|i: int| 0 <= i < log.len() implies #[trigger] log[i].transaction_index
                == log[0].transaction_index + i by {
                assert(old_log[removed + i].transaction_index == old_log[0].transaction_index
                    + removed + i);
                assert(old_log[removed as int].transaction_index == old_log[0].transaction_index
                    + removed);
            }
            assert forall|i: int, j: int| 0 <= i < j < log.len() implies #[trigger] log[i].block_height
                < #[trigger] log[j].block_height by {
                assert(old_log[removed + i].block_height < old_log[removed + j].block_height);
            }
            if log.len() > 0 {
                assert(log.last() == old_log.last());
            }
        }
        removed
    }

    /// Counters over the store; `now_nanos` is the current time.
    pub fn get_stats(&self, now_nanos: u64) -> (r: Stats)
        requires
            self.wf(),
        ensures
            r == stats_of(self@, now_nanos),
    {
        let (earliest_ts, earliest_h, latest_ts, latest_h) = if self.is_empty() {
            (0, 0, 0, 0)
        } else {
            let first = self.log_at(0);
            let last = if self.back.len() > 0 {
                &self.back[self.back.len() - 1]
            } else {
                &self.front[self.front.len() - 1]
            };
            proof {
                self.lemma_segments();
            }
            assert(*last == self@.log.last());
            (
                first.timestamp.timestamp_nanos,
                first.block_height,
                last.timestamp.timestamp_nanos,
                last.block_height,
            )
        };
        Stats {
            transactions_count: self.log_len(),
            block_height_synced_up_to: self.block_height_synced_up_to,
            earliest_transaction_timestamp_nanos: earliest_ts,
            earliest_transaction_block_height: earliest_h,
            latest_transaction_timestamp_nanos: latest_ts,
            latest_transaction_block_height: latest_h,
            seconds_since_last_ledger_sync: now_nanos.saturating_sub(
                self.last_ledger_sync_timestamp_nanos,
            ) / NANOS_PER_SECOND,
        }
    }
}

impl AccountsStore {
    /// The snapshot bytes of the whole store: its log, watermark and last sync time.
    pub fn encode_snapshot(&self) -> (r: Vec<u8>)
        requires
            self.wf(),
        ensures
            r@ == encoding(self@.log, self@.synced_up_to, self@.last_sync_nanos),
            self@.log.len() <= usize::MAX,
    {
        encode_parts(&self.records(), self.block_height_synced_up_to, self.last_ledger_sync_timestamp_nanos)
    }

    /// Restores a store from snapshot bytes; fails exactly where they are not a
    /// well-formed snapshot.
    pub fn decode_snapshot(bytes: &Vec<u8>) -> (r: Result<AccountsStore, DecodeError>)
        ensures
            match r {
                Ok(s) => s.wf() && decoding(bytes@) == Some(
                    (s@.log, s@.synced_up_to, s@.last_sync_nanos),
                ),
                Err(e) => e == DecodeError::Malformed && decoding(bytes@) is None,
            },
    {
        match decode_parts(bytes) {
            Ok((transactions, block_height_synced_up_to, last_ledger_sync_timestamp_nanos)) => {
                let s = AccountsStore {
                    front: transactions,
                    head: 0,
                    back: Vec::new(),
                    block_height_synced_up_to,
                    last_ledger_sync_timestamp_nanos,
                };
                assert(s@.log =~= transactions@);
                Ok(s)
            },
            Err(e) => Err(e),
        }
    }
}

impl Default for AccountsStore {
    fn default() -> (r: AccountsStore)
        ensures
            r@ == empty_view(),
            r.wf(),
    {
        AccountsStore::new()
    }
}

pub const NANOS_PER_SECOND: u64 = 1_000_000_000;

/// Whole seconds from `last_sync_nanos` to `now_nanos`, or zero if the clock is behind it.
pub open spec fn seconds_since(last_sync_nanos: u64, now_nanos: u64) -> u64 {
    if now_nanos >= last_sync_nanos {
        ((now_nanos - last_sync_nanos) / NANOS_PER_SECOND as int) as u64
    } else {
        0
    }
}

/// The length of `log`, saturated at `u64::MAX`.
pub open spec fn saturated_len(log: Seq<Transaction>) -> u64 {
    if log.len() > u64::MAX {
        u64::MAX
    } else {
        log.len() as u64
    }
}

pub open spec fn stats_of(v: StoreView, now_nanos: u64) -> Stats {
    let n = v.log.len();
    Stats {
        transactions_count: saturated_len(v.log),
        block_height_synced_up_to: v.synced_up_to,
        earliest_transaction_timestamp_nanos: if n == 0 {
            0
        } else {
            v.log[0].timestamp.timestamp_nanos
        },
        earliest_transaction_block_height: if n == 0 {
            0
        } else {
            v.log[0].block_height
        },
        latest_transaction_timestamp_nanos: if n == 0 {
            0
        } else {
            v.log.last().timestamp.timestamp_nanos
        },
        latest_transaction_block_height: if n == 0 {
            0
        } else {
            v.log.last().block_height
        },
        seconds_since_last_ledger_sync: seconds_since(v.last_sync_nanos, now_nanos),
    }
}

/// One metric to expose: its name, value and help text.
pub struct Gauge {
    pub name: &'static str,
    pub value: u64,
    pub help: &'static str,
}

/// The gauges exposed for `stats`: the record count and the seconds since the last sync.
pub fn encode_metrics(stats: &Stats) -> (r: Vec<Gauge>)
    ensures
        r@.len() == 2,
        r@[0].name@ == "transactions_count"@,
        r@[0].value == stats.transactions_count,
        r@[0].help@ == "Number of transactions processed by the canister."@,
        r@[1].name@ == "seconds_since_last_ledger_sync"@,
        r@[1].value == stats.seconds_since_last_ledger_sync,
        r@[1].help@ == "Number of seconds since last ledger sync."@,
{
    let mut r: Vec<Gauge> = Vec::new();
    r.push(
        Gauge {
            name: "transactions_count",
            value: stats.transactions_count,
            help: "Number of transactions processed by the canister.",
        },
    );
    r.push(
        Gauge {
            name: "seconds_since_last_ledger_sync",
            value: stats.seconds_since_last_ledger_sync,
            help: "Number of seconds since last ledger sync.",
        },
    );
    proof {
        reveal_strlit("transactions_count");
        reveal_strlit("seconds_since_last_ledger_sync");
        reveal_strlit("Number of transactions processed by the canister.");
        reveal_strlit("Number of seconds since last ledger sync.");
    }
    r
}

} // verus!
