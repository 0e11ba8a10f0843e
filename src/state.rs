use crate::accounts_store::{empty_view, AccountsStore};
use crate::codec::{decoding, encoding, lemma_round_trip, DecodeError};
use vstd::prelude::*;

verus! {

/// State that is written out before a restart and read back after it.
pub trait StableState: Sized {
    /// The invariant of the state, which decoding establishes and encoding relies on.
    spec fn stable_wf(&self) -> bool;

    fn encode(&self) -> Vec<u8>
        requires
            self.stable_wf(),
    ;

    fn decode(bytes: Vec<u8>) -> (r: Result<Self, DecodeError>)
        ensures
            r matches Ok(s) ==> s.stable_wf(),
    ;
}

impl StableState for AccountsStore {
    open spec fn stable_wf(&self) -> bool {
        self.wf()
    }

    fn encode(&self) -> (r: Vec<u8>)
        ensures
            r@ == encoding(self@.log, self@.synced_up_to, self@.last_sync_nanos),
            self@.log.len() <= usize::MAX,
    {
        self.encode_snapshot()
    }

    fn decode(bytes: Vec<u8>) -> (r: Result<AccountsStore, DecodeError>)
        ensures
            match r {
                Ok(s) => decoding(bytes@) == Some((s@.log, s@.synced_up_to, s@.last_sync_nanos)),
                Err(e) => e == DecodeError::Malformed && decoding(bytes@) is None,
            },
    {
        AccountsStore::decode_snapshot(&bytes)
    }
}

/// Decoding the snapshot of a well-formed store gives back a store with the same log,
/// watermark and last sync time, so every lookup and every stats reading agrees; this
/// holds of the empty store too. `encode` ensures the bound on the log's length.
pub proof fn lemma_store_round_trip(s: AccountsStore)
    requires
        s.wf(),
        s@.log.len() <= usize::MAX,
    ensures
        decoding(encoding(s@.log, s@.synced_up_to, s@.last_sync_nanos)) == Some(
            (s@.log, s@.synced_up_to, s@.last_sync_nanos),
        ),
{
    lemma_round_trip(s@.log, s@.synced_up_to, s@.last_sync_nanos);
}

/// Everything the process keeps across restarts.
pub struct State {
    pub accounts_store: AccountsStore,
}

impl State {
    pub open spec fn wf(&self) -> bool {
        self.accounts_store.wf()
    }

    /// Adopts the store of `new_state`, as a restore does.
    pub fn replace(&mut self, new_state: State)
        requires
            new_state.wf(),
        ensures
            final(self).wf(),
            final(self).accounts_store@ == new_state.accounts_store@,
    {
        self.accounts_store = new_state.accounts_store;
    }
}

impl Default for State {
    fn default() -> (r: State)
        ensures
            r.accounts_store@ == empty_view(),
            r.wf(),
    {
        State { accounts_store: AccountsStore::new() }
    }
}

impl StableState for State {
    open spec fn stable_wf(&self) -> bool {
        self.wf()
    }

    fn encode(&self) -> (r: Vec<u8>)
        ensures
            r@ == encoding(
                self.accounts_store@.log,
                self.accounts_store@.synced_up_to,
                self.accounts_store@.last_sync_nanos,
            ),
            self.accounts_store@.log.len() <= usize::MAX,
    {
        self.accounts_store.encode_snapshot()
    }

    fn decode(bytes: Vec<u8>) -> (r: Result<State, DecodeError>)
        ensures
            match r {
                Ok(s) => decoding(bytes@) == Some(
                    (s.accounts_store@.log, s.accounts_store@.synced_up_to, s.accounts_store@.last_sync_nanos),
                ),
                Err(e) => e == DecodeError::Malformed && decoding(bytes@) is None,
            },
    {
        match AccountsStore::decode_snapshot(&bytes) {
            Ok(accounts_store) => Ok(State { accounts_store }),
            Err(e) => Err(e),
        }
    }
}

} // verus!
