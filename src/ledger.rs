use vstd::prelude::*;

verus! {

/// An amount of tokens, in units of 10^-8.
#[derive(Clone, Copy, Debug, PartialEq, Eq, Structural)]
pub struct Tokens {
    pub e8s: u64,
}

/// An address on the remote ledger, held as the key under which this mirror tracks it.
#[derive(Clone, Copy, Debug, PartialEq, Eq, Structural)]
pub struct AccountIdentifier {
    pub id: u64,
}

/// An opaque correlation tag supplied with a transfer.
#[derive(Clone, Copy, Debug, PartialEq, Eq, Structural)]
pub struct Memo(pub u64);

/// Nanoseconds since the Unix epoch.
#[derive(Clone, Copy, Debug, PartialEq, Eq, Structural)]
pub struct TimeStamp {
    pub timestamp_nanos: u64,
}

/// The three shapes of transfer that the remote ledger produces.
#[derive(Clone, Copy, Debug, PartialEq, Eq, Structural)]
pub enum Transfer {
    Burn { from: AccountIdentifier, amount: Tokens },
    Mint { to: AccountIdentifier, amount: Tokens },
    Send { from: AccountIdentifier, to: AccountIdentifier, amount: Tokens, fee: Tokens },
}

/// A transfer as seen from one of the accounts it touches.
#[derive(Clone, Copy, Debug, PartialEq, Eq, Structural)]
pub enum TransferResult {
    Burn { amount: Tokens },
    Mint { amount: Tokens },
    Send { to: AccountIdentifier, amount: Tokens, fee: Tokens },
    Receive { from: AccountIdentifier, amount: Tokens, fee: Tokens },
}

} // verus!
