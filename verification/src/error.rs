//! The errors of the wallet.
use vstd::prelude::*;
use crate::primitives::Txid;

verus! {

/// What can go wrong in the wallet.
#[derive(Debug)]
pub enum WalletError {
    /// A failure that is described by its message alone.
    General(String),
    /// The wallet does not hold enough to pay what was asked for.
    InsufficientFund {
        /// What there is, in satoshis.
        available: u64,
        /// What would have been needed, in satoshis.
        required: u64,
    },
    /// A merkle proof does not prove exactly the expected transaction.
    MerkleProofInvalid {
        /// The transaction that the proof should prove.
        expected: Txid,
        /// The transactions that it proves.
        got: Vec<Txid>,
    },
    /// A wait was given up on request.
    Interrupted(String),
    /// A key or an address could not be derived.
    Derivation,
    /// A signature could not be made.
    Signing,
    /// A descriptor holds a character that has no place in one.
    InvalidDescriptor,
    /// The wallet's balances or indices are larger than it can count.
    Overflow,
}

impl WalletError {
    /// The error with the given message.
    pub fn general(message: &str) -> (error: WalletError)
        ensures
            error matches WalletError::General(m) && m@ == message@,
    {
        WalletError::General(message.to_owned())
    }

    /// Whether this is the general error with the given message.
    pub open spec fn is_general(self, message: Seq<char>) -> bool {
        self matches WalletError::General(m) && m@ == message
    }

    /// Whether this is the insufficient-funds error with the given amounts.
    pub open spec fn is_insufficient(self, have: nat, need: nat) -> bool {
        self matches WalletError::InsufficientFund { available, required } && available == have
            && required == need
    }
}

} // verus!
