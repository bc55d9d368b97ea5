//! The coins of a swap.
use vstd::prelude::*;
use crate::bytes::{duplicate_option, option_view, Duplicate, ScriptBuf};
use crate::primitives::{
    ProtocolVersion, PublicKey, SecretKey, Transaction, TransactionView,
};

verus! {

/// A coin that the wallet receives in a swap.
#[derive(Debug, PartialEq, Eq)]
pub struct IncomingSwapCoin {
    /// The swap that the coin belongs to.
    pub swap_id: Option<String>,
    /// The swap protocol.
    pub protocol: ProtocolVersion,
    /// The wallet's private key.
    pub my_privkey: Option<SecretKey>,
    /// The wallet's public key.
    pub my_pubkey: Option<PublicKey>,
    /// The other party's public key.
    pub other_pubkey: Option<PublicKey>,
    /// The other party's private key, once it was handed over.
    pub other_privkey: Option<SecretKey>,
    /// The contract transaction.
    pub contract_tx: Transaction,
    /// The output of it that holds the contract.
    pub contract_vout: u32,
    /// The redeem script of the contract.
    pub contract_redeemscript: Option<ScriptBuf>,
    /// The preimage of the hashlock, once it is known.
    pub hash_preimage: Option<Vec<u8>>,
    /// The value of the funding output, in satoshis.
    pub funding_amount: u64,
    /// The other party's signature on the contract transaction.
    pub others_contract_sig: Option<Vec<u8>>,
}

/// A coin that the wallet receives in a swap, as a mathematical value.
pub struct IncomingView {
    pub swap_id: Option<Seq<char>>,
    pub protocol: ProtocolVersion,
    pub my_privkey: Option<Seq<u8>>,
    pub my_pubkey: Option<Seq<u8>>,
    pub other_pubkey: Option<Seq<u8>>,
    pub other_privkey: Option<Seq<u8>>,
    pub contract_tx: TransactionView,
    pub contract_vout: u32,
    pub contract_redeemscript: Option<Seq<u8>>,
    pub hash_preimage: Option<Seq<u8>>,
    pub funding_amount: u64,
    pub others_contract_sig: Option<Seq<u8>>,
}

impl View for IncomingSwapCoin {
    type V = IncomingView;

    open spec fn view(&self) -> IncomingView {
        IncomingView {
            swap_id: option_view(self.swap_id),
            protocol: self.protocol,
            my_privkey: option_view(self.my_privkey),
            my_pubkey: option_view(self.my_pubkey),
            other_pubkey: option_view(self.other_pubkey),
            other_privkey: option_view(self.other_privkey),
            contract_tx: self.contract_tx@,
            contract_vout: self.contract_vout,
            contract_redeemscript: option_view(self.contract_redeemscript),
            hash_preimage: option_view(self.hash_preimage),
            funding_amount: self.funding_amount,
            others_contract_sig: option_view(self.others_contract_sig),
        }
    }
}

impl Duplicate for IncomingSwapCoin {
    fn duplicate(&self) -> (copy: Self) {
        IncomingSwapCoin {
            swap_id: duplicate_option(&self.swap_id),
            protocol: self.protocol,
            my_privkey: duplicate_option(&self.my_privkey),
            my_pubkey: duplicate_option(&self.my_pubkey),
            other_pubkey: duplicate_option(&self.other_pubkey),
            other_privkey: duplicate_option(&self.other_privkey),
            contract_tx: self.contract_tx.duplicate(),
            contract_vout: self.contract_vout,
            contract_redeemscript: duplicate_option(&self.contract_redeemscript),
            hash_preimage: duplicate_option(&self.hash_preimage),
            funding_amount: self.funding_amount,
            others_contract_sig: duplicate_option(&self.others_contract_sig),
        }
    }
}

/// A coin that the wallet sends in a swap.
#[derive(Debug, PartialEq, Eq)]
pub struct OutgoingSwapCoin {
    /// The swap that the coin belongs to.
    pub swap_id: Option<String>,
    /// The swap protocol.
    pub protocol: ProtocolVersion,
    /// The wallet's private key.
    pub my_privkey: Option<SecretKey>,
    /// The wallet's public key.
    pub my_pubkey: Option<PublicKey>,
    /// The other party's public key.
    pub other_pubkey: Option<PublicKey>,
    /// The timelock of the contract: a number of blocks for the legacy protocol, a height for Taproot.
    pub timelock: Option<u32>,
    /// The contract transaction.
    pub contract_tx: Transaction,
    /// The output of it that holds the contract.
    pub contract_vout: u32,
    /// The redeem script of the contract.
    pub contract_redeemscript: Option<ScriptBuf>,
    /// The preimage of the hashlock, once it is known.
    pub hash_preimage: Option<Vec<u8>>,
    /// The value of the funding output, in satoshis.
    pub funding_amount: u64,
    /// The other party's signature on the contract transaction.
    pub others_contract_sig: Option<Vec<u8>>,
}

/// A coin that the wallet sends in a swap, as a mathematical value.
pub struct OutgoingView {
    pub swap_id: Option<Seq<char>>,
    pub protocol: ProtocolVersion,
    pub my_privkey: Option<Seq<u8>>,
    pub my_pubkey: Option<Seq<u8>>,
    pub other_pubkey: Option<Seq<u8>>,
    pub timelock: Option<u32>,
    pub contract_tx: TransactionView,
    pub contract_vout: u32,
    pub contract_redeemscript: Option<Seq<u8>>,
    pub hash_preimage: Option<Seq<u8>>,
    pub funding_amount: u64,
    pub others_contract_sig: Option<Seq<u8>>,
}

impl View for OutgoingSwapCoin {
    type V = OutgoingView;

    open spec fn view(&self) -> OutgoingView {
        OutgoingView {
            swap_id: option_view(self.swap_id),
            protocol: self.protocol,
            my_privkey: option_view(self.my_privkey),
            my_pubkey: option_view(self.my_pubkey),
            other_pubkey: option_view(self.other_pubkey),
            timelock: self.timelock,
            contract_tx: self.contract_tx@,
            contract_vout: self.contract_vout,
            contract_redeemscript: option_view(self.contract_redeemscript),
            hash_preimage: option_view(self.hash_preimage),
            funding_amount: self.funding_amount,
            others_contract_sig: option_view(self.others_contract_sig),
        }
    }
}

impl Duplicate for OutgoingSwapCoin {
    fn duplicate(&self) -> (copy: Self) {
        OutgoingSwapCoin {
            swap_id: duplicate_option(&self.swap_id),
            protocol: self.protocol,
            my_privkey: duplicate_option(&self.my_privkey),
            my_pubkey: duplicate_option(&self.my_pubkey),
            other_pubkey: duplicate_option(&self.other_pubkey),
            timelock: self.timelock,
            contract_tx: self.contract_tx.duplicate(),
            contract_vout: self.contract_vout,
            contract_redeemscript: duplicate_option(&self.contract_redeemscript),
            hash_preimage: duplicate_option(&self.hash_preimage),
            funding_amount: self.funding_amount,
            others_contract_sig: duplicate_option(&self.others_contract_sig),
        }
    }
}

/// A coin of a swap that the wallet only watches.
#[derive(Debug, PartialEq, Eq)]
pub struct WatchOnlySwapCoin {
    /// The swap protocol.
    pub protocol: ProtocolVersion,
    /// The contract transaction.
    pub contract_tx: Transaction,
    /// The value of the funding output, in satoshis.
    pub funding_amount: u64,
}

impl IncomingSwapCoin {
    /// The output of the contract transaction that holds the contract.
    pub fn get_contract_output_vout(&self) -> (vout: u32)
        ensures
            vout == self.contract_vout,
    {
        self.contract_vout
    }

    /// Whether the preimage of the hashlock is known.
    pub fn is_preimage_known(&self) -> (known: bool)
        ensures
            known == (self.hash_preimage is Some),
    {
        self.hash_preimage.is_some()
    }
}

impl OutgoingSwapCoin {
    /// The output of the contract transaction that holds the contract.
    pub fn get_contract_output_vout(&self) -> (vout: u32)
        ensures
            vout == self.contract_vout,
    {
        self.contract_vout
    }

    /// The timelock of the contract.
    pub fn get_timelock(&self) -> (timelock: Option<u32>)
        ensures
            timelock == self.timelock,
    {
        self.timelock
    }
}

/// A copy of a received coin has all that the coin has: coins with the same view agree in each of their fields.
pub proof fn law_received_coin_is_told_by_its_view(a: IncomingSwapCoin, b: IncomingSwapCoin)
    requires
        a@ == b@,
    ensures
        a.protocol == b.protocol,
        a.contract_vout == b.contract_vout,
        a.funding_amount == b.funding_amount,
        a.contract_tx@ == b.contract_tx@,
        option_view(a.swap_id) == option_view(b.swap_id),
        option_view(a.my_privkey) == option_view(b.my_privkey),
        option_view(a.my_pubkey) == option_view(b.my_pubkey),
        option_view(a.other_privkey) == option_view(b.other_privkey),
        option_view(a.other_pubkey) == option_view(b.other_pubkey),
        option_view(a.contract_redeemscript) == option_view(b.contract_redeemscript),
        option_view(a.hash_preimage) == option_view(b.hash_preimage),
        option_view(a.others_contract_sig) == option_view(b.others_contract_sig),
        a@.funding_amount == a.funding_amount,
        a@.contract_vout == a.contract_vout,
        a@.protocol == a.protocol,
{
}

/// A copy of a sent coin has all that the coin has: coins with the same view agree in each of their fields.
pub proof fn law_sent_coin_is_told_by_its_view(a: OutgoingSwapCoin, b: OutgoingSwapCoin)
    requires
        a@ == b@,
    ensures
        a.protocol == b.protocol,
        a.timelock == b.timelock,
        a.contract_vout == b.contract_vout,
        a.funding_amount == b.funding_amount,
        a.contract_tx@ == b.contract_tx@,
        option_view(a.swap_id) == option_view(b.swap_id),
        option_view(a.my_privkey) == option_view(b.my_privkey),
        option_view(a.my_pubkey) == option_view(b.my_pubkey),
        option_view(a.other_pubkey) == option_view(b.other_pubkey),
        option_view(a.contract_redeemscript) == option_view(b.contract_redeemscript),
        option_view(a.hash_preimage) == option_view(b.hash_preimage),
        option_view(a.others_contract_sig) == option_view(b.others_contract_sig),
        a@.timelock == a.timelock,
        a@.contract_vout == a.contract_vout,
        a@.protocol == a.protocol,
{
}

} // verus!
