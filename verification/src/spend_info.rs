//! Unspent outputs, and what the wallet knows about spending them.
use vstd::prelude::*;
use crate::bytes::{duplicate_option, option_view, ScriptBuf};
use crate::primitives::{AddressType, OutPoint, Txid};

verus! {

/// One unspent output, as a backend lists it.
#[derive(Debug, PartialEq, Eq)]
pub struct ListUnspentResultEntry {
    /// The transaction that holds the output.
    pub txid: Txid,
    /// The output's position in it.
    pub vout: u32,
    /// The address of the output, where the backend knows it.
    pub address: Option<String>,
    /// The label that the backend keeps for the address.
    pub label: Option<String>,
    /// The redeem script, where the backend knows it.
    pub redeem_script: Option<ScriptBuf>,
    /// The witness script, where the backend knows it.
    pub witness_script: Option<ScriptBuf>,
    /// The script that locks the output.
    pub script_pub_key: ScriptBuf,
    /// The value in satoshis.
    pub amount: u64,
    /// The number of confirmations.
    pub confirmations: u32,
    /// Whether the backend holds the output to be spendable.
    pub spendable: bool,
    /// Whether the backend knows how to spend the output.
    pub solvable: bool,
    /// The descriptor that the output belongs to, where the backend knows it.
    pub descriptor: Option<String>,
    /// Whether the backend holds the output to be safe to spend.
    pub safe: bool,
}

/// An unspent output as a mathematical value.
pub struct UtxoView {
    pub txid: Txid,
    pub vout: u32,
    pub address: Option<Seq<char>>,
    pub label: Option<Seq<char>>,
    pub redeem_script: Option<Seq<u8>>,
    pub witness_script: Option<Seq<u8>>,
    pub script_pub_key: Seq<u8>,
    pub amount: u64,
    pub confirmations: u32,
    pub spendable: bool,
    pub solvable: bool,
    pub descriptor: Option<Seq<char>>,
    pub safe: bool,
}

impl UtxoView {
    /// The outpoint of the output.
    pub open spec fn outpoint(self) -> OutPoint {
        OutPoint { txid: self.txid, vout: self.vout }
    }
}

impl View for ListUnspentResultEntry {
    type V = UtxoView;

    open spec fn view(&self) -> UtxoView {
        UtxoView {
            txid: self.txid,
            vout: self.vout,
            address: option_view(self.address),
            label: option_view(self.label),
            redeem_script: option_view(self.redeem_script),
            witness_script: option_view(self.witness_script),
            script_pub_key: self.script_pub_key@,
            amount: self.amount,
            confirmations: self.confirmations,
            spendable: self.spendable,
            solvable: self.solvable,
            descriptor: option_view(self.descriptor),
            safe: self.safe,
        }
    }
}

impl Clone for ListUnspentResultEntry {
    fn clone(&self) -> (copy: Self)
        ensures
            copy@ == self@,
    {
        ListUnspentResultEntry {
            txid: self.txid,
            vout: self.vout,
            address: duplicate_option(&self.address),
            label: duplicate_option(&self.label),
            redeem_script: duplicate_option(&self.redeem_script),
            witness_script: duplicate_option(&self.witness_script),
            script_pub_key: self.script_pub_key.clone(),
            amount: self.amount,
            confirmations: self.confirmations,
            spendable: self.spendable,
            solvable: self.solvable,
            descriptor: duplicate_option(&self.descriptor),
            safe: self.safe,
        }
    }
}

impl ListUnspentResultEntry {
    /// The outpoint of the output.
    pub fn outpoint(&self) -> (outpoint: OutPoint)
        ensures
            outpoint == self@.outpoint(),
    {
        OutPoint { txid: self.txid, vout: self.vout }
    }
}

/// What the wallet needs, beyond the output itself, to spend it.
#[derive(Debug, PartialEq, Eq)]
pub enum UTXOSpendInfo {
    /// A regular coin, below the wallet's seed.
    SeedCoin {
        /// The derivation path of its key below the account key.
        path: String,
        /// Its value in satoshis.
        input_value: u64,
        /// Its address type.
        address_type: AddressType,
    },
    /// A coin that was received in a swap.
    IncomingSwapCoin {
        /// The two-of-two redeem script.
        multisig_redeemscript: ScriptBuf,
    },
    /// A coin that was sent in a swap.
    OutgoingSwapCoin {
        /// The two-of-two redeem script.
        multisig_redeemscript: ScriptBuf,
    },
    /// A contract output that its timelock opens.
    TimelockContract {
        /// The redeem script of the swap coin.
        swapcoin_multisig_redeemscript: ScriptBuf,
        /// Its value in satoshis.
        input_value: u64,
    },
    /// A contract output that the hash preimage opens.
    HashlockContract {
        /// The redeem script of the swap coin.
        swapcoin_multisig_redeemscript: ScriptBuf,
        /// Its value in satoshis.
        input_value: u64,
    },
    /// A fidelity bond.
    FidelityBondCoin {
        /// The position of the bond in the wallet's list.
        index: u32,
        /// Its value in satoshis.
        input_value: u64,
    },
    /// A coin that was received in a swap and swept to an address of the wallet.
    SweptCoin {
        /// The derivation path of its key below the account key.
        path: String,
        /// Its value in satoshis.
        input_value: u64,
        /// Its address type.
        address_type: AddressType,
    },
}

/// Spend information as a mathematical value.
pub enum SpendInfoView {
    SeedCoin { path: Seq<char>, input_value: u64, address_type: AddressType },
    IncomingSwapCoin { multisig_redeemscript: Seq<u8> },
    OutgoingSwapCoin { multisig_redeemscript: Seq<u8> },
    TimelockContract { swapcoin_multisig_redeemscript: Seq<u8>, input_value: u64 },
    HashlockContract { swapcoin_multisig_redeemscript: Seq<u8>, input_value: u64 },
    FidelityBondCoin { index: u32, input_value: u64 },
    SweptCoin { path: Seq<char>, input_value: u64, address_type: AddressType },
}

impl View for UTXOSpendInfo {
    type V = SpendInfoView;

    open spec fn view(&self) -> SpendInfoView {
        match self {
            UTXOSpendInfo::SeedCoin { path, input_value, address_type } => SpendInfoView::SeedCoin {
                path: path@,
                input_value: *input_value,
                address_type: *address_type,
            },
            UTXOSpendInfo::IncomingSwapCoin {
                multisig_redeemscript,
            } => SpendInfoView::IncomingSwapCoin {
                multisig_redeemscript: multisig_redeemscript@,
            },
            UTXOSpendInfo::OutgoingSwapCoin {
                multisig_redeemscript,
            } => SpendInfoView::OutgoingSwapCoin {
                multisig_redeemscript: multisig_redeemscript@,
            },
            UTXOSpendInfo::TimelockContract {
                swapcoin_multisig_redeemscript,
                input_value,
            } => SpendInfoView::TimelockContract {
                swapcoin_multisig_redeemscript: swapcoin_multisig_redeemscript@,
                input_value: *input_value,
            },
            UTXOSpendInfo::HashlockContract {
                swapcoin_multisig_redeemscript,
                input_value,
            } => SpendInfoView::HashlockContract {
                swapcoin_multisig_redeemscript: swapcoin_multisig_redeemscript@,
                input_value: *input_value,
            },
            UTXOSpendInfo::FidelityBondCoin {
                index,
                input_value,
            } => SpendInfoView::FidelityBondCoin { index: *index, input_value: *input_value },
            UTXOSpendInfo::SweptCoin {
                path,
                input_value,
                address_type,
            } => SpendInfoView::SweptCoin {
                path: path@,
                input_value: *input_value,
                address_type: *address_type,
            },
        }
    }
}

impl Clone for UTXOSpendInfo {
    fn clone(&self) -> (copy: Self)
        ensures
            copy@ == self@,
    {
        match self {
            UTXOSpendInfo::SeedCoin { path, input_value, address_type } => UTXOSpendInfo::SeedCoin {
                path: path.clone(),
                input_value: *input_value,
                address_type: *address_type,
            },
            UTXOSpendInfo::IncomingSwapCoin {
                multisig_redeemscript,
            } => UTXOSpendInfo::IncomingSwapCoin {
                multisig_redeemscript: multisig_redeemscript.clone(),
            },
            UTXOSpendInfo::OutgoingSwapCoin {
                multisig_redeemscript,
            } => UTXOSpendInfo::OutgoingSwapCoin {
                multisig_redeemscript: multisig_redeemscript.clone(),
            },
            UTXOSpendInfo::TimelockContract {
                swapcoin_multisig_redeemscript,
                input_value,
            } => UTXOSpendInfo::TimelockContract {
                swapcoin_multisig_redeemscript: swapcoin_multisig_redeemscript.clone(),
                input_value: *input_value,
            },
            UTXOSpendInfo::HashlockContract {
                swapcoin_multisig_redeemscript,
                input_value,
            } => UTXOSpendInfo::HashlockContract {
                swapcoin_multisig_redeemscript: swapcoin_multisig_redeemscript.clone(),
                input_value: *input_value,
            },
            UTXOSpendInfo::FidelityBondCoin {
                index,
                input_value,
            } => UTXOSpendInfo::FidelityBondCoin { index: *index, input_value: *input_value },
            UTXOSpendInfo::SweptCoin {
                path,
                input_value,
                address_type,
            } => UTXOSpendInfo::SweptCoin {
                path: path.clone(),
                input_value: *input_value,
                address_type: *address_type,
            },
        }
    }
}

/// The witness of a P2WPKH input: a signature and a public key.
pub const P2WPKH_WITNESS_SIZE: usize = 107;

/// The witness of a P2TR key-path input: a Schnorr signature.
pub const P2TR_WITNESS_SIZE: usize = 65;

/// The witness of a two-of-two multisig input.
pub const P2WSH_MULTISIG_2OF2_WITNESS_SIZE: usize = 218;

/// The witness of a fidelity bond.
pub const FIDELITY_BOND_WITNESS_SIZE: usize = 115;

/// The witness of a timelock contract.
pub const TIME_LOCK_CONTRACT_TX_WITNESS_SIZE: usize = 179;

/// The witness of a hashlock contract.
pub const HASH_LOCK_CONTRACT_TX_WITNESS_SIZE: usize = 211;

impl SpendInfoView {
    /// The estimated size of the witness that spends such a coin.
    pub open spec fn witness_size(self) -> usize {
        match self {
            SpendInfoView::SeedCoin { address_type, .. }
            | SpendInfoView::SweptCoin { address_type, .. } => match address_type {
                AddressType::P2WPKH => P2WPKH_WITNESS_SIZE,
                AddressType::P2TR => P2TR_WITNESS_SIZE,
            },
            SpendInfoView::IncomingSwapCoin { .. }
            | SpendInfoView::OutgoingSwapCoin { .. } => P2WSH_MULTISIG_2OF2_WITNESS_SIZE,
            SpendInfoView::TimelockContract { .. } => TIME_LOCK_CONTRACT_TX_WITNESS_SIZE,
            SpendInfoView::HashlockContract { .. } => HASH_LOCK_CONTRACT_TX_WITNESS_SIZE,
            SpendInfoView::FidelityBondCoin { .. } => FIDELITY_BOND_WITNESS_SIZE,
        }
    }

    /// The name of the coin's category.
    pub open spec fn category(self) -> Seq<char> {
        match self {
            SpendInfoView::SeedCoin { .. } => "regular"@,
            SpendInfoView::SweptCoin { .. } => "swept-incoming-swap"@,
            SpendInfoView::FidelityBondCoin { .. } => "fidelity-bond"@,
            SpendInfoView::HashlockContract { .. } => "hashlock-contract"@,
            SpendInfoView::TimelockContract { .. } => "timelock-contract"@,
            SpendInfoView::IncomingSwapCoin { .. } => "incoming-swap"@,
            SpendInfoView::OutgoingSwapCoin { .. } => "outgoing-swap"@,
        }
    }
}

impl UTXOSpendInfo {
    /// Estimates the size of the witness that spends such a coin.
    pub fn estimate_witness_size(&self) -> (size: usize)
        ensures
            size == self@.witness_size(),
    {
        match self {
            UTXOSpendInfo::SeedCoin { address_type, .. }
            | UTXOSpendInfo::SweptCoin { address_type, .. } => match address_type {
                AddressType::P2WPKH => P2WPKH_WITNESS_SIZE,
                AddressType::P2TR => P2TR_WITNESS_SIZE,
            },
            UTXOSpendInfo::IncomingSwapCoin { .. }
            | UTXOSpendInfo::OutgoingSwapCoin { .. } => P2WSH_MULTISIG_2OF2_WITNESS_SIZE,
            UTXOSpendInfo::TimelockContract { .. } => TIME_LOCK_CONTRACT_TX_WITNESS_SIZE,
            UTXOSpendInfo::HashlockContract { .. } => HASH_LOCK_CONTRACT_TX_WITNESS_SIZE,
            UTXOSpendInfo::FidelityBondCoin { .. } => FIDELITY_BOND_WITNESS_SIZE,
        }
    }

    /// The name of the coin's category, for people.
    pub fn to_string(&self) -> (name: String)
        ensures
            name@ == self@.category(),
    {
        match self {
            UTXOSpendInfo::SeedCoin { .. } => "regular".to_owned(),
            UTXOSpendInfo::SweptCoin { .. } => "swept-incoming-swap".to_owned(),
            UTXOSpendInfo::FidelityBondCoin { .. } => "fidelity-bond".to_owned(),
            UTXOSpendInfo::HashlockContract { .. } => "hashlock-contract".to_owned(),
            UTXOSpendInfo::TimelockContract { .. } => "timelock-contract".to_owned(),
            UTXOSpendInfo::IncomingSwapCoin { .. } => "incoming-swap".to_owned(),
            UTXOSpendInfo::OutgoingSwapCoin { .. } => "outgoing-swap".to_owned(),
        }
    }
}

/// An unspent output with its spend information.
pub type Coin = (ListUnspentResultEntry, UTXOSpendInfo);

/// A coin as a mathematical value.
pub type CoinView = (UtxoView, SpendInfoView);

/// Clones a coin.
pub fn copy_coin(coin: &Coin) -> (copy: Coin)
    ensures
        copy.0@ == coin.0@,
        copy.1@ == coin.1@,
        copy@ == coin@,
{
    (coin.0.clone(), coin.1.clone())
}

/// The sum of the values of a sequence of coins.
pub open spec fn total_amount(coins: Seq<CoinView>) -> nat
    decreases coins.len(),
{
    if coins.len() == 0 {
        0
    } else {
        total_amount(coins.drop_last()) + coins.last().0.amount as nat
    }
}

/// What a sweep or a recovery achieved, contract by contract.
#[derive(Debug)]
pub struct RecoveryOutcome {
    /// Each contract that was spent, with the transaction that spent it.
    pub resolved: Vec<(Txid, Txid)>,
    /// Each contract that was given up: already spent, or never broadcast.
    pub discarded: Vec<Txid>,
}

impl Default for RecoveryOutcome {
    fn default() -> (outcome: Self)
        ensures
            outcome.resolved@.len() == 0,
            outcome.discarded@.len() == 0,
    {
        RecoveryOutcome { resolved: Vec::new(), discarded: Vec::new() }
    }
}

impl RecoveryOutcome {
    /// Whether no contract was resolved or discarded.
    pub fn is_empty(&self) -> (empty: bool)
        ensures
            empty == (self.resolved@.len() == 0 && self.discarded@.len() == 0),
    {
        self.resolved.is_empty() && self.discarded.is_empty()
    }

    /// The number of contracts that were resolved or discarded.
    pub fn len(&self) -> (count: usize)
        requires
            self.resolved@.len() + self.discarded@.len() <= usize::MAX,
        ensures
            count == self.resolved@.len() + self.discarded@.len(),
    {
        self.resolved.len() + self.discarded.len()
    }
}

/// The wallet's balances, by category, in satoshis.
#[derive(Debug, Clone, Copy, PartialEq, Eq, Structural)]
pub struct Balances {
    /// All single-signature regular coins.
    pub regular: u64,
    /// All two-of-two coins received in swaps.
    pub swap: u64,
    /// All coins locked in live contracts, behind their timelock.
    pub contract: u64,
    /// All coins locked in fidelity bonds.
    pub fidelity: u64,
    /// The spendable amount: the regular and the swap balance.
    pub spendable: u64,
}

/// The witness of a coin is sized by how it is spent: with a signature and a key, or a Schnorr signature alone, for
/// a coin of the seed, swept or not; with two signatures for a two-of-two coin; and through its script for a
/// contract and a bond.
pub proof fn law_witness_is_sized_by_its_spend(info: SpendInfoView)
    ensures
        (info matches SpendInfoView::SeedCoin { address_type, .. } ==> info.witness_size() == if address_type
            == AddressType::P2TR {
            65
        } else {
            107int
        }),
        (info matches SpendInfoView::SweptCoin { address_type, .. } ==> info.witness_size() == if address_type
            == AddressType::P2TR {
            65
        } else {
            107int
        }),
        info is IncomingSwapCoin || info is OutgoingSwapCoin ==> info.witness_size() == 218,
        info is TimelockContract ==> info.witness_size() == 179,
        info is HashlockContract ==> info.witness_size() == 211,
        info is FidelityBondCoin ==> info.witness_size() == 115,
{
}

/// Each kind of coin has its name, and regular coins share theirs with no other kind.
pub proof fn law_categories_name_the_kind(a: SpendInfoView, b: SpendInfoView)
    requires
        a is SeedCoin,
        !(b is SeedCoin),
    ensures
        a.category() == "regular"@,
        b is SweptCoin ==> b.category() == "swept-incoming-swap"@,
        b is FidelityBondCoin ==> b.category() == "fidelity-bond"@,
        b is HashlockContract ==> b.category() == "hashlock-contract"@,
        b is TimelockContract ==> b.category() == "timelock-contract"@,
        b is IncomingSwapCoin ==> b.category() == "incoming-swap"@,
        b is OutgoingSwapCoin ==> b.category() == "outgoing-swap"@,
        a.category() != b.category(),
{
    reveal_strlit("regular");
    reveal_strlit("swept-incoming-swap");
    reveal_strlit("fidelity-bond");
    reveal_strlit("hashlock-contract");
    reveal_strlit("timelock-contract");
    reveal_strlit("incoming-swap");
    reveal_strlit("outgoing-swap");
    assert(a.category()[0] == 'r');
    assert(b.category()[0] != 'r');
}

/// A coin is spent for what it is worth: what its spend information tells of it is kept by a copy.
pub proof fn law_spend_info_is_told_by_its_view(a: UTXOSpendInfo, b: UTXOSpendInfo)
    requires
        a@ == b@,
    ensures
        a is SeedCoin ==> b is SeedCoin && a->SeedCoin_path@ == b->SeedCoin_path@
            && a->SeedCoin_input_value == b->SeedCoin_input_value && a->SeedCoin_address_type
            == b->SeedCoin_address_type,
        a is SweptCoin ==> b is SweptCoin && a->SweptCoin_path@ == b->SweptCoin_path@
            && a->SweptCoin_input_value == b->SweptCoin_input_value && a->SweptCoin_address_type
            == b->SweptCoin_address_type,
        a is FidelityBondCoin ==> b is FidelityBondCoin && a->index == b->index
            && a->FidelityBondCoin_input_value == b->FidelityBondCoin_input_value,
        a is TimelockContract ==> b is TimelockContract && a->TimelockContract_input_value
            == b->TimelockContract_input_value,
        a is HashlockContract ==> b is HashlockContract && a->HashlockContract_input_value
            == b->HashlockContract_input_value,
        a is IncomingSwapCoin ==> b is IncomingSwapCoin,
        a is OutgoingSwapCoin ==> b is OutgoingSwapCoin,
{
}

} // verus!
