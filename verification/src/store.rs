//! What the wallet keeps on disk.
use vstd::prelude::*;
use vstd::string::*;
use crate::assoc::AssocMap;
use crate::bytes::{bytes_equal, option_view, views, ScriptBuf};
use crate::decoy::{is_default_cache, DecoyCache};
use crate::keys::{p2wsh_bytes, p2wsh_script, Xpriv};
use crate::primitives::{Network, OutPoint, Txid};
use crate::spend_info::{Coin, CoinView, ListUnspentResultEntry, UTXOSpendInfo};
use crate::swapcoin::{IncomingSwapCoin, OutgoingSwapCoin, WatchOnlySwapCoin};

verus! {

/// A fidelity bond: coins that the wallet has locked for a time.
#[derive(Debug, PartialEq, Eq)]
pub struct FidelityBond {
    /// The output that holds the bond.
    pub outpoint: OutPoint,
    /// Its value in satoshis.
    pub amount: u64,
    /// The height until which it is locked.
    pub lock_time: u32,
    /// Its redeem script.
    pub redeem_script: ScriptBuf,
}

/// A fidelity bond as a mathematical value.
pub struct BondView {
    pub outpoint: OutPoint,
    pub amount: u64,
    pub lock_time: u32,
    pub redeem_script: Seq<u8>,
}

impl View for FidelityBond {
    type V = BondView;

    open spec fn view(&self) -> BondView {
        BondView {
            outpoint: self.outpoint,
            amount: self.amount,
            lock_time: self.lock_time,
            redeem_script: self.redeem_script@,
        }
    }
}

impl BondView {
    /// The script that locks the bond.
    pub open spec fn script(self) -> Seq<u8> {
        p2wsh_bytes(self.redeem_script)
    }
}

impl FidelityBond {
    /// The script that locks the bond.
    pub fn script_pub_key(&self) -> (script: ScriptBuf)
        ensures
            script@ == self@.script(),
    {
        p2wsh_script(&self.redeem_script)
    }

    fn same(&self, other: &Self) -> (same: bool)
        ensures
            same == (self@ == other@),
    {
        self.outpoint == other.outpoint && self.amount == other.amount && self.lock_time
            == other.lock_time && self.redeem_script.same(&other.redeem_script)
    }
}

/// The contents of a wallet file.
#[derive(Debug)]
pub struct WalletStore {
    /// The name of the file.
    pub file_name: String,
    /// The network of the wallet.
    pub network: Network,
    /// The master key.
    pub master_key: Xpriv,
    /// The index of the next receiving address.
    pub external_index: u32,
    /// The largest amount that the wallet can offer in a swap, in satoshis.
    pub offer_maxsize: u64,
    /// The coins that the wallet receives in swaps, by the id of their contract transaction.
    pub incoming_swapcoins: AssocMap<Txid, IncomingSwapCoin>,
    /// The coins that the wallet sends in swaps, by the id of their contract transaction.
    pub outgoing_swapcoins: AssocMap<Txid, OutgoingSwapCoin>,
    /// The coins of swaps that the wallet only watches, by swap.
    pub watchonly_swapcoins: AssocMap<String, Vec<WatchOnlySwapCoin>>,
    /// The contract that was agreed for an output, by the output.
    pub prevout_to_contract_map: AssocMap<OutPoint, ScriptBuf>,
    /// The fidelity bonds.
    pub fidelity_bond: Vec<FidelityBond>,
    /// The height up to which the wallet is synced.
    pub last_synced_height: Option<u64>,
    /// The height at which the wallet was made.
    pub wallet_birthday: Option<u64>,
    /// The coins that the wallet knows, by outpoint.
    pub utxo_cache: AssocMap<OutPoint, Coin>,
    /// The scripts that incoming swap coins were swept to, each once.
    pub swept_incoming_swapcoins: Vec<ScriptBuf>,
    /// The decoys that hide the wallet's scripts.
    pub decoy_cache: DecoyCache,
}

impl WalletStore {
    /// The master key is complete, no map holds a key twice, each cached coin stands under its own outpoint, and the decoys were
    /// derived at unhardened indices.
    pub open spec fn well_formed(&self) -> bool {
        &&& self.master_key@.len() == 78
        &&& self.incoming_swapcoins.well_formed()
        &&& self.outgoing_swapcoins.well_formed()
        &&& self.watchonly_swapcoins.well_formed()
        &&& self.prevout_to_contract_map.well_formed()
        &&& self.utxo_cache.well_formed()
        &&& cache_keys_match(self.utxo_cache)
        &&& decoys_in_range(self.decoy_cache)
    }

    /// A new wallet: no coins, no bonds, nothing synced.
    pub fn new(
        file_name: String,
        network: Network,
        master_key: Xpriv,
        wallet_birthday: Option<u64>,
    ) -> (store: Self)
        requires
            master_key@.len() == 78,
        ensures
            store.well_formed(),
            store.file_name == file_name,
            store.network == network,
            store.master_key == master_key,
            store.wallet_birthday == wallet_birthday,
            store.external_index == 0,
            store.offer_maxsize == 0,
            store.incoming_swapcoins.entries@.len() == 0,
            store.outgoing_swapcoins.entries@.len() == 0,
            store.watchonly_swapcoins.entries@.len() == 0,
            store.prevout_to_contract_map.entries@.len() == 0,
            store.fidelity_bond@.len() == 0,
            store.last_synced_height is None,
            store.utxo_cache.entries@.len() == 0,
            store.swept_incoming_swapcoins@.len() == 0,
            is_default_cache(store.decoy_cache),
    {
        WalletStore {
            file_name,
            network,
            master_key,
            external_index: 0,
            offer_maxsize: 0,
            incoming_swapcoins: AssocMap::new(),
            outgoing_swapcoins: AssocMap::new(),
            watchonly_swapcoins: AssocMap::new(),
            prevout_to_contract_map: AssocMap::new(),
            fidelity_bond: Vec::new(),
            last_synced_height: None,
            wallet_birthday,
            utxo_cache: AssocMap::new(),
            swept_incoming_swapcoins: Vec::new(),
            decoy_cache: DecoyCache::default(),
        }
    }
}

/// Whether each coin of a cache stands under its own outpoint.
pub open spec fn cache_keys_match(cache: AssocMap<OutPoint, Coin>) -> bool {
    forall|i: int|
        0 <= i < cache.entries@.len() ==> (#[trigger] cache.entries@[i]).0
            == cache.entries@[i].1.0@.outpoint()
}

/// Whether every decoy was derived at an unhardened index.
pub open spec fn decoys_in_range(cache: DecoyCache) -> bool {
    forall|i: int|
        0 <= i < cache.entries@.len() ==> (#[trigger] cache.entries@[i]).hd_index < 0x8000_0000
}

/// The coins of a cache, in order.
pub open spec fn cached_coins(cache: AssocMap<OutPoint, Coin>) -> Seq<CoinView> {
    Seq::new(cache.entries@.len(), |i: int| cache.entries@[i].1@)
}

fn same_option_text(a: &Option<String>, b: &Option<String>) -> (same: bool)
    ensures
        same == (option_view(*a) == option_view(*b)),
{
    match (a, b) {
        (Some(x), Some(y)) => *x == *y,
        (None, None) => true,
        _ => false,
    }
}

fn same_option_script(a: &Option<ScriptBuf>, b: &Option<ScriptBuf>) -> (same: bool)
    ensures
        same == (option_view(*a) == option_view(*b)),
{
    match (a, b) {
        (Some(x), Some(y)) => x.same(y),
        (None, None) => true,
        _ => false,
    }
}

fn same_utxo(a: &ListUnspentResultEntry, b: &ListUnspentResultEntry) -> (same: bool)
    ensures
        same == (a@ == b@),
{
    a.txid == b.txid && a.vout == b.vout && same_option_text(&a.address, &b.address)
        && same_option_text(&a.label, &b.label) && same_option_script(
        &a.redeem_script,
        &b.redeem_script,
    ) && same_option_script(&a.witness_script, &b.witness_script) && a.script_pub_key.same(
        &b.script_pub_key,
    ) && a.amount == b.amount && a.confirmations == b.confirmations && a.spendable == b.spendable
        && a.solvable == b.solvable && same_option_text(&a.descriptor, &b.descriptor) && a.safe
        == b.safe
}

fn same_spend_info(a: &UTXOSpendInfo, b: &UTXOSpendInfo) -> (same: bool)
    ensures
        same == (a@ == b@),
{
    match (a, b) {
        (
            UTXOSpendInfo::SeedCoin { path: p, input_value: v, address_type: t },
            UTXOSpendInfo::SeedCoin { path: q, input_value: w, address_type: u },
        ) => *p == *q && *v == *w && *t == *u,
        (
            UTXOSpendInfo::IncomingSwapCoin { multisig_redeemscript: p },
            UTXOSpendInfo::IncomingSwapCoin { multisig_redeemscript: q },
        ) => p.same(q),
        (
            UTXOSpendInfo::OutgoingSwapCoin { multisig_redeemscript: p },
            UTXOSpendInfo::OutgoingSwapCoin { multisig_redeemscript: q },
        ) => p.same(q),
        (
            UTXOSpendInfo::TimelockContract { swapcoin_multisig_redeemscript: p, input_value: v },
            UTXOSpendInfo::TimelockContract { swapcoin_multisig_redeemscript: q, input_value: w },
        ) => p.same(q) && *v == *w,
        (
            UTXOSpendInfo::HashlockContract { swapcoin_multisig_redeemscript: p, input_value: v },
            UTXOSpendInfo::HashlockContract { swapcoin_multisig_redeemscript: q, input_value: w },
        ) => p.same(q) && *v == *w,
        (
            UTXOSpendInfo::FidelityBondCoin { index: i, input_value: v },
            UTXOSpendInfo::FidelityBondCoin { index: j, input_value: w },
        ) => *i == *j && *v == *w,
        (
            UTXOSpendInfo::SweptCoin { path: p, input_value: v, address_type: t },
            UTXOSpendInfo::SweptCoin { path: q, input_value: w, address_type: u },
        ) => *p == *q && *v == *w && *t == *u,
        _ => false,
    }
}

/// Whether every coin of one cache stands in another, under the same outpoint.
pub open spec fn cache_within(a: AssocMap<OutPoint, Coin>, b: AssocMap<OutPoint, Coin>) -> bool {
    forall|k: OutPoint| #[trigger] a.has(k) ==> b.has(k) && a.at(k)@ == b.at(k)@
}

fn cache_is_within(a: &AssocMap<OutPoint, Coin>, b: &AssocMap<OutPoint, Coin>) -> (within: bool)
    requires
        a.well_formed(),
        b.well_formed(),
    ensures
        within == cache_within(*a, *b),
{
    let mut i: usize = 0;
    while i < a.entries.len()
        invariant
            a.well_formed(),
            b.well_formed(),
            i <= a.entries.len(),
            forall|j: int|
                0 <= j < i ==> b.has((#[trigger] a.entries@[j]).0) && a.entries@[j].1@ == b.at(
                    a.entries@[j].0,
                )@,
        decreases a.entries.len() - i,
    {
        let ok = match b.get(&a.entries[i].0) {
            Some(other) => {
                let mine = &a.entries[i].1;
                same_utxo(&mine.0, &other.0) && same_spend_info(&mine.1, &other.1)
            },
            None => false,
        };
        if !ok {
            proof {
                a.lemma_slot(i as int);
            }
            return false;
        }
        i += 1;
    }
    proof {
        assert forall|k: OutPoint| #[trigger] a.has(k) implies b.has(k) && a.at(k)@ == b.at(k)@ by {
            let j = a.slot(k);
            assert(b.has(a.entries@[j].0));
        }
    }
    true
}

/// Whether two wallets are the same wallet in the same state, as far as keys, coins and bonds go:
/// their file names, swap coins and sync heights do not count.
pub open spec fn same_wallet(a: WalletStore, b: WalletStore) -> bool {
    &&& a.network == b.network
    &&& a.master_key@ == b.master_key@
    &&& a.external_index == b.external_index
    &&& a.offer_maxsize == b.offer_maxsize
    &&& views(a.fidelity_bond@) == views(b.fidelity_bond@)
    &&& a.wallet_birthday == b.wallet_birthday
    &&& cache_within(a.utxo_cache, b.utxo_cache)
    &&& cache_within(b.utxo_cache, a.utxo_cache)
}

fn same_bonds(a: &Vec<FidelityBond>, b: &Vec<FidelityBond>) -> (same: bool)
    ensures
        same == (views(a@) == views(b@)),
{
    if a.len() != b.len() {
        assert(views(a@).len() != views(b@).len());
        return false;
    }
    let mut i: usize = 0;
    while i < a.len()
        invariant
            a.len() == b.len(),
            i <= a.len(),
            forall|j: int| 0 <= j < i ==> (#[trigger] a@[j])@ == b@[j]@,
        decreases a.len() - i,
    {
        if !a[i].same(&b[i]) {
            assert(views(a@)[i as int] != views(b@)[i as int]);
            return false;
        }
        i += 1;
    }
    assert(views(a@) =~= views(b@));
    true
}

impl WalletStore {
    /// Compares two wallets by their keys, coins and bonds.
    pub fn same(&self, other: &Self) -> (same: bool)
        requires
            self.well_formed(),
            other.well_formed(),
        ensures
            same == same_wallet(*self, *other),
    {
        let same_birthday = match (self.wallet_birthday, other.wallet_birthday) {
            (Some(a), Some(b)) => a == b,
            (None, None) => true,
            _ => false,
        };
        self.network == other.network && bytes_equal(
            &self.master_key.bytes,
            &other.master_key.bytes,
        ) && self.external_index == other.external_index && self.offer_maxsize
            == other.offer_maxsize && same_bonds(&self.fidelity_bond, &other.fidelity_bond)
            && same_birthday && cache_is_within(&self.utxo_cache, &other.utxo_cache)
            && cache_is_within(&other.utxo_cache, &self.utxo_cache)
    }
}

/// Every wallet is the same as itself, two wallets are the same either way round, and wallets that
/// are the same as a third are the same as each other.
pub proof fn law_same_wallet_is_equivalence(a: WalletStore, b: WalletStore, c: WalletStore)
    ensures
        same_wallet(a, a),
        same_wallet(a, b) ==> same_wallet(b, a),
        same_wallet(a, b) && same_wallet(b, c) ==> same_wallet(a, c),
{
    if same_wallet(a, b) && same_wallet(b, c) {
        assert forall|k: OutPoint| #[trigger] a.utxo_cache.has(k) implies c.utxo_cache.has(k)
            && a.utxo_cache.at(k)@ == c.utxo_cache.at(k)@ by {
            assert(b.utxo_cache.has(k));
        }
        assert forall|k: OutPoint| #[trigger] c.utxo_cache.has(k) implies a.utxo_cache.has(k)
            && c.utxo_cache.at(k)@ == a.utxo_cache.at(k)@ by {
            assert(b.utxo_cache.has(k));
        }
    }
}

/// The file name, the swap coins, the agreed contracts, the sync height, the swept scripts and the
/// decoys do not count when wallets are compared.
pub proof fn law_same_wallet_ignores_runtime_state(a: WalletStore, b: WalletStore)
    requires
        a == (WalletStore {
            file_name: a.file_name,
            incoming_swapcoins: a.incoming_swapcoins,
            outgoing_swapcoins: a.outgoing_swapcoins,
            watchonly_swapcoins: a.watchonly_swapcoins,
            prevout_to_contract_map: a.prevout_to_contract_map,
            last_synced_height: a.last_synced_height,
            swept_incoming_swapcoins: a.swept_incoming_swapcoins,
            decoy_cache: a.decoy_cache,
            ..b
        }),
    ensures
        same_wallet(a, b),
{
}

/// Wallets are told apart by each thing that counts: their networks, keys, indices, offers, birthdays and bonds,
/// and every coin that the one knows and the other does not, or knows otherwise.
pub proof fn law_different_wallets_are_told_apart(a: WalletStore, b: WalletStore, i: int)
    requires
        a.utxo_cache.well_formed(),
        same_wallet(a, b),
    ensures
        a.network == b.network,
        a.master_key@ == b.master_key@,
        a.external_index == b.external_index,
        a.offer_maxsize == b.offer_maxsize,
        a.wallet_birthday == b.wallet_birthday,
        a.fidelity_bond@.len() == b.fidelity_bond@.len(),
        0 <= i < a.fidelity_bond@.len() ==> a.fidelity_bond@[i].outpoint
            == b.fidelity_bond@[i].outpoint && a.fidelity_bond@[i].amount
            == b.fidelity_bond@[i].amount && a.fidelity_bond@[i].lock_time
            == b.fidelity_bond@[i].lock_time && a.fidelity_bond@[i].redeem_script@
            == b.fidelity_bond@[i].redeem_script@,
        0 <= i < a.utxo_cache.entries@.len() ==> exists|j: int|
            0 <= j < b.utxo_cache.entries@.len() && (#[trigger] b.utxo_cache.entries@[j]).0
                == a.utxo_cache.entries@[i].0 && b.utxo_cache.entries@[j].1@
                == a.utxo_cache.entries@[i].1@,
{
    assert(views(a.fidelity_bond@).len() == views(b.fidelity_bond@).len());
    if 0 <= i < a.fidelity_bond@.len() {
        assert(views(a.fidelity_bond@)[i] == views(b.fidelity_bond@)[i]);
    }
    if 0 <= i < a.utxo_cache.entries@.len() {
        a.utxo_cache.lemma_slot(i);
        let k = a.utxo_cache.entries@[i].0;
        assert(a.utxo_cache.has(k));
        let j = b.utxo_cache.slot(k);
        assert(b.utxo_cache.entries@[j].0@ == k);
    }
}

/// Wallets that agree in all that counts are the same.
pub proof fn law_like_wallets_are_the_same(a: WalletStore, b: WalletStore)
    requires
        a.network == b.network,
        a.master_key@ == b.master_key@,
        a.external_index == b.external_index,
        a.offer_maxsize == b.offer_maxsize,
        a.wallet_birthday == b.wallet_birthday,
        views(a.fidelity_bond@) == views(b.fidelity_bond@),
        a.utxo_cache == b.utxo_cache,
    ensures
        same_wallet(a, b),
{
}

/// The coins of a cache are its entries, in order, with the amounts and the scripts that the backend told.
pub proof fn law_cache_holds_what_was_told(cache: AssocMap<OutPoint, Coin>, i: int)
    requires
        0 <= i < cache.entries@.len(),
    ensures
        cached_coins(cache).len() == cache.entries@.len(),
        cached_coins(cache)[i].0.amount == cache.entries@[i].1.0.amount,
        cached_coins(cache)[i].0.txid == cache.entries@[i].1.0.txid,
        cached_coins(cache)[i].0.vout == cache.entries@[i].1.0.vout,
        cached_coins(cache)[i].0.confirmations == cache.entries@[i].1.0.confirmations,
        cached_coins(cache)[i].0.script_pub_key == cache.entries@[i].1.0.script_pub_key@,
{
}

/// A bond is locked by the P2WSH script of its redeem script.
pub proof fn law_bond_is_locked_by_its_redeem_script(bond: FidelityBond)
    ensures
        bond@.script() == p2wsh_bytes(bond.redeem_script@),
{
}

} // verus!
