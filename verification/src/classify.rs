//! What kind of coin an unspent output is, and the cache of the wallet's coins.
use vstd::prelude::*;
use vstd::string::*;
use crate::assoc::AssocMap;
use crate::backend::{BlockchainBackend, LocalScripts, OriginView};
use crate::bytes::{option_view, position_of_script, views, ScriptBuf};
use crate::descriptor::{
    descriptor_type, get_hd_path_from_descriptor, spec_descriptor_type, spec_hd_path,
};
use crate::error::WalletError;
use crate::keys::{
    account_key, derive_account, derived_key, fingerprint_text, key_fingerprint, p2wsh_bytes,
    parsed_path, Xpriv,
};
use crate::raw_tx::{compute_txid, txid_of};
use crate::multisig::{
    create_multisig_redeemscript, multisig_script, multisig_script_pubkey, multisig_spk,
};
use crate::primitives::{AddressType, OutPoint, ProtocolVersion, PublicKey, Txid};
use crate::spend_info::{
    copy_coin, Coin, ListUnspentResultEntry, SpendInfoView, UTXOSpendInfo, UtxoView,
};
use crate::store::{cache_keys_match, BondView, WalletStore};
use crate::swapcoin::{IncomingSwapCoin, OutgoingSwapCoin};
use crate::text::{decimal, hd_path, hd_path_text, origin_path_text, signed_decimal};
use crate::wallet::{first_incoming, first_outgoing, Wallet};

verus! {

/// The spend information of the first bond, from position `i` on, that an output is.
pub open spec fn fidelity_from(bonds: Seq<BondView>, utxo: UtxoView, i: int) -> Option<
    SpendInfoView,
>
    decreases bonds.len() - i,
{
    if i >= bonds.len() {
        None
    } else if bonds[i].script() == utxo.script_pub_key && bonds[i].amount == utxo.amount {
        Some(
            SpendInfoView::FidelityBondCoin {
                index: (i as usize) as u32,
                input_value: bonds[i].amount,
            },
        )
    } else {
        fidelity_from(bonds, utxo, i + 1)
    }
}

/// The address type of a place in the wallet.
pub open spec fn origin_type(hd: OriginView) -> AddressType {
    if hd.is_taproot {
        AddressType::P2TR
    } else {
        AddressType::P2WPKH
    }
}

/// The place of a script in the wallet, where the backend knows it.
pub open spec fn origin_of(local: LocalScripts, script: Seq<u8>) -> Option<OriginView> {
    if local.origins.contains_key(script) {
        Some(local.origins[script])
    } else {
        None
    }
}

/// The derivation path that a descriptor gives.
pub open spec fn descriptor_path(chain: u32, index: i32) -> Seq<char> {
    "m/"@ + decimal(chain as nat) + "/"@ + signed_decimal(index as int)
}

/// The spend information of an output that an incoming swap coin was swept to.
pub open spec fn swept_info(
    swept: Seq<Seq<u8>>,
    local: LocalScripts,
    utxo: UtxoView,
) -> Option<SpendInfoView> {
    let from_descriptor = match utxo.descriptor {
        Some(descriptor) => spec_hd_path(descriptor),
        None => None,
    };
    if !swept.contains(utxo.script_pub_key) {
        None
    } else {
        match from_descriptor {
            Some(path) => Some(
                SpendInfoView::SweptCoin {
                    path: descriptor_path(path.1, path.2),
                    input_value: utxo.amount,
                    address_type: spec_descriptor_type(utxo.descriptor->Some_0),
                },
            ),
            None => match origin_of(local, utxo.script_pub_key) {
                Some(hd) => Some(
                    SpendInfoView::SweptCoin {
                        path: hd_path(hd.keychain_idx as nat, hd.index as nat),
                        input_value: utxo.amount,
                        address_type: origin_type(hd),
                    },
                ),
                None => None,
            },
        }
    }
}

/// An optional script, or the empty script.
pub open spec fn script_or_empty(script: Option<Seq<u8>>) -> Seq<u8> {
    match script {
        Some(s) => s,
        None => Seq::empty(),
    }
}

/// The spend information of the first sent coin, from position `i` on, whose contract an output
/// is.
pub open spec fn timelock_from(
    coins: Seq<(Txid, OutgoingSwapCoin)>,
    utxo: UtxoView,
    i: int,
) -> Option<SpendInfoView>
    decreases coins.len() - i,
{
    if i >= coins.len() {
        None
    } else {
        let coin = coins[i].1@;
        if utxo.txid == txid_of(coin.contract_tx) && utxo.vout == coin.contract_vout {
            Some(
                SpendInfoView::TimelockContract {
                    swapcoin_multisig_redeemscript: script_or_empty(coin.contract_redeemscript),
                    input_value: utxo.amount,
                },
            )
        } else {
            timelock_from(coins, utxo, i + 1)
        }
    }
}

/// The spend information of the first received coin, from position `i` on, whose contract an
/// output is and whose preimage is known.
pub open spec fn hashlock_from(
    coins: Seq<(Txid, IncomingSwapCoin)>,
    utxo: UtxoView,
    i: int,
) -> Option<SpendInfoView>
    decreases coins.len() - i,
{
    if i >= coins.len() {
        None
    } else {
        let coin = coins[i].1@;
        if utxo.txid == txid_of(coin.contract_tx) && utxo.vout == coin.contract_vout
            && coin.hash_preimage is Some {
            Some(
                SpendInfoView::HashlockContract {
                    swapcoin_multisig_redeemscript: script_or_empty(coin.contract_redeemscript),
                    input_value: utxo.amount,
                },
            )
        } else {
            hashlock_from(coins, utxo, i + 1)
        }
    }
}

/// The spend information of a live contract output.
pub open spec fn live_contract_info(store: WalletStore, utxo: UtxoView) -> Option<SpendInfoView> {
    match timelock_from(store.outgoing_swapcoins.entries@, utxo, 0) {
        Some(info) => Some(info),
        None => hashlock_from(store.incoming_swapcoins.entries@, utxo, 0),
    }
}

/// The fingerprint of the account key of an address type, if it can be derived.
pub open spec fn account_fingerprint(master: Seq<u8>, address_type: AddressType) -> Option<
    Seq<char>,
> {
    match account_key(master, address_type) {
        Some(account) => key_fingerprint(account),
        None => None,
    }
}

/// Whether the account keys of a wallet can be derived.
pub open spec fn keys_derivable(master: Seq<u8>) -> bool {
    account_fingerprint(master, AddressType::P2WPKH) is Some && account_fingerprint(
        master,
        AddressType::P2TR,
    ) is Some
}

/// The spend information of an output at a place below an account key: the wallet's own coin if the
/// fingerprint is that of the account key. The outer `None` stands for a key that cannot be
/// derived.
pub open spec fn seed_info(
    master: Seq<u8>,
    fingerprint: Seq<char>,
    address_type: AddressType,
    path: Seq<char>,
    amount: u64,
) -> Option<Option<SpendInfoView>> {
    match account_fingerprint(master, address_type) {
        Some(own) => if own == fingerprint {
            Some(Some(SpendInfoView::SeedCoin { path, input_value: amount, address_type }))
        } else {
            Some(None)
        },
        None => None,
    }
}

/// The redeem script of a coin whose two-of-two output is locked by `script`.
pub open spec fn matching_multisig(
    mine: Option<Seq<u8>>,
    other: Option<Seq<u8>>,
    script: Seq<u8>,
) -> Option<Seq<u8>> {
    match (mine, other) {
        (Some(a), Some(b)) => if multisig_spk(a, b) == script {
            Some(multisig_script(a, b))
        } else {
            None
        },
        _ => None,
    }
}

/// The spend information of the first received coin, from position `i` on, that is spendable and
/// whose two-of-two output an output is.
pub open spec fn incoming_from(
    coins: Seq<(Txid, IncomingSwapCoin)>,
    script: Seq<u8>,
    i: int,
) -> Option<SpendInfoView>
    decreases coins.len() - i,
{
    if i >= coins.len() {
        None
    } else {
        let coin = coins[i].1@;
        match matching_multisig(coin.my_pubkey, coin.other_pubkey, script) {
            Some(redeem) => if coin.protocol == ProtocolVersion::Legacy && coin.other_privkey
                is Some {
                Some(SpendInfoView::IncomingSwapCoin { multisig_redeemscript: redeem })
            } else {
                incoming_from(coins, script, i + 1)
            },
            None => incoming_from(coins, script, i + 1),
        }
    }
}

/// The spend information of the first sent coin, from position `i` on, whose preimage is known and
/// whose two-of-two output an output is.
pub open spec fn outgoing_from(
    coins: Seq<(Txid, OutgoingSwapCoin)>,
    script: Seq<u8>,
    i: int,
) -> Option<SpendInfoView>
    decreases coins.len() - i,
{
    if i >= coins.len() {
        None
    } else {
        let coin = coins[i].1@;
        match matching_multisig(coin.my_pubkey, coin.other_pubkey, script) {
            Some(redeem) => if coin.protocol == ProtocolVersion::Legacy && coin.hash_preimage
                is Some {
                Some(SpendInfoView::OutgoingSwapCoin { multisig_redeemscript: redeem })
            } else {
                outgoing_from(coins, script, i + 1)
            },
            None => outgoing_from(coins, script, i + 1),
        }
    }
}

/// Whether the first received coin with a redeem script is spendable.
pub open spec fn incoming_spendable(
    coins: AssocMap<Txid, IncomingSwapCoin>,
    script: Seq<u8>,
) -> bool {
    exists|i: int| #[trigger]
        first_incoming(coins, script, i) && coins.entries@[i].1@.other_privkey is Some
}

/// Whether the preimage of the first sent coin with a redeem script is known.
pub open spec fn outgoing_spendable(
    coins: AssocMap<Txid, OutgoingSwapCoin>,
    script: Seq<u8>,
) -> bool {
    exists|i: int| #[trigger]
        first_outgoing(coins, script, i) && coins.entries@[i].1@.hash_preimage is Some
}

/// The spend information that a descriptor and a witness script give of an output.
pub open spec fn info_from_descriptor(store: WalletStore, utxo: UtxoView) -> Option<
    Option<SpendInfoView>,
> {
    match utxo.descriptor {
        None => Some(None),
        Some(descriptor) => match spec_hd_path(descriptor) {
            Some(path) => seed_info(
                store.master_key@,
                path.0,
                spec_descriptor_type(descriptor),
                descriptor_path(path.1, path.2),
                utxo.amount,
            ),
            None => {
                let script = script_or_empty(utxo.witness_script);
                if incoming_spendable(store.incoming_swapcoins, script) {
                    Some(Some(SpendInfoView::IncomingSwapCoin { multisig_redeemscript: script }))
                } else if outgoing_spendable(store.outgoing_swapcoins, script) {
                    Some(Some(SpendInfoView::OutgoingSwapCoin { multisig_redeemscript: script }))
                } else {
                    Some(None)
                }
            },
        },
    }
}

/// The spend information of an output that is neither at a place that the backend knows nor swept.
pub open spec fn info_from_scripts(store: WalletStore, utxo: UtxoView) -> Option<
    Option<SpendInfoView>,
> {
    let script = utxo.script_pub_key;
    if utxo.witness_script is None && incoming_from(store.incoming_swapcoins.entries@, script, 0)
        is Some {
        Some(incoming_from(store.incoming_swapcoins.entries@, script, 0))
    } else if utxo.witness_script is None && outgoing_from(
        store.outgoing_swapcoins.entries@,
        script,
        0,
    ) is Some {
        Some(outgoing_from(store.outgoing_swapcoins.entries@, script, 0))
    } else {
        info_from_descriptor(store, utxo)
    }
}

/// The spend information of a regular coin or a swap coin. The outer `None` stands for a key that
/// cannot be derived.
pub open spec fn own_info(store: WalletStore, local: LocalScripts, utxo: UtxoView) -> Option<
    Option<SpendInfoView>,
> {
    let swept = swept_info(views(store.swept_incoming_swapcoins@), local, utxo);
    let origin = origin_of(local, utxo.script_pub_key);
    if swept is Some {
        Some(swept)
    } else {
        match origin {
            Some(hd) => match seed_info(
                store.master_key@,
                hd.fingerprint,
                origin_type(hd),
                hd_path(hd.keychain_idx as nat, hd.index as nat),
                utxo.amount,
            ) {
                None => None,
                Some(Some(info)) => Some(Some(info)),
                Some(None) => info_from_scripts(store, utxo),
            },
            None => info_from_scripts(store, utxo),
        }
    }
}

/// The spend information of an output: a fidelity bond before a live contract, and that before a
/// coin of the wallet's own.
pub open spec fn coin_info(store: WalletStore, local: LocalScripts, utxo: UtxoView) -> Option<
    Option<SpendInfoView>,
> {
    let bond = fidelity_from(views(store.fidelity_bond@), utxo, 0);
    let live = live_contract_info(store, utxo);
    if bond is Some {
        Some(bond)
    } else if live is Some {
        Some(live)
    } else {
        own_info(store, local, utxo)
    }
}

/// The view of a classification.
pub open spec fn info_view(info: Result<Option<UTXOSpendInfo>, WalletError>) -> Option<
    Option<SpendInfoView>,
> {
    match info {
        Ok(found) => Some(option_view(found)),
        Err(_) => None,
    }
}

/// Where the account keys can be derived, every output can be classified.
pub proof fn law_classification_succeeds(store: WalletStore, local: LocalScripts, utxo: UtxoView)
    requires
        keys_derivable(store.master_key@),
    ensures
        own_info(store, local, utxo) is Some,
        coin_info(store, local, utxo) is Some,
{
}

proof fn lemma_from_scripts(store: WalletStore, utxo: UtxoView, i: int)
    requires
        0 <= i,
    ensures
        incoming_from(store.incoming_swapcoins.entries@, utxo.script_pub_key, i) matches Some(info)
            ==> info is IncomingSwapCoin,
        outgoing_from(store.outgoing_swapcoins.entries@, utxo.script_pub_key, i) matches Some(info)
            ==> info is OutgoingSwapCoin,
    decreases
            store.incoming_swapcoins.entries@.len() + store.outgoing_swapcoins.entries@.len()
                - i,
{
    if i < store.incoming_swapcoins.entries@.len() || i < store.outgoing_swapcoins.entries@.len() {
        lemma_from_scripts(store, utxo, i + 1);
    }
}

/// An output at a script that a swap coin was swept to is never taken for a regular coin. Where its
/// place in the wallet is known, it is a swept coin.
pub proof fn law_swept_output_is_not_regular(
    store: WalletStore,
    local: LocalScripts,
    utxo: UtxoView,
)
    requires
        views(store.swept_incoming_swapcoins@).contains(utxo.script_pub_key),
    ensures
        own_info(store, local, utxo) matches Some(Some(info)) ==> !(info is SeedCoin),
        origin_of(local, utxo.script_pub_key) is Some ==> (own_info(store, local, utxo) matches Some(
            Some(info),
        ) && info is SweptCoin),
{
    lemma_from_scripts(store, utxo, 0);
}

/// A fidelity bond is never taken for a coin that can be spent, and a live contract is never taken
/// for a regular coin.
pub proof fn law_classification_precedence(
    store: WalletStore,
    local: LocalScripts,
    utxo: UtxoView,
)
    ensures
        fidelity_from(views(store.fidelity_bond@), utxo, 0) is Some ==> coin_info(
            store,
            local,
            utxo,
        ) == Some(fidelity_from(views(store.fidelity_bond@), utxo, 0)) && coin_info(
            store,
            local,
            utxo,
        )->Some_0->Some_0 is FidelityBondCoin,
        fidelity_from(views(store.fidelity_bond@), utxo, 0) is None && live_contract_info(
            store,
            utxo,
        ) is Some ==> (coin_info(store, local, utxo)->Some_0->Some_0 is TimelockContract
            || coin_info(store, local, utxo)->Some_0->Some_0 is HashlockContract),
{
    lemma_fidelity_kind(views(store.fidelity_bond@), utxo, 0);
    lemma_timelock_kind(store.outgoing_swapcoins.entries@, utxo, 0);
    lemma_hashlock_kind(store.incoming_swapcoins.entries@, utxo, 0);
}

proof fn lemma_fidelity_kind(bonds: Seq<BondView>, utxo: UtxoView, i: int)
    ensures
        fidelity_from(bonds, utxo, i) is Some ==> fidelity_from(bonds, utxo, i)->Some_0
            is FidelityBondCoin,
    decreases bonds.len() - i,
{
    if i < bonds.len() {
        lemma_fidelity_kind(bonds, utxo, i + 1);
    }
}

proof fn lemma_timelock_kind(coins: Seq<(Txid, OutgoingSwapCoin)>, utxo: UtxoView, i: int)
    ensures
        timelock_from(coins, utxo, i) is Some ==> timelock_from(coins, utxo, i)->Some_0
            is TimelockContract,
    decreases coins.len() - i,
{
    if i < coins.len() {
        lemma_timelock_kind(coins, utxo, i + 1);
    }
}

proof fn lemma_hashlock_kind(coins: Seq<(Txid, IncomingSwapCoin)>, utxo: UtxoView, i: int)
    ensures
        hashlock_from(coins, utxo, i) is Some ==> hashlock_from(coins, utxo, i)->Some_0
            is HashlockContract,
    decreases coins.len() - i,
{
    if i < coins.len() {
        lemma_hashlock_kind(coins, utxo, i + 1);
    }
}

/// The fingerprint of the account key of an address type.
pub fn fingerprint_of_account(master: &Xpriv, address_type: AddressType) -> (fingerprint: Result<
    String,
    WalletError,
>)
    ensures
        match fingerprint {
            Ok(f) => account_fingerprint(master@, address_type) == Some(f@),
            Err(e) => account_fingerprint(master@, address_type) is None && e
                == WalletError::Derivation,
        },
{
    let account = derive_account(master, address_type)?;
    match fingerprint_text(&account) {
        Some(text) => Ok(text),
        None => Err(WalletError::Derivation),
    }
}

fn seed_coin(
    master: &Xpriv,
    fingerprint: &String,
    address_type: AddressType,
    path: String,
    amount: u64,
) -> (info: Result<Option<UTXOSpendInfo>, WalletError>)
    ensures
        info_view(info) == seed_info(master@, fingerprint@, address_type, path@, amount),
        info matches Err(e) ==> e == WalletError::Derivation,
{
    let own = fingerprint_of_account(master, address_type)?;
    if own == *fingerprint {
        Ok(Some(UTXOSpendInfo::SeedCoin { path, input_value: amount, address_type }))
    } else {
        Ok(None)
    }
}

fn match_multisig(
    mine: &Option<PublicKey>,
    other: &Option<PublicKey>,
    script: &ScriptBuf,
) -> (redeem: Option<ScriptBuf>)
    ensures
        option_view(redeem) == matching_multisig(
            option_view(*mine),
            option_view(*other),
            script@,
        ),
{
    match (mine, other) {
        (Some(a), Some(b)) => if multisig_script_pubkey(a, b).same(script) {
            Some(create_multisig_redeemscript(a, b))
        } else {
            None
        },
        _ => None,
    }
}

fn script_or_default(script: &Option<ScriptBuf>) -> (copy: ScriptBuf)
    ensures
        copy@ == script_or_empty(option_view(*script)),
{
    match script {
        Some(s) => s.clone(),
        None => ScriptBuf::new(),
    }
}

impl<B: BlockchainBackend> Wallet<B> {
    /// Whether an output is one of the wallet's fidelity bonds.
    pub fn check_if_fidelity(&self, utxo: &ListUnspentResultEntry) -> (info: Option<UTXOSpendInfo>)
        ensures
            option_view(info) == fidelity_from(views(self.store.fidelity_bond@), utxo@, 0),
    {
        let bonds = &self.store.fidelity_bond;
        let ghost all = views(bonds@);
        let mut i: usize = 0;
        while i < bonds.len()
            invariant
                bonds == self.store.fidelity_bond,
                all == views(bonds@),
                i <= bonds.len(),
                fidelity_from(all, utxo@, 0) == fidelity_from(all, utxo@, i as int),
            decreases bonds.len() - i,
        {
            assert(all[i as int] == bonds@[i as int]@);
            if bonds[i].script_pub_key().same(&utxo.script_pub_key) && bonds[i].amount
                == utxo.amount {
                return Some(
                    UTXOSpendInfo::FidelityBondCoin {
                        index: i as u32,
                        input_value: bonds[i].amount,
                    },
                );
            }
            i += 1;
        }
        None
    }

    /// Whether an incoming swap coin was swept to an output.
    pub fn check_if_swept_incoming_swapcoin(&self, utxo: &ListUnspentResultEntry) -> (info: Option<
        UTXOSpendInfo,
    >)
        requires
            self.well_formed(),
        ensures
            option_view(info) == swept_info(
                views(self.store.swept_incoming_swapcoins@),
                self.rpc.local(),
                utxo@,
            ),
    {
        let found = position_of_script(&self.store.swept_incoming_swapcoins, &utxo.script_pub_key);
        match found {
            Some(i) => {
                assert(views(self.store.swept_incoming_swapcoins@)[i as int]
                    == utxo.script_pub_key@);
            },
            None => {
                return None;
            },
        }
        if let Some(descriptor) = &utxo.descriptor {
            if let Some(path) = get_hd_path_from_descriptor(descriptor.as_str()) {
                return Some(
                    UTXOSpendInfo::SweptCoin {
                        path: origin_path_text(path.keychain_idx, path.index),
                        input_value: utxo.amount,
                        address_type: descriptor_type(descriptor.as_str()),
                    },
                );
            }
        }
        match self.rpc.hd_origin_for_script(&utxo.script_pub_key) {
            Some(hd) => Some(
                UTXOSpendInfo::SweptCoin {
                    path: hd_path_text(hd.keychain_idx, hd.index as u64),
                    input_value: utxo.amount,
                    address_type: if hd.is_taproot {
                        AddressType::P2TR
                    } else {
                        AddressType::P2WPKH
                    },
                },
            ),
            None => None,
        }
    }

    /// Whether an output is a live contract of one of the wallet's swaps.
    pub fn check_and_derive_live_contract_spend_info(&self, utxo: &ListUnspentResultEntry) -> (info:
        Result<Option<UTXOSpendInfo>, WalletError>)
        ensures
            info is Ok,
            info_view(info) == Some(live_contract_info(self.store, utxo@)),
    {
        let outgoing = &self.store.outgoing_swapcoins.entries;
        let mut i: usize = 0;
        while i < outgoing.len()
            invariant
                outgoing == self.store.outgoing_swapcoins.entries,
                i <= outgoing.len(),
                timelock_from(outgoing@, utxo@, 0) == timelock_from(outgoing@, utxo@, i as int),
            decreases outgoing.len() - i,
        {
            let coin = &outgoing[i].1;
            if utxo.txid == compute_txid(&coin.contract_tx) && utxo.vout
                == coin.get_contract_output_vout() {
                return Ok(
                    Some(
                        UTXOSpendInfo::TimelockContract {
                            swapcoin_multisig_redeemscript: script_or_default(
                                &coin.contract_redeemscript,
                            ),
                            input_value: utxo.amount,
                        },
                    ),
                );
            }
            i += 1;
        }
        let incoming = &self.store.incoming_swapcoins.entries;
        let mut j: usize = 0;
        while j < incoming.len()
            invariant
                incoming == self.store.incoming_swapcoins.entries,
                j <= incoming.len(),
                timelock_from(self.store.outgoing_swapcoins.entries@, utxo@, 0) is None,
                hashlock_from(incoming@, utxo@, 0) == hashlock_from(incoming@, utxo@, j as int),
            decreases incoming.len() - j,
        {
            let coin = &incoming[j].1;
            if utxo.txid == compute_txid(&coin.contract_tx) && utxo.vout
                == coin.get_contract_output_vout() && coin.is_preimage_known() {
                return Ok(
                    Some(
                        UTXOSpendInfo::HashlockContract {
                            swapcoin_multisig_redeemscript: script_or_default(
                                &coin.contract_redeemscript,
                            ),
                            input_value: utxo.amount,
                        },
                    ),
                );
            }
            j += 1;
        }
        Ok(None)
    }

    /// Whether the two-of-two output of one of the wallet's spendable swap coins is an output.
    fn swap_coin_by_script(&self, script: &ScriptBuf) -> (info: Option<UTXOSpendInfo>)
        ensures
            option_view(info) == match incoming_from(
                self.store.incoming_swapcoins.entries@,
                script@,
                0,
            ) {
                Some(found) => Some(found),
                None => outgoing_from(self.store.outgoing_swapcoins.entries@, script@, 0),
            },
    {
        let incoming = &self.store.incoming_swapcoins.entries;
        let mut i: usize = 0;
        while i < incoming.len()
            invariant
                incoming == self.store.incoming_swapcoins.entries,
                i <= incoming.len(),
                incoming_from(incoming@, script@, 0) == incoming_from(
                    incoming@,
                    script@,
                    i as int,
                ),
            decreases incoming.len() - i,
        {
            let coin = &incoming[i].1;
            if coin.protocol == ProtocolVersion::Legacy && coin.other_privkey.is_some() {
                if let Some(redeem) = match_multisig(&coin.my_pubkey, &coin.other_pubkey, script) {
                    return Some(
                        UTXOSpendInfo::IncomingSwapCoin { multisig_redeemscript: redeem },
                    );
                }
            }
            i += 1;
        }
        let outgoing = &self.store.outgoing_swapcoins.entries;
        let mut j: usize = 0;
        while j < outgoing.len()
            invariant
                outgoing == self.store.outgoing_swapcoins.entries,
                j <= outgoing.len(),
                incoming_from(self.store.incoming_swapcoins.entries@, script@, 0) is None,
                outgoing_from(outgoing@, script@, 0) == outgoing_from(
                    outgoing@,
                    script@,
                    j as int,
                ),
            decreases outgoing.len() - j,
        {
            let coin = &outgoing[j].1;
            if coin.protocol == ProtocolVersion::Legacy && coin.hash_preimage.is_some() {
                if let Some(redeem) = match_multisig(&coin.my_pubkey, &coin.other_pubkey, script) {
                    return Some(
                        UTXOSpendInfo::OutgoingSwapCoin { multisig_redeemscript: redeem },
                    );
                }
            }
            j += 1;
        }
        None
    }

    /// What the descriptor and the witness script of an output tell.
    fn info_by_descriptor(&self, utxo: &ListUnspentResultEntry) -> (info: Result<
        Option<UTXOSpendInfo>,
        WalletError,
    >)
        ensures
            info_view(info) == info_from_descriptor(self.store, utxo@),
            info matches Err(e) ==> e == WalletError::Derivation,
    {
        let descriptor = match &utxo.descriptor {
            Some(descriptor) => descriptor,
            None => {
                return Ok(None);
            },
        };
        if let Some(path) = get_hd_path_from_descriptor(descriptor.as_str()) {
            return seed_coin(
                &self.store.master_key,
                &path.fingerprint,
                descriptor_type(descriptor.as_str()),
                origin_path_text(path.keychain_idx, path.index),
                utxo.amount,
            );
        }
        let script = script_or_default(&utxo.witness_script);
        if let Some(coin) = self.find_incoming_swapcoin_by_multisig(&script) {
            if coin.other_privkey.is_some() {
                return Ok(Some(UTXOSpendInfo::IncomingSwapCoin { multisig_redeemscript: script }));
            }
        }
        proof {
            let coins = self.store.incoming_swapcoins;
            if incoming_spendable(coins, script@) {
                let i = choose|i: int| #[trigger]
                    first_incoming(coins, script@, i) && coins.entries@[i].1@.other_privkey is Some;
                assert(coins.entries@[i].1@.has_multisig(script@));
                lemma_first_incoming_unique(coins, script@);
            }
        }
        if let Some(coin) = self.find_outgoing_swapcoin_by_multisig(&script) {
            if coin.hash_preimage.is_some() {
                return Ok(Some(UTXOSpendInfo::OutgoingSwapCoin { multisig_redeemscript: script }));
            }
        }
        proof {
            let coins = self.store.outgoing_swapcoins;
            if outgoing_spendable(coins, script@) {
                let i = choose|i: int| #[trigger]
                    first_outgoing(coins, script@, i) && coins.entries@[i].1@.hash_preimage is Some;
                assert(coins.entries@[i].1@.has_multisig(script@));
                lemma_first_outgoing_unique(coins, script@);
            }
        }
        Ok(None)
    }

    /// Whether an output is a regular coin or a swap coin of the wallet.
    pub fn check_and_derive_descriptor_utxo_or_swap_coin(
        &self,
        utxo: &ListUnspentResultEntry,
    ) -> (info: Result<Option<UTXOSpendInfo>, WalletError>)
        requires
            self.well_formed(),
        ensures
            info_view(info) == own_info(self.store, self.rpc.local(), utxo@),
            info matches Err(e) ==> e == WalletError::Derivation,
    {
        if let Some(swept) = self.check_if_swept_incoming_swapcoin(utxo) {
            return Ok(Some(swept));
        }
        if let Some(hd) = self.rpc.hd_origin_for_script(&utxo.script_pub_key) {
            let address_type = if hd.is_taproot {
                AddressType::P2TR
            } else {
                AddressType::P2WPKH
            };
            let seed = seed_coin(
                &self.store.master_key,
                &hd.fingerprint,
                address_type,
                hd_path_text(hd.keychain_idx, hd.index as u64),
                utxo.amount,
            )?;
            if let Some(info) = seed {
                return Ok(Some(info));
            }
        }
        if utxo.witness_script.is_none() {
            if let Some(info) = self.swap_coin_by_script(&utxo.script_pub_key) {
                return Ok(Some(info));
            }
        }
        self.info_by_descriptor(utxo)
    }
}

proof fn lemma_first_incoming_unique(coins: AssocMap<Txid, IncomingSwapCoin>, script: Seq<u8>)
    ensures
        forall|i: int, j: int| #[trigger]
            first_incoming(coins, script, i) && #[trigger] first_incoming(coins, script, j) ==> i
                == j,
{
}

proof fn lemma_first_outgoing_unique(coins: AssocMap<Txid, OutgoingSwapCoin>, script: Seq<u8>)
    ensures
        forall|i: int, j: int| #[trigger]
            first_outgoing(coins, script, i) && #[trigger] first_outgoing(coins, script, j) ==> i
                == j,
{
}

/// The outpoints of a list of outputs.
pub open spec fn outpoints_of(utxos: Seq<ListUnspentResultEntry>) -> Seq<OutPoint> {
    Seq::new(utxos.len(), |i: int| utxos[i]@.outpoint())
}

/// Whether output `i` of a list is the one that the cache learns of at its outpoint: it has spend
/// information, and no later output of the list has the same outpoint and spend information.
pub open spec fn learned_from(
    store: WalletStore,
    local: LocalScripts,
    utxos: Seq<ListUnspentResultEntry>,
    i: int,
) -> bool {
    &&& 0 <= i < utxos.len()
    &&& coin_info(store, local, utxos[i]@) matches Some(Some(_))
    &&& forall|j: int|
        i < j < utxos.len() && (#[trigger] utxos[j])@.outpoint() == utxos[i]@.outpoint()
            ==> !(coin_info(store, local, utxos[j]@) matches Some(Some(_)))
}

/// The cache of a wallet's coins after a list of its unspent outputs came in: coins that are not
/// listed any more are gone, coins that were known stay as they were, and new ones are added with
/// their spend information.
pub open spec fn cache_updated(
    after: AssocMap<OutPoint, Coin>,
    store: WalletStore,
    local: LocalScripts,
    utxos: Seq<ListUnspentResultEntry>,
) -> bool {
    let before = store.utxo_cache;
    &&& after.well_formed()
    &&& cache_keys_match(after)
    &&& forall|k: OutPoint|
        before.has(k) ==> (#[trigger] after.has(k) <==> outpoints_of(utxos).contains(k))
    &&& forall|k: OutPoint| before.has(k) && #[trigger] after.has(k) ==> after.at(k) == before.at(k)
    &&& forall|k: OutPoint|
        !before.has(k) ==> (#[trigger] after.has(k) <==> exists|i: int| #[trigger]
            learned_from(store, local, utxos, i) && utxos[i]@.outpoint() == k)
    &&& forall|k: OutPoint|
        !before.has(k) && #[trigger] after.has(k) ==> exists|i: int|
            {
                &&& #[trigger] learned_from(store, local, utxos, i)
                &&& utxos[i]@.outpoint() == k
                &&& after.at(k)@ == (
                    utxos[i]@,
                    coin_info(store, local, utxos[i]@)->Some_0->Some_0,
                )
            }
}

/// Whether every output of a list that the cache does not know can be classified: no key that decides
/// about it lacks.
pub open spec fn new_outputs_classifiable(
    store: WalletStore,
    local: LocalScripts,
    utxos: Seq<ListUnspentResultEntry>,
) -> bool {
    forall|i: int|
        0 <= i < utxos.len() && !store.utxo_cache.has((#[trigger] utxos[i])@.outpoint())
            ==> coin_info(store, local, utxos[i]@) is Some
}

/// Where the account keys can be derived, the cache can be brought up to date with any list.
pub proof fn law_any_list_can_be_classified(
    store: WalletStore,
    local: LocalScripts,
    utxos: Seq<ListUnspentResultEntry>,
)
    requires
        keys_derivable(store.master_key@),
    ensures
        new_outputs_classifiable(store, local, utxos),
{
    assert forall|i: int|
        0 <= i < utxos.len() && !store.utxo_cache.has(
            (#[trigger] utxos[i])@.outpoint(),
        ) implies coin_info(store, local, utxos[i]@) is Some by {
        law_classification_succeeds(store, local, utxos[i]@);
    }
}

/// A second update with the same list changes nothing: the same coins are known, with the same spend
/// information.
pub proof fn law_second_update_changes_nothing(
    store: WalletStore,
    local: LocalScripts,
    utxos: Seq<ListUnspentResultEntry>,
    once: AssocMap<OutPoint, Coin>,
    twice: AssocMap<OutPoint, Coin>,
)
    requires
        cache_updated(once, store, local, utxos),
        cache_updated(twice, (WalletStore { utxo_cache: once, ..store }), local, utxos),
    ensures
        forall|k: OutPoint| #[trigger] twice.has(k) <==> once.has(k),
        forall|k: OutPoint| #[trigger] once.has(k) ==> twice.at(k) == once.at(k),
{
    let next = WalletStore { utxo_cache: once, ..store };
    assert forall|u: UtxoView| #[trigger]
        coin_info(next, local, u) == coin_info(store, local, u) by {}
    assert forall|k: OutPoint| #[trigger] once.has(k) implies twice.has(k) && twice.at(k)
        == once.at(k) by {
        if !store.utxo_cache.has(k) {
            let i = choose|i: int| #[trigger]
                learned_from(store, local, utxos, i) && utxos[i]@.outpoint() == k;
            assert(outpoints_of(utxos)[i] == k);
        }
        assert(outpoints_of(utxos).contains(k));
        assert(twice.has(k));
    }
    assert forall|k: OutPoint| #[trigger] twice.has(k) implies once.has(k) by {
        if !once.has(k) {
            let i = choose|i: int| #[trigger]
                learned_from(next, local, utxos, i) && utxos[i]@.outpoint() == k;
            assert(learned_from(store, local, utxos, i)) by {
                assert(coin_info(next, local, utxos[i]@) == coin_info(store, local, utxos[i]@));
                assert forall|j: int|
                    i < j < utxos.len() && (#[trigger] utxos[j])@.outpoint()
                        == utxos[i]@.outpoint() implies !(coin_info(store, local, utxos[j]@)
                    matches Some(Some(_))) by {
                    assert(coin_info(next, local, utxos[j]@) == coin_info(
                        store,
                        local,
                        utxos[j]@,
                    ));
                }
            }
            assert(outpoints_of(utxos)[i] == k);
            assert(outpoints_of(utxos).contains(k));
        }
    }
}

/// An update with an empty list leaves no coin.
pub proof fn law_empty_update_leaves_no_coin(
    store: WalletStore,
    local: LocalScripts,
    after: AssocMap<OutPoint, Coin>,
)
    requires
        cache_updated(after, store, local, Seq::empty()),
    ensures
        forall|k: OutPoint| !#[trigger] after.has(k),
        after.entries@.len() == 0,
{
    let none = Seq::<ListUnspentResultEntry>::empty();
    assert forall|k: OutPoint| !#[trigger] after.has(k) by {
        if after.has(k) {
            if store.utxo_cache.has(k) {
                assert(outpoints_of(none).contains(k));
            } else {
                let i = choose|i: int| #[trigger]
                    learned_from(store, local, none, i) && none[i]@.outpoint() == k;
                assert(0 <= i < none.len());
            }
        }
    }
    if after.entries@.len() > 0 {
        after.lemma_slot(0);
        assert(after.has(after.entries@[0].0));
    }
}

fn outpoint_listed(utxos: &Vec<ListUnspentResultEntry>, outpoint: &OutPoint) -> (listed: bool)
    ensures
        listed == outpoints_of(utxos@).contains(*outpoint),
{
    let mut i: usize = 0;
    while i < utxos.len()
        invariant
            i <= utxos.len(),
            forall|j: int| 0 <= j < i ==> (#[trigger] utxos@[j])@.outpoint() != *outpoint,
        decreases utxos.len() - i,
    {
        if utxos[i].outpoint() == *outpoint {
            assert(outpoints_of(utxos@)[i as int] == *outpoint);
            return true;
        }
        i += 1;
    }
    proof {
        if outpoints_of(utxos@).contains(*outpoint) {
            let all = outpoints_of(utxos@);
            let j = choose|j: int| 0 <= j < all.len() && all[j] == *outpoint;
            assert(utxos@[j]@.outpoint() == *outpoint);
        }
    }
    false
}

/// Takes the coins out of a cache that are not listed any more.
fn drop_unlisted(cache: &mut AssocMap<OutPoint, Coin>, utxos: &Vec<ListUnspentResultEntry>)
    requires
        old(cache).well_formed(),
        cache_keys_match(*old(cache)),
    ensures
        final(cache).well_formed(),
        cache_keys_match(*final(cache)),
        forall|k: OutPoint| #[trigger]
            final(cache).has(k) <==> old(cache).has(k) && outpoints_of(utxos@).contains(k),
        forall|k: OutPoint| #[trigger]
            final(cache).has(k) ==> final(cache).at(k) == old(cache).at(k),
{
    let mut i: usize = 0;
    let ghost before = *cache;
    while i < cache.entries.len()
        invariant
            i <= cache.entries.len(),
            before.well_formed(),
            cache.well_formed(),
            cache_keys_match(*cache),
            forall|j: int|
                0 <= j < i ==> outpoints_of(utxos@).contains((#[trigger] cache.entries@[j]).0),
            forall|k: OutPoint| #[trigger] cache.has(k) ==> before.has(k),
            forall|k: OutPoint| #[trigger] cache.has(k) ==> cache.at(k) == before.at(k),
            forall|k: OutPoint|
                before.has(k) && outpoints_of(utxos@).contains(k) ==> #[trigger] cache.has(k),
        decreases cache.entries.len() - i,
    {
        let key = cache.entries[i].0;
        let ghost now = *cache;
        if outpoint_listed(utxos, &key) {
            i += 1;
        } else {
            proof {
                now.lemma_slot(i as int);
            }
            let gone = cache.remove(&key);
            proof {
                assert(cache.entries@ == now.entries@.remove(i as int));
                assert forall|j: int| 0 <= j < cache.entries@.len() implies (
                #[trigger] cache.entries@[j]).0 == cache.entries@[j].1.0@.outpoint() by {
                    let origin = if j < i {
                        j
                    } else {
                        j + 1
                    };
                    assert(cache.entries@[j] == now.entries@[origin]);
                }
                assert forall|k: OutPoint| #[trigger] cache.has(k) implies before.has(k)
                    && cache.at(k) == before.at(k) by {
                    assert(k != key);
                    assert(now.has(k));
                }
                assert forall|k: OutPoint|
                    before.has(k) && outpoints_of(utxos@).contains(k) implies #[trigger] cache.has(
                    k,
                ) by {
                    assert(now.has(k));
                    assert(k != key);
                }
            }
        }
    }
    proof {
        assert forall|k: OutPoint| #[trigger] cache.has(k) implies outpoints_of(utxos@).contains(
            k,
        ) by {
            let j = cache.slot(k);
            assert(cache.entries@[j].0 == k);
        }
    }
}

impl<B: BlockchainBackend> Wallet<B> {
    /// The spend information of an output.
    fn classify(&self, utxo: &ListUnspentResultEntry) -> (info: Result<
        Option<UTXOSpendInfo>,
        WalletError,
    >)
        requires
            self.well_formed(),
        ensures
            info_view(info) == coin_info(self.store, self.rpc.local(), utxo@),
    {
        if let Some(bond) = self.check_if_fidelity(utxo) {
            return Ok(Some(bond));
        }
        if let Ok(Some(contract)) = self.check_and_derive_live_contract_spend_info(utxo) {
            return Ok(Some(contract));
        }
        self.check_and_derive_descriptor_utxo_or_swap_coin(utxo)
    }

    /// Whether every output of a list that the wallet does not know can be classified.
    pub fn can_update_utxo_cache(&self, utxos: &Vec<ListUnspentResultEntry>) -> (possible: bool)
        requires
            self.well_formed(),
        ensures
            possible == new_outputs_classifiable(self.store, self.rpc.local(), utxos@),
    {
        let mut i: usize = 0;
        while i < utxos.len()
            invariant
                self.well_formed(),
                i <= utxos.len(),
                forall|j: int|
                    0 <= j < i && !self.store.utxo_cache.has((#[trigger] utxos@[j])@.outpoint())
                        ==> coin_info(self.store, self.rpc.local(), utxos@[j]@) is Some,
            decreases utxos.len() - i,
        {
            if !self.store.utxo_cache.contains_key(&utxos[i].outpoint()) {
                if self.classify(&utxos[i]).is_err() {
                    assert(!self.store.utxo_cache.has(utxos@[i as int]@.outpoint()));
                    return false;
                }
            }
            i += 1;
        }
        true
    }

    /// Brings the cache of the wallet's coins up to date with a list of its unspent outputs.
    pub fn update_utxo_cache(&mut self, utxos: Vec<ListUnspentResultEntry>)
        requires
            old(self).well_formed(),
            new_outputs_classifiable(old(self).store, old(self).rpc.local(), utxos@),
        ensures
            final(self).well_formed(),
            final(self).rpc == old(self).rpc,
            final(self).store == (WalletStore {
                utxo_cache: final(self).store.utxo_cache,
                ..old(self).store
            }),
            cache_updated(
                final(self).store.utxo_cache,
                old(self).store,
                old(self).rpc.local(),
                utxos@,
            ),
    {
        let ghost start = self.store;
        let ghost before = self.store.utxo_cache;
        let ghost local = self.rpc.local();
        let ghost list = utxos@;
        let mut added: Vec<Coin> = Vec::new();
        let ghost mut sources: Seq<int> = Seq::empty();
        let mut i: usize = 0;
        while i < utxos.len()
            invariant
                *self == *old(self),
                start == self.store,
                before == start.utxo_cache,
                local == self.rpc.local(),
                list == utxos@,
                self.well_formed(),
                new_outputs_classifiable(start, local, list),
                i <= utxos.len(),
                sources.len() == added.len(),
                new_coins(added@, sources, start, local, list, i as int),
            decreases utxos.len() - i,
        {
            let outpoint = utxos[i].outpoint();
            let ghost so_far = added@;
            let ghost so_far_sources = sources;
            if !self.store.utxo_cache.contains_key(&outpoint) {
                if let Ok(Some(info)) = self.classify(&utxos[i]) {
                    added.push((utxos[i].clone(), info));
                    proof {
                        sources = sources.push(i as int);
                    }
                }
            }
            proof {
                if added@.len() > so_far.len() {
                    assert(added@.take(so_far.len() as int) =~= so_far);
                }
                lemma_new_coins_step(
                    so_far,
                    so_far_sources,
                    added@,
                    sources,
                    start,
                    local,
                    list,
                    i as int,
                );
            }
            i += 1;
        }
        drop_unlisted(&mut self.store.utxo_cache, &utxos);
        let ghost kept = self.store.utxo_cache;
        let mut n: usize = 0;
        while n < added.len()
            invariant
                n <= added.len(),
                self.rpc == old(self).rpc,
                self.store == (WalletStore { utxo_cache: self.store.utxo_cache, ..start }),
                self.store.utxo_cache.well_formed(),
                cache_keys_match(self.store.utxo_cache),
                sources.len() == added.len(),
                new_coins(added@, sources, start, local, list, list.len() as int),
                forall|k: OutPoint| #[trigger] kept.has(k) ==> start.utxo_cache.has(k),
                forall|k: OutPoint|
                    start.utxo_cache.has(k) ==> #[trigger] self.store.utxo_cache.has(k)
                        == kept.has(k),
                forall|k: OutPoint|
                    start.utxo_cache.has(k) && #[trigger] kept.has(k)
                        ==> self.store.utxo_cache.at(k) == kept.at(k),
                forall|k: OutPoint|
                    !start.utxo_cache.has(k) ==> (#[trigger] self.store.utxo_cache.has(k)
                        <==> last_added(added@, n as int, k) >= 0),
                forall|k: OutPoint|
                    !start.utxo_cache.has(k) && #[trigger] self.store.utxo_cache.has(k)
                        ==> self.store.utxo_cache.at(k)@ == added@[last_added(
                        added@,
                        n as int,
                        k,
                    )]@,
            decreases added.len() - n,
        {
            let coin = copy_coin(&added[n]);
            let key = coin.0.outpoint();
            let ghost earlier = self.store.utxo_cache;
            let ghost value = coin;
            assert(!start.utxo_cache.has(key)) by {
                assert(0 <= sources[n as int]);
                assert(!start.utxo_cache.has(added@[n as int].0@.outpoint()));
            }
            self.store.utxo_cache.insert(key, coin);
            proof {
                let now = self.store.utxo_cache;
                assert forall|j: int| 0 <= j < now.entries@.len() implies (
                #[trigger] now.entries@[j]).0 == now.entries@[j].1.0@.outpoint() by {
                    now.lemma_slot(j);
                    let k = now.entries@[j].0;
                    if k != key {
                        assert(earlier.has(k));
                        let e = earlier.slot(k);
                        assert(earlier.entries@[e].0 == k);
                        assert(now.at(k) == earlier.at(k));
                    }
                }
                assert forall|k: OutPoint| !start.utxo_cache.has(k) implies (#[trigger] now.has(k)
                    <==> last_added(added@, n + 1, k) >= 0) by {
                    if k != key {
                        assert(now.has(k) == earlier.has(k));
                    }
                }
                assert forall|k: OutPoint| !start.utxo_cache.has(k) && #[trigger] now.has(k) implies
                    now.at(k)@ == added@[last_added(added@, n + 1, k)]@ by {
                    if k != key {
                        assert(earlier.has(k));
                    }
                }
            }
            n += 1;
        }
        proof {
            lemma_cache_updated(
                self.store.utxo_cache,
                kept,
                start,
                local,
                list,
                added@,
                sources,
            );
        }
    }
}

/// The last of the first `n` coins at an outpoint, or -1 where there is none.
spec fn last_added(added: Seq<Coin>, n: int, k: OutPoint) -> int
    decreases n,
{
    if n <= 0 {
        -1
    } else if added[n - 1].0@.outpoint() == k {
        n - 1
    } else {
        last_added(added, n - 1, k)
    }
}

/// Whether the new coins are those of the first `n` outputs of a list that are not known and have
/// spend information, in order; `sources` gives their positions in the list.
spec fn new_coins(
    added: Seq<Coin>,
    sources: Seq<int>,
    store: WalletStore,
    local: LocalScripts,
    utxos: Seq<ListUnspentResultEntry>,
    n: int,
) -> bool {
    &&& sources.len() == added.len()
    &&& forall|a: int, b: int| 0 <= a < b < sources.len() ==> sources[a] < sources[b]
    &&& forall|a: int|
        0 <= a < added.len() ==> {
            let i = #[trigger] sources[a];
            &&& 0 <= i < n
            &&& coin_info(store, local, utxos[i]@) matches Some(Some(info)) && added[a]@ == (
                utxos[i]@,
                info,
            )
            &&& !store.utxo_cache.has(added[a].0@.outpoint())
        }
    &&& forall|i: int|
        0 <= i < n && !store.utxo_cache.has((#[trigger] utxos[i])@.outpoint()) && (coin_info(
            store,
            local,
            utxos[i]@,
        ) matches Some(Some(_))) ==> sources.contains(i)
}

proof fn lemma_new_coins_step(
    added: Seq<Coin>,
    sources: Seq<int>,
    added_after: Seq<Coin>,
    sources_after: Seq<int>,
    store: WalletStore,
    local: LocalScripts,
    utxos: Seq<ListUnspentResultEntry>,
    n: int,
)
    requires
        new_coins(added, sources, store, local, utxos, n),
        0 <= n < utxos.len(),
        !store.utxo_cache.has(utxos[n]@.outpoint()) && (coin_info(store, local, utxos[n]@)
            matches Some(Some(_))) ==> sources_after == sources.push(n) && added_after.len()
            == added.len() + 1 && added_after.take(added.len() as int) == added
            && added_after.last()@ == (
            utxos[n]@,
            coin_info(store, local, utxos[n]@)->Some_0->Some_0,
        ),
        store.utxo_cache.has(utxos[n]@.outpoint()) || !(coin_info(store, local, utxos[n]@)
            matches Some(Some(_))) ==> sources_after == sources && added_after == added,
    ensures
        new_coins(added_after, sources_after, store, local, utxos, n + 1),
{
    assert forall|a: int| 0 <= a < added_after.len() implies {
        let i = #[trigger] sources_after[a];
        &&& 0 <= i < n + 1
        &&& coin_info(store, local, utxos[i]@) matches Some(Some(info)) && added_after[a]@ == (
            utxos[i]@,
            info,
        )
        &&& !store.utxo_cache.has(added_after[a].0@.outpoint())
    } by {
        if a < added.len() {
            assert(sources_after[a] == sources[a]);
            assert(added_after[a] == added_after.take(added.len() as int)[a]);
        }
    }
    assert forall|i: int|
        0 <= i < n + 1 && !store.utxo_cache.has((#[trigger] utxos[i])@.outpoint()) && (coin_info(
            store,
            local,
            utxos[i]@,
        ) matches Some(Some(_))) implies sources_after.contains(i) by {
        if i < n {
            let a = choose|a: int| 0 <= a < sources.len() && sources[a] == i;
            assert(sources_after[a] == i);
        } else {
            assert(sources_after[sources.len() as int] == n);
        }
    }
}

proof fn lemma_last_added(added: Seq<Coin>, n: int, k: OutPoint)
    requires
        0 <= n <= added.len(),
    ensures
        last_added(added, n, k) < n,
        last_added(added, n, k) >= 0 ==> added[last_added(added, n, k)].0@.outpoint() == k,
        forall|a: int|
            last_added(added, n, k) < a < n && 0 <= a ==> (#[trigger] added[a]).0@.outpoint() != k,
    decreases n,
{
    if n > 0 {
        lemma_last_added(added, n - 1, k);
    }
}

proof fn lemma_cache_updated(
    after: AssocMap<OutPoint, Coin>,
    kept: AssocMap<OutPoint, Coin>,
    store: WalletStore,
    local: LocalScripts,
    utxos: Seq<ListUnspentResultEntry>,
    added: Seq<Coin>,
    sources: Seq<int>,
)
    requires
        after.well_formed(),
        cache_keys_match(after),
        new_coins(added, sources, store, local, utxos, utxos.len() as int),
        forall|k: OutPoint| #[trigger]
            kept.has(k) <==> store.utxo_cache.has(k) && outpoints_of(utxos).contains(k),
        forall|k: OutPoint| #[trigger] kept.has(k) ==> kept.at(k) == store.utxo_cache.at(k),
        forall|k: OutPoint| store.utxo_cache.has(k) ==> #[trigger] after.has(k) == kept.has(k),
        forall|k: OutPoint|
            store.utxo_cache.has(k) && #[trigger] kept.has(k) ==> after.at(k) == kept.at(k),
        forall|k: OutPoint|
            !store.utxo_cache.has(k) ==> (#[trigger] after.has(k) <==> last_added(
                added,
                added.len() as int,
                k,
            ) >= 0),
        forall|k: OutPoint|
            !store.utxo_cache.has(k) && #[trigger] after.has(k) ==> after.at(k)@
                == added[last_added(added, added.len() as int, k)]@,
    ensures
        cache_updated(after, store, local, utxos),
{
    let n = added.len() as int;
    assert forall|k: OutPoint| store.utxo_cache.has(k) && #[trigger] after.has(k) implies after.at(
        k,
    ) == store.utxo_cache.at(k) by {
        assert(kept.has(k));
    }
    assert forall|k: OutPoint| !store.utxo_cache.has(k) && #[trigger] after.has(k) implies exists|
        i: int,
    |
        {
            &&& #[trigger] learned_from(store, local, utxos, i)
            &&& utxos[i]@.outpoint() == k
            &&& after.at(k)@ == (utxos[i]@, coin_info(store, local, utxos[i]@)->Some_0->Some_0)
        } by {
        lemma_last_added(added, n, k);
        let a = last_added(added, n, k);
        let i = sources[a];
        assert(added[a]@.0 == utxos[i]@);
        assert forall|j: int|
            i < j < utxos.len() && (#[trigger] utxos[j])@.outpoint() == utxos[i]@.outpoint() implies !(
        coin_info(store, local, utxos[j]@) matches Some(Some(_))) by {
            if coin_info(store, local, utxos[j]@) matches Some(Some(_)) {
                assert(sources.contains(j));
                let b = choose|b: int| 0 <= b < sources.len() && sources[b] == j;
                if b < a {
                    assert(sources[b] < sources[a]);
                }
                assert(b > a);
                assert(added[b]@.0 == utxos[sources[b]]@);
                assert(added[b].0@.outpoint() == k);
            }
        }
        assert(learned_from(store, local, utxos, i));
    }
    assert forall|k: OutPoint| !store.utxo_cache.has(k) implies (#[trigger] after.has(k)
        <==> exists|i: int| #[trigger]
        learned_from(store, local, utxos, i) && utxos[i]@.outpoint() == k) by {
        if exists|i: int| #[trigger]
            learned_from(store, local, utxos, i) && utxos[i]@.outpoint() == k {
            let i = choose|i: int| #[trigger]
                learned_from(store, local, utxos, i) && utxos[i]@.outpoint() == k;
            assert(sources.contains(i));
            let a = choose|a: int| 0 <= a < sources.len() && sources[a] == i;
            assert(added[a]@.0 == utxos[sources[a]]@);
            lemma_last_added(added, n, k);
            assert(last_added(added, n, k) >= 0);
        }
    }
}

/// Whether no fidelity bond is the given output.
pub open spec fn is_no_bond(store: WalletStore, utxo: UtxoView) -> bool {
    forall|i: int|
        0 <= i < store.fidelity_bond@.len() ==> !(p2wsh_bytes(
            (#[trigger] store.fidelity_bond@[i]).redeem_script@,
        ) == utxo.script_pub_key && store.fidelity_bond@[i].amount == utxo.amount)
}

/// Whether the given output is no contract of a sent coin, nor one of a received coin whose preimage is
/// known.
pub open spec fn is_no_live_contract(store: WalletStore, utxo: UtxoView) -> bool {
    &&& forall|i: int|
        0 <= i < store.outgoing_swapcoins.entries@.len() ==> !(txid_of(
            (#[trigger] store.outgoing_swapcoins.entries@[i]).1.contract_tx@,
        ) == utxo.txid && store.outgoing_swapcoins.entries@[i].1.contract_vout == utxo.vout)
    &&& forall|i: int|
        0 <= i < store.incoming_swapcoins.entries@.len() ==> !(txid_of(
            (#[trigger] store.incoming_swapcoins.entries@[i]).1.contract_tx@,
        ) == utxo.txid && store.incoming_swapcoins.entries@[i].1.contract_vout == utxo.vout
            && store.incoming_swapcoins.entries@[i].1.hash_preimage is Some)
}

/// Whether the two keys of a swap coin make the two-of-two output with the given script.
pub open spec fn makes_multisig(
    mine: Option<PublicKey>,
    other: Option<PublicKey>,
    script: Seq<u8>,
) -> bool {
    &&& mine is Some
    &&& other is Some
    &&& p2wsh_bytes(multisig_script(mine->Some_0@, other->Some_0@)) == script
}

proof fn lemma_no_bond(store: WalletStore, utxo: UtxoView, i: int)
    requires
        is_no_bond(store, utxo),
        0 <= i,
    ensures
        fidelity_from(views(store.fidelity_bond@), utxo, i) is None,
    decreases store.fidelity_bond@.len() - i,
{
    let bonds = views(store.fidelity_bond@);
    if i < bonds.len() {
        assert(bonds[i] == store.fidelity_bond@[i]@);
        lemma_no_bond(store, utxo, i + 1);
    }
}

proof fn lemma_no_timelock(store: WalletStore, utxo: UtxoView, i: int)
    requires
        is_no_live_contract(store, utxo),
        0 <= i,
    ensures
        timelock_from(store.outgoing_swapcoins.entries@, utxo, i) is None,
    decreases store.outgoing_swapcoins.entries@.len() - i,
{
    if i < store.outgoing_swapcoins.entries@.len() {
        let coin = store.outgoing_swapcoins.entries@[i].1@;
        lemma_no_timelock(store, utxo, i + 1);
    }
}

proof fn lemma_no_hashlock(store: WalletStore, utxo: UtxoView, i: int)
    requires
        is_no_live_contract(store, utxo),
        0 <= i,
    ensures
        hashlock_from(store.incoming_swapcoins.entries@, utxo, i) is None,
    decreases store.incoming_swapcoins.entries@.len() - i,
{
    if i < store.incoming_swapcoins.entries@.len() {
        let coin = store.incoming_swapcoins.entries@[i].1@;
        lemma_no_hashlock(store, utxo, i + 1);
    }
}

/// What is neither a bond nor a live contract is classified as the wallet's own coin or not at all.
proof fn lemma_own_coin(store: WalletStore, local: LocalScripts, utxo: UtxoView)
    requires
        is_no_bond(store, utxo),
        is_no_live_contract(store, utxo),
    ensures
        coin_info(store, local, utxo) == own_info(store, local, utxo),
{
    lemma_no_bond(store, utxo, 0);
    lemma_no_timelock(store, utxo, 0);
    lemma_no_hashlock(store, utxo, 0);
}

/// An output whose script the backend places in the wallet, with the fingerprint of the wallet's account key
/// of that type, is a regular coin at that place, with the output's amount, for either address type.
pub proof fn law_placed_output_is_regular(
    store: WalletStore,
    local: LocalScripts,
    utxo: UtxoView,
    address_type: AddressType,
    account: Seq<u8>,
)
    requires
        local.origins.contains_key(utxo.script_pub_key),
        !views(store.swept_incoming_swapcoins@).contains(utxo.script_pub_key),
        local.origins[utxo.script_pub_key].is_taproot == (address_type == AddressType::P2TR),
        is_account_key(store.master_key@, address_type, account),
        key_fingerprint(account) == Some(local.origins[utxo.script_pub_key].fingerprint),
    ensures
        own_info(store, local, utxo) == Some(
            Some(
                SpendInfoView::SeedCoin {
                    path: "m/"@ + decimal(
                        local.origins[utxo.script_pub_key].keychain_idx as nat,
                    ) + "/"@ + decimal(local.origins[utxo.script_pub_key].index as nat),
                    input_value: utxo.amount,
                    address_type,
                },
            ),
        ),
        is_no_bond(store, utxo) && is_no_live_contract(store, utxo) ==> coin_info(store, local, utxo)
            == own_info(store, local, utxo),
{
    if is_no_bond(store, utxo) && is_no_live_contract(store, utxo) {
        lemma_own_coin(store, local, utxo);
    }
}

/// An output at a script that a swap coin was swept to is a swept coin at the place where the backend knows
/// it, where its descriptor gives none.
pub proof fn law_placed_output_is_swept(
    store: WalletStore,
    local: LocalScripts,
    utxo: UtxoView,
    address_type: AddressType,
)
    requires
        local.origins.contains_key(utxo.script_pub_key),
        views(store.swept_incoming_swapcoins@).contains(utxo.script_pub_key),
        local.origins[utxo.script_pub_key].is_taproot == (address_type == AddressType::P2TR),
        utxo.descriptor is None || spec_hd_path(utxo.descriptor->Some_0) is None,
    ensures
        own_info(store, local, utxo) == Some(
            Some(
                SpendInfoView::SweptCoin {
                    path: "m/"@ + decimal(
                        local.origins[utxo.script_pub_key].keychain_idx as nat,
                    ) + "/"@ + decimal(local.origins[utxo.script_pub_key].index as nat),
                    input_value: utxo.amount,
                    address_type,
                },
            ),
        ),
        is_no_bond(store, utxo) && is_no_live_contract(store, utxo) ==> coin_info(store, local, utxo)
            == own_info(store, local, utxo),
{
    if is_no_bond(store, utxo) && is_no_live_contract(store, utxo) {
        lemma_own_coin(store, local, utxo);
    }
}

/// An output whose descriptor gives its place is a coin of the seed at that place, with the output's amount:
/// a swept coin at a script that a swap coin was swept to, else a regular coin where the descriptor has the
/// fingerprint of the wallet's account key. A descriptor that begins with `tr(` is of a P2TR coin, another
/// of a P2WPKH coin.
pub proof fn law_described_output_is_own(
    store: WalletStore,
    local: LocalScripts,
    utxo: UtxoView,
    descriptor: Seq<char>,
    fingerprint: Seq<char>,
    chain: u32,
    index: i32,
    address_type: AddressType,
    account: Seq<u8>,
)
    requires
        utxo.descriptor == Some(descriptor),
        spec_hd_path(descriptor) == Some((fingerprint, chain, index)),
        "tr("@.is_prefix_of(descriptor) == (address_type == AddressType::P2TR),
        is_account_key(store.master_key@, address_type, account),
        key_fingerprint(account) == Some(fingerprint),
        0 <= index,
    ensures
        views(store.swept_incoming_swapcoins@).contains(utxo.script_pub_key) ==> own_info(
            store,
            local,
            utxo,
        ) == Some(
            Some(
                SpendInfoView::SweptCoin {
                    path: "m/"@ + decimal(chain as nat) + "/"@ + decimal(index as nat),
                    input_value: utxo.amount,
                    address_type,
                },
            ),
        ),
        !views(store.swept_incoming_swapcoins@).contains(utxo.script_pub_key)
            && !local.origins.contains_key(utxo.script_pub_key) && utxo.witness_script is Some
            ==> own_info(store, local, utxo) == Some(
            Some(
                SpendInfoView::SeedCoin {
                    path: "m/"@ + decimal(chain as nat) + "/"@ + decimal(index as nat),
                    input_value: utxo.amount,
                    address_type,
                },
            ),
        ),
        !views(store.swept_incoming_swapcoins@).contains(utxo.script_pub_key)
            && !local.origins.contains_key(utxo.script_pub_key) && is_no_multisig(store, utxo)
            ==> own_info(store, local, utxo) == Some(
            Some(
                SpendInfoView::SeedCoin {
                    path: "m/"@ + decimal(chain as nat) + "/"@ + decimal(index as nat),
                    input_value: utxo.amount,
                    address_type,
                },
            ),
        ),
{
    if is_no_multisig(store, utxo) {
        lemma_no_multisig(store, utxo, 0);
    }
    assert(signed_decimal(index as int) =~= decimal(index as nat));
}

/// Whether the given output is no two-of-two output of a swap coin that the wallet can spend or has spent.
pub open spec fn is_no_multisig(store: WalletStore, utxo: UtxoView) -> bool {
    &&& forall|i: int|
        0 <= i < store.incoming_swapcoins.entries@.len() ==> !spends_multisig(
            (#[trigger] store.incoming_swapcoins.entries@[i]).1,
            utxo.script_pub_key,
        )
    &&& forall|i: int|
        0 <= i < store.outgoing_swapcoins.entries@.len() ==> !spent_multisig(
            (#[trigger] store.outgoing_swapcoins.entries@[i]).1,
            utxo.script_pub_key,
        )
}

/// Whether a received coin is a legacy coin with the given two-of-two script, whose other private key was
/// handed over.
pub open spec fn spends_multisig(coin: IncomingSwapCoin, script: Seq<u8>) -> bool {
    &&& coin.protocol == ProtocolVersion::Legacy
    &&& coin.other_privkey is Some
    &&& makes_multisig(coin.my_pubkey, coin.other_pubkey, script)
}

/// Whether a sent coin is a legacy coin with the given two-of-two script, whose preimage is known.
pub open spec fn spent_multisig(coin: OutgoingSwapCoin, script: Seq<u8>) -> bool {
    &&& coin.protocol == ProtocolVersion::Legacy
    &&& coin.hash_preimage is Some
    &&& makes_multisig(coin.my_pubkey, coin.other_pubkey, script)
}

proof fn lemma_no_multisig(store: WalletStore, utxo: UtxoView, i: int)
    requires
        is_no_multisig(store, utxo),
        0 <= i,
    ensures
        incoming_from(store.incoming_swapcoins.entries@, utxo.script_pub_key, i) is None,
        outgoing_from(store.outgoing_swapcoins.entries@, utxo.script_pub_key, i) is None,
    decreases
            store.incoming_swapcoins.entries@.len() + store.outgoing_swapcoins.entries@.len()
                - i,
{
    if i < store.incoming_swapcoins.entries@.len() || i < store.outgoing_swapcoins.entries@.len() {
        lemma_no_multisig(store, utxo, i + 1);
        if i < store.incoming_swapcoins.entries@.len() {
            let coin = store.incoming_swapcoins.entries@[i].1;
            assert(!spends_multisig(coin, utxo.script_pub_key));
            assert(coin@.my_pubkey == option_view(coin.my_pubkey));
        }
        if i < store.outgoing_swapcoins.entries@.len() {
            let coin = store.outgoing_swapcoins.entries@[i].1;
            assert(!spent_multisig(coin, utxo.script_pub_key));
            assert(coin@.my_pubkey == option_view(coin.my_pubkey));
        }
    }
}

/// An output of the amount and with the script of a fidelity bond is that bond, the first such one: never a
/// coin that can be spent.
pub proof fn law_bond_is_recognised(
    store: WalletStore,
    local: LocalScripts,
    utxo: UtxoView,
    i: int,
)
    requires
        0 <= i < store.fidelity_bond@.len(),
        store.fidelity_bond@.len() <= u32::MAX,
        p2wsh_bytes(store.fidelity_bond@[i].redeem_script@) == utxo.script_pub_key,
        store.fidelity_bond@[i].amount == utxo.amount,
        forall|j: int|
            0 <= j < i ==> !(p2wsh_bytes((#[trigger] store.fidelity_bond@[j]).redeem_script@)
                == utxo.script_pub_key && store.fidelity_bond@[j].amount == utxo.amount),
    ensures
        coin_info(store, local, utxo) == Some(
            Some(
                SpendInfoView::FidelityBondCoin { index: i as u32, input_value: utxo.amount },
            ),
        ),
{
    lemma_bond_at(store, utxo, i, 0);
}

proof fn lemma_bond_at(store: WalletStore, utxo: UtxoView, i: int, from: int)
    requires
        0 <= from <= i < store.fidelity_bond@.len(),
        store.fidelity_bond@.len() <= u32::MAX,
        p2wsh_bytes(store.fidelity_bond@[i].redeem_script@) == utxo.script_pub_key,
        store.fidelity_bond@[i].amount == utxo.amount,
        forall|j: int|
            0 <= j < i ==> !(p2wsh_bytes((#[trigger] store.fidelity_bond@[j]).redeem_script@)
                == utxo.script_pub_key && store.fidelity_bond@[j].amount == utxo.amount),
    ensures
        fidelity_from(views(store.fidelity_bond@), utxo, from) == Some(
            SpendInfoView::FidelityBondCoin { index: i as u32, input_value: utxo.amount },
        ),
    decreases i - from,
{
    let bonds = views(store.fidelity_bond@);
    assert(bonds[from] == store.fidelity_bond@[from]@);
    if from < i {
        assert(!(p2wsh_bytes(store.fidelity_bond@[from].redeem_script@) == utxo.script_pub_key
            && store.fidelity_bond@[from].amount == utxo.amount));
        lemma_bond_at(store, utxo, i, from + 1);
    }
}

/// The contract output of a sent coin is a timelock contract, with the coin's contract script and the
/// output's amount.
pub proof fn law_sent_contract_is_recognised(
    store: WalletStore,
    local: LocalScripts,
    utxo: UtxoView,
    i: int,
)
    requires
        is_no_bond(store, utxo),
        0 <= i < store.outgoing_swapcoins.entries@.len(),
        txid_of(store.outgoing_swapcoins.entries@[i].1.contract_tx@) == utxo.txid,
        store.outgoing_swapcoins.entries@[i].1.contract_vout == utxo.vout,
        forall|j: int|
            0 <= j < i ==> !(txid_of(
                (#[trigger] store.outgoing_swapcoins.entries@[j]).1.contract_tx@,
            ) == utxo.txid && store.outgoing_swapcoins.entries@[j].1.contract_vout == utxo.vout),
    ensures
        coin_info(store, local, utxo) == Some(
            Some(
                SpendInfoView::TimelockContract {
                    swapcoin_multisig_redeemscript: match store.outgoing_swapcoins.entries@[i].1.contract_redeemscript {
                        Some(script) => script@,
                        None => Seq::empty(),
                    },
                    input_value: utxo.amount,
                },
            ),
        ),
{
    lemma_no_bond(store, utxo, 0);
    lemma_timelock_at(store, utxo, i, 0);
}

proof fn lemma_timelock_at(store: WalletStore, utxo: UtxoView, i: int, from: int)
    requires
        0 <= from <= i < store.outgoing_swapcoins.entries@.len(),
        txid_of(store.outgoing_swapcoins.entries@[i].1.contract_tx@) == utxo.txid,
        store.outgoing_swapcoins.entries@[i].1.contract_vout == utxo.vout,
        forall|j: int|
            0 <= j < i ==> !(txid_of(
                (#[trigger] store.outgoing_swapcoins.entries@[j]).1.contract_tx@,
            ) == utxo.txid && store.outgoing_swapcoins.entries@[j].1.contract_vout == utxo.vout),
    ensures
        timelock_from(store.outgoing_swapcoins.entries@, utxo, from) == Some(
            SpendInfoView::TimelockContract {
                swapcoin_multisig_redeemscript: match store.outgoing_swapcoins.entries@[i].1.contract_redeemscript {
                    Some(script) => script@,
                    None => Seq::empty(),
                },
                input_value: utxo.amount,
            },
        ),
    decreases i - from,
{
    let coin = store.outgoing_swapcoins.entries@[from].1@;
    if from < i {
        lemma_timelock_at(store, utxo, i, from + 1);
    }
}

/// The contract output of a received coin whose preimage is known is a hashlock contract, with the coin's
/// contract script and the output's amount, where it is no contract of a sent coin.
pub proof fn law_received_contract_is_recognised(
    store: WalletStore,
    local: LocalScripts,
    utxo: UtxoView,
    i: int,
)
    requires
        is_no_bond(store, utxo),
        forall|j: int|
            0 <= j < store.outgoing_swapcoins.entries@.len() ==> !(txid_of(
                (#[trigger] store.outgoing_swapcoins.entries@[j]).1.contract_tx@,
            ) == utxo.txid && store.outgoing_swapcoins.entries@[j].1.contract_vout == utxo.vout),
        0 <= i < store.incoming_swapcoins.entries@.len(),
        txid_of(store.incoming_swapcoins.entries@[i].1.contract_tx@) == utxo.txid,
        store.incoming_swapcoins.entries@[i].1.contract_vout == utxo.vout,
        store.incoming_swapcoins.entries@[i].1.hash_preimage is Some,
        forall|j: int|
            0 <= j < i ==> !(txid_of(
                (#[trigger] store.incoming_swapcoins.entries@[j]).1.contract_tx@,
            ) == utxo.txid && store.incoming_swapcoins.entries@[j].1.contract_vout == utxo.vout
                && store.incoming_swapcoins.entries@[j].1.hash_preimage is Some),
    ensures
        coin_info(store, local, utxo) == Some(
            Some(
                SpendInfoView::HashlockContract {
                    swapcoin_multisig_redeemscript: match store.incoming_swapcoins.entries@[i].1.contract_redeemscript {
                        Some(script) => script@,
                        None => Seq::empty(),
                    },
                    input_value: utxo.amount,
                },
            ),
        ),
{
    lemma_no_bond(store, utxo, 0);
    lemma_only_received(store, utxo, 0);
    lemma_hashlock_at(store, utxo, i, 0);
}

proof fn lemma_only_received(store: WalletStore, utxo: UtxoView, i: int)
    requires
        forall|j: int|
            0 <= j < store.outgoing_swapcoins.entries@.len() ==> !(txid_of(
                (#[trigger] store.outgoing_swapcoins.entries@[j]).1.contract_tx@,
            ) == utxo.txid && store.outgoing_swapcoins.entries@[j].1.contract_vout == utxo.vout),
        0 <= i,
    ensures
        timelock_from(store.outgoing_swapcoins.entries@, utxo, i) is None,
    decreases store.outgoing_swapcoins.entries@.len() - i,
{
    if i < store.outgoing_swapcoins.entries@.len() {
        let coin = store.outgoing_swapcoins.entries@[i].1@;
        lemma_only_received(store, utxo, i + 1);
    }
}

proof fn lemma_hashlock_at(store: WalletStore, utxo: UtxoView, i: int, from: int)
    requires
        0 <= from <= i < store.incoming_swapcoins.entries@.len(),
        txid_of(store.incoming_swapcoins.entries@[i].1.contract_tx@) == utxo.txid,
        store.incoming_swapcoins.entries@[i].1.contract_vout == utxo.vout,
        store.incoming_swapcoins.entries@[i].1.hash_preimage is Some,
        forall|j: int|
            0 <= j < i ==> !(txid_of(
                (#[trigger] store.incoming_swapcoins.entries@[j]).1.contract_tx@,
            ) == utxo.txid && store.incoming_swapcoins.entries@[j].1.contract_vout == utxo.vout
                && store.incoming_swapcoins.entries@[j].1.hash_preimage is Some),
    ensures
        hashlock_from(store.incoming_swapcoins.entries@, utxo, from) == Some(
            SpendInfoView::HashlockContract {
                swapcoin_multisig_redeemscript: match store.incoming_swapcoins.entries@[i].1.contract_redeemscript {
                    Some(script) => script@,
                    None => Seq::empty(),
                },
                input_value: utxo.amount,
            },
        ),
    decreases i - from,
{
    let coin = store.incoming_swapcoins.entries@[from].1@;
    if from < i {
        lemma_hashlock_at(store, utxo, i, from + 1);
    }
}

/// An output that the backend does not place in the wallet, and that is locked by the two-of-two script of a
/// received legacy coin whose other private key was handed over, is that coin, where the backend gives no
/// witness script.
pub proof fn law_received_coin_is_recognised(
    store: WalletStore,
    local: LocalScripts,
    utxo: UtxoView,
    i: int,
)
    requires
        !local.origins.contains_key(utxo.script_pub_key),
        !views(store.swept_incoming_swapcoins@).contains(utxo.script_pub_key),
        utxo.witness_script is None,
        0 <= i < store.incoming_swapcoins.entries@.len(),
        spends_multisig(store.incoming_swapcoins.entries@[i].1, utxo.script_pub_key),
        forall|j: int|
            0 <= j < i ==> !spends_multisig(
                (#[trigger] store.incoming_swapcoins.entries@[j]).1,
                utxo.script_pub_key,
            ),
    ensures
        own_info(store, local, utxo) == Some(
            Some(
                SpendInfoView::IncomingSwapCoin {
                    multisig_redeemscript: multisig_script(
                        store.incoming_swapcoins.entries@[i].1.my_pubkey->Some_0@,
                        store.incoming_swapcoins.entries@[i].1.other_pubkey->Some_0@,
                    ),
                },
            ),
        ),
        is_no_bond(store, utxo) && is_no_live_contract(store, utxo) ==> coin_info(store, local, utxo)
            == own_info(store, local, utxo),
{
    lemma_incoming_at(store, utxo, i, 0);
    if is_no_bond(store, utxo) && is_no_live_contract(store, utxo) {
        lemma_own_coin(store, local, utxo);
    }
}

proof fn lemma_incoming_at(store: WalletStore, utxo: UtxoView, i: int, from: int)
    requires
        0 <= from <= i < store.incoming_swapcoins.entries@.len(),
        spends_multisig(store.incoming_swapcoins.entries@[i].1, utxo.script_pub_key),
        forall|j: int|
            0 <= j < i ==> !spends_multisig(
                (#[trigger] store.incoming_swapcoins.entries@[j]).1,
                utxo.script_pub_key,
            ),
    ensures
        incoming_from(store.incoming_swapcoins.entries@, utxo.script_pub_key, from) == Some(
            SpendInfoView::IncomingSwapCoin {
                multisig_redeemscript: multisig_script(
                    store.incoming_swapcoins.entries@[i].1.my_pubkey->Some_0@,
                    store.incoming_swapcoins.entries@[i].1.other_pubkey->Some_0@,
                ),
            },
        ),
    decreases i - from,
{
    let coin = store.incoming_swapcoins.entries@[from].1;
    assert(coin@.my_pubkey == option_view(coin.my_pubkey));
    if from < i {
        assert(!spends_multisig(coin, utxo.script_pub_key));
        lemma_incoming_at(store, utxo, i, from + 1);
    }
}

/// Likewise, an output that is locked by the two-of-two script of a sent legacy coin whose preimage is known
/// is that coin, where it is no received coin.
pub proof fn law_sent_coin_is_recognised(
    store: WalletStore,
    local: LocalScripts,
    utxo: UtxoView,
    i: int,
)
    requires
        !local.origins.contains_key(utxo.script_pub_key),
        !views(store.swept_incoming_swapcoins@).contains(utxo.script_pub_key),
        utxo.witness_script is None,
        forall|j: int|
            0 <= j < store.incoming_swapcoins.entries@.len() ==> !spends_multisig(
                (#[trigger] store.incoming_swapcoins.entries@[j]).1,
                utxo.script_pub_key,
            ),
        0 <= i < store.outgoing_swapcoins.entries@.len(),
        spent_multisig(store.outgoing_swapcoins.entries@[i].1, utxo.script_pub_key),
        forall|j: int|
            0 <= j < i ==> !spent_multisig(
                (#[trigger] store.outgoing_swapcoins.entries@[j]).1,
                utxo.script_pub_key,
            ),
    ensures
        own_info(store, local, utxo) == Some(
            Some(
                SpendInfoView::OutgoingSwapCoin {
                    multisig_redeemscript: multisig_script(
                        store.outgoing_swapcoins.entries@[i].1.my_pubkey->Some_0@,
                        store.outgoing_swapcoins.entries@[i].1.other_pubkey->Some_0@,
                    ),
                },
            ),
        ),
{
    lemma_not_received(store, utxo, 0);
    lemma_outgoing_at(store, utxo, i, 0);
}

proof fn lemma_not_received(store: WalletStore, utxo: UtxoView, i: int)
    requires
        forall|j: int|
            0 <= j < store.incoming_swapcoins.entries@.len() ==> !spends_multisig(
                (#[trigger] store.incoming_swapcoins.entries@[j]).1,
                utxo.script_pub_key,
            ),
        0 <= i,
    ensures
        incoming_from(store.incoming_swapcoins.entries@, utxo.script_pub_key, i) is None,
    decreases store.incoming_swapcoins.entries@.len() - i,
{
    if i < store.incoming_swapcoins.entries@.len() {
        let coin = store.incoming_swapcoins.entries@[i].1;
        assert(coin@.my_pubkey == option_view(coin.my_pubkey));
        assert(!spends_multisig(coin, utxo.script_pub_key));
        lemma_not_received(store, utxo, i + 1);
    }
}

proof fn lemma_outgoing_at(store: WalletStore, utxo: UtxoView, i: int, from: int)
    requires
        0 <= from <= i < store.outgoing_swapcoins.entries@.len(),
        spent_multisig(store.outgoing_swapcoins.entries@[i].1, utxo.script_pub_key),
        forall|j: int|
            0 <= j < i ==> !spent_multisig(
                (#[trigger] store.outgoing_swapcoins.entries@[j]).1,
                utxo.script_pub_key,
            ),
    ensures
        outgoing_from(store.outgoing_swapcoins.entries@, utxo.script_pub_key, from) == Some(
            SpendInfoView::OutgoingSwapCoin {
                multisig_redeemscript: multisig_script(
                    store.outgoing_swapcoins.entries@[i].1.my_pubkey->Some_0@,
                    store.outgoing_swapcoins.entries@[i].1.other_pubkey->Some_0@,
                ),
            },
        ),
    decreases i - from,
{
    let coin = store.outgoing_swapcoins.entries@[from].1;
    assert(coin@.my_pubkey == option_view(coin.my_pubkey));
    if from < i {
        assert(!spent_multisig(coin, utxo.script_pub_key));
        lemma_outgoing_at(store, utxo, i, from + 1);
    }
}

/// An output that nothing places in the wallet is no coin of the wallet: its script was not swept to and is
/// not known to the backend, it is no bond, no live contract and no two-of-two output, and the backend
/// describes it by no descriptor.
pub proof fn law_foreign_output_is_no_coin(
    store: WalletStore,
    local: LocalScripts,
    utxo: UtxoView,
)
    requires
        !local.origins.contains_key(utxo.script_pub_key),
        !views(store.swept_incoming_swapcoins@).contains(utxo.script_pub_key),
        is_no_bond(store, utxo),
        is_no_live_contract(store, utxo),
        is_no_multisig(store, utxo),
        utxo.descriptor is None,
    ensures
        coin_info(store, local, utxo) == Some(None::<SpendInfoView>),
{
    lemma_own_coin(store, local, utxo);
    lemma_no_multisig(store, utxo, 0);
}

/// An output with the fingerprint of another wallet is not taken for a regular coin.
pub proof fn law_other_wallets_output_is_not_regular(
    store: WalletStore,
    local: LocalScripts,
    utxo: UtxoView,
    path: Seq<char>,
    amount: u64,
    address_type: AddressType,
)
    requires
        own_info(store, local, utxo) == Some(
            Some(SpendInfoView::SeedCoin { path, input_value: amount, address_type }),
        ),
    ensures
        amount == utxo.amount,
        exists|account: Seq<u8>| #[trigger]
            is_account_key(store.master_key@, address_type, account) && key_fingerprint(account)
                is Some && ((local.origins.contains_key(utxo.script_pub_key) && key_fingerprint(
                account,
            ) == Some(local.origins[utxo.script_pub_key].fingerprint)) || (utxo.descriptor is Some
                && spec_hd_path(utxo.descriptor->Some_0) is Some && key_fingerprint(account)
                == Some(spec_hd_path(utxo.descriptor->Some_0)->Some_0.0))),
        !views(store.swept_incoming_swapcoins@).contains(utxo.script_pub_key),
{
    lemma_from_scripts(store, utxo, 0);
    let account = account_key(store.master_key@, address_type)->Some_0;
    assert(is_account_key(store.master_key@, address_type, account));
    if views(store.swept_incoming_swapcoins@).contains(utxo.script_pub_key) {
        law_swept_output_is_not_regular(store, local, utxo);
    }
}

/// The account key of an address type: that at the hardened path of the type below the master key.
pub open spec fn is_account_key(
    master: Seq<u8>,
    address_type: AddressType,
    account: Seq<u8>,
) -> bool {
    let hardened = parsed_path(
        if address_type == AddressType::P2TR {
            "m/86'/1'/0'"@
        } else {
            "m/84'/1'/0'"@
        },
    );
    hardened is Some && derived_key(master, hardened->Some_0) == Some(account)
}

/// After an update the wallet knows exactly the coins that are listed: one that it knew is kept as it was
/// while it is listed and gone once it is not, and a new one is known with what it was classified as. An
/// output that is no coin of the wallet is not known.
pub proof fn law_update_follows_the_list(
    after: AssocMap<OutPoint, Coin>,
    store: WalletStore,
    local: LocalScripts,
    utxos: Seq<ListUnspentResultEntry>,
    i: int,
    info: SpendInfoView,
)
    requires
        cache_updated(after, store, local, utxos),
        0 <= i < utxos.len(),
        forall|j: int, k: int|
            0 <= j < k < utxos.len() ==> (#[trigger] utxos[j])@.outpoint() != (
            #[trigger] utxos[k])@.outpoint(),
    ensures
        store.utxo_cache.has(utxos[i]@.outpoint()) ==> after.has(utxos[i]@.outpoint()) && after.at(
            utxos[i]@.outpoint(),
        ) == store.utxo_cache.at(utxos[i]@.outpoint()),
        !store.utxo_cache.has(utxos[i]@.outpoint()) && coin_info(store, local, utxos[i]@) == Some(
            Some(info),
        ) ==> after.has(utxos[i]@.outpoint()) && after.at(utxos[i]@.outpoint())@ == (
            utxos[i]@,
            info,
        ),
        !store.utxo_cache.has(utxos[i]@.outpoint()) && coin_info(store, local, utxos[i]@) == Some(
            None::<SpendInfoView>,
        ) ==> !after.has(utxos[i]@.outpoint()),
        forall|k: OutPoint|
            #[trigger] after.has(k) ==> exists|j: int|
                0 <= j < utxos.len() && (#[trigger] utxos[j])@.outpoint() == k,
{
    let k = utxos[i]@.outpoint();
    assert(outpoints_of(utxos)[i] == k);
    assert(outpoints_of(utxos).contains(k));
    if !store.utxo_cache.has(k) {
        if coin_info(store, local, utxos[i]@) matches Some(Some(_)) {
            assert(learned_from(store, local, utxos, i));
            assert(after.has(k));
            let j = choose|j: int|
                {
                    &&& #[trigger] learned_from(store, local, utxos, j)
                    &&& utxos[j]@.outpoint() == k
                    &&& after.at(k)@ == (
                        utxos[j]@,
                        coin_info(store, local, utxos[j]@)->Some_0->Some_0,
                    )
                };
            assert(i == j) by {
                if i < j {
                    assert(utxos[i]@.outpoint() != utxos[j]@.outpoint());
                } else if j < i {
                    assert(utxos[j]@.outpoint() != utxos[i]@.outpoint());
                }
            }
        } else if after.has(k) {
            let j = choose|j: int| #[trigger]
                learned_from(store, local, utxos, j) && utxos[j]@.outpoint() == k;
            assert(i == j) by {
                if i < j {
                    assert(utxos[i]@.outpoint() != utxos[j]@.outpoint());
                } else if j < i {
                    assert(utxos[j]@.outpoint() != utxos[i]@.outpoint());
                }
            }
        }
    }
    assert forall|k: OutPoint| #[trigger] after.has(k) implies exists|j: int|
        0 <= j < utxos.len() && (#[trigger] utxos[j])@.outpoint() == k by {
        if store.utxo_cache.has(k) {
            let list = outpoints_of(utxos);
            assert(list.contains(k));
            let j = choose|j: int| 0 <= j < list.len() && list[j] == k;
            assert(utxos[j]@.outpoint() == k);
        } else {
            let j = choose|j: int| #[trigger]
                learned_from(store, local, utxos, j) && utxos[j]@.outpoint() == k;
            assert(utxos[j]@.outpoint() == k);
        }
    }
}

/// An output whose witness script the backend gives, beside a descriptor that names no place, is the two-of-two
/// output of the first received legacy coin with that redeem script, where the other private key of that coin was
/// handed over; or else of the first such sent coin, where its preimage is known.
pub proof fn law_witness_script_tells_the_coin(
    store: WalletStore,
    local: LocalScripts,
    utxo: UtxoView,
    i: int,
)
    requires
        !local.origins.contains_key(utxo.script_pub_key),
        !views(store.swept_incoming_swapcoins@).contains(utxo.script_pub_key),
        utxo.witness_script is Some,
        utxo.descriptor is Some,
        spec_hd_path(utxo.descriptor->Some_0) is None,
    ensures
        0 <= i < store.incoming_swapcoins.entries@.len() && received_by(
            store.incoming_swapcoins.entries@[i].1,
            utxo.witness_script->Some_0,
        ) && store.incoming_swapcoins.entries@[i].1.other_privkey is Some && (forall|j: int|
            0 <= j < i ==> !received_by(
                (#[trigger] store.incoming_swapcoins.entries@[j]).1,
                utxo.witness_script->Some_0,
            )) ==> own_info(store, local, utxo) == Some(
            Some(
                SpendInfoView::IncomingSwapCoin {
                    multisig_redeemscript: utxo.witness_script->Some_0,
                },
            ),
        ),
        0 <= i < store.outgoing_swapcoins.entries@.len() && sent_by(
            store.outgoing_swapcoins.entries@[i].1,
            utxo.witness_script->Some_0,
        ) && store.outgoing_swapcoins.entries@[i].1.hash_preimage is Some && (forall|j: int|
            0 <= j < i ==> !sent_by(
                (#[trigger] store.outgoing_swapcoins.entries@[j]).1,
                utxo.witness_script->Some_0,
            )) && (forall|j: int|
            0 <= j < store.incoming_swapcoins.entries@.len() ==> !received_by(
                (#[trigger] store.incoming_swapcoins.entries@[j]).1,
                utxo.witness_script->Some_0,
            )) ==> own_info(store, local, utxo) == Some(
            Some(
                SpendInfoView::OutgoingSwapCoin {
                    multisig_redeemscript: utxo.witness_script->Some_0,
                },
            ),
        ),
        (forall|j: int|
            0 <= j < store.incoming_swapcoins.entries@.len() ==> !received_by(
                (#[trigger] store.incoming_swapcoins.entries@[j]).1,
                utxo.witness_script->Some_0,
            )) && (forall|j: int|
            0 <= j < store.outgoing_swapcoins.entries@.len() ==> !sent_by(
                (#[trigger] store.outgoing_swapcoins.entries@[j]).1,
                utxo.witness_script->Some_0,
            )) ==> own_info(store, local, utxo) == Some(None::<SpendInfoView>),
{
    let w = utxo.witness_script->Some_0;
    let received = store.incoming_swapcoins;
    let sent = store.outgoing_swapcoins;
    assert forall|j: int| 0 <= j < received.entries@.len() implies (
    #[trigger] received.entries@[j]).1@.has_multisig(w) == received_by(
        received.entries@[j].1,
        w,
    ) by {}
    assert forall|j: int| 0 <= j < sent.entries@.len() implies (
    #[trigger] sent.entries@[j]).1@.has_multisig(w) == sent_by(sent.entries@[j].1, w) by {}
    if 0 <= i < received.entries@.len() && received_by(received.entries@[i].1, w) && (forall|j: int|
        0 <= j < i ==> !received_by((#[trigger] received.entries@[j]).1, w)) {
        assert(first_incoming(received, w, i));
    }
    if 0 <= i < sent.entries@.len() && sent_by(sent.entries@[i].1, w) && (forall|j: int|
        0 <= j < i ==> !sent_by((#[trigger] sent.entries@[j]).1, w)) {
        assert(first_outgoing(sent, w, i));
    }
}

/// Whether a received coin is a legacy coin whose keys make a redeem script.
pub open spec fn received_by(coin: IncomingSwapCoin, redeem: Seq<u8>) -> bool {
    &&& coin.protocol == ProtocolVersion::Legacy
    &&& coin.my_pubkey is Some
    &&& coin.other_pubkey is Some
    &&& multisig_script(coin.my_pubkey->Some_0@, coin.other_pubkey->Some_0@) == redeem
}

/// Whether a sent coin is a legacy coin whose keys make a redeem script.
pub open spec fn sent_by(coin: OutgoingSwapCoin, redeem: Seq<u8>) -> bool {
    &&& coin.protocol == ProtocolVersion::Legacy
    &&& coin.my_pubkey is Some
    &&& coin.other_pubkey is Some
    &&& multisig_script(coin.my_pubkey->Some_0@, coin.other_pubkey->Some_0@) == redeem
}

} // verus!
