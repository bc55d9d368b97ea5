//! The wallet: its swap coins, its agreed contracts and its keys.
use vstd::prelude::*;
use vstd::string::*;
use crate::assoc::{AssocMap, MapKey};
use crate::backend::BlockchainBackend;
use crate::bytes::{option_view, views, Duplicate, ScriptBuf};
use crate::error::WalletError;
use crate::keys::{
    chain_code_part, derive_priv, derived_key, fingerprint_text, key_fingerprint, private_part,
    public_key_bytes, public_key_of, sha512, sha512_of,
};
use crate::raw_tx::{compute_txid, txid_of};
use crate::multisig::{create_multisig_redeemscript, law_multisig_is_symmetric, multisig_script};
use crate::primitives::{OutPoint, ProtocolVersion, PublicKey, SecretKey, Txid};
use crate::store::{same_wallet, WalletStore};
use crate::swapcoin::{
    IncomingSwapCoin, IncomingView, OutgoingSwapCoin, OutgoingView, WatchOnlySwapCoin,
};
use crate::text::same_text;

verus! {

/// The number of addresses that are derived ahead on each chain.
pub const ADDRESS_IMPORT_COUNT: u32 = 500;

/// A wallet with the backend that it learns of the blockchain from.
#[derive(Debug)]
pub struct Wallet<B: BlockchainBackend> {
    /// The backend.
    pub rpc: B,
    /// What the wallet keeps on disk.
    pub store: WalletStore,
}

/// Whether a map is another one with `value` at `key`.
pub open spec fn with_entry<K: MapKey, V: View>(
    after: AssocMap<K, V>,
    before: AssocMap<K, V>,
    key: K::V,
    value: V::V,
) -> bool {
    &&& after.well_formed()
    &&& after.has(key)
    &&& after.at(key)@ == value
    &&& forall|k: K::V| k != key ==> #[trigger] after.has(k) == before.has(k)
    &&& forall|k: K::V| k != key && #[trigger] before.has(k) ==> after.at(k) == before.at(k)
}

/// Whether a map is another one without `key`.
pub open spec fn without_entry<K: MapKey, V>(
    after: AssocMap<K, V>,
    before: AssocMap<K, V>,
    key: K::V,
) -> bool {
    &&& after.well_formed()
    &&& !after.has(key)
    &&& forall|k: K::V| k != key ==> #[trigger] after.has(k) == before.has(k)
    &&& forall|k: K::V| k != key && #[trigger] before.has(k) ==> after.at(k) == before.at(k)
}

impl IncomingView {
    /// Whether the coin is a legacy coin whose two-of-two redeem script is `script`.
    pub open spec fn has_multisig(self, script: Seq<u8>) -> bool {
        &&& self.protocol == ProtocolVersion::Legacy
        &&& self.my_pubkey is Some
        &&& self.other_pubkey is Some
        &&& multisig_script(self.my_pubkey->Some_0, self.other_pubkey->Some_0) == script
    }
}

impl OutgoingView {
    /// Whether the coin is a legacy coin whose two-of-two redeem script is `script`.
    pub open spec fn has_multisig(self, script: Seq<u8>) -> bool {
        &&& self.protocol == ProtocolVersion::Legacy
        &&& self.my_pubkey is Some
        &&& self.other_pubkey is Some
        &&& multisig_script(self.my_pubkey->Some_0, self.other_pubkey->Some_0) == script
    }
}

/// The outpoint at which the contract of a swap coin begins, by the coins' contract transactions.
pub open spec fn contract_outpoint(tx: crate::primitives::TransactionView) -> OutPoint {
    OutPoint { txid: txid_of(tx), vout: 0 }
}

/// The Ed25519 key of the wallet's onion service: a hash, clamped as RFC 8032 asks.
pub open spec fn clamped(hash: Seq<u8>) -> Seq<u8> {
    hash.update(0, hash[0] & 248u8).update(31, (hash[31] & 127u8) | 64u8)
}

/// A clamped key has its three lowest bits clear, its highest bit clear and the bit below it set.
pub proof fn law_tor_key_is_clamped(hash: Seq<u8>)
    requires
        hash.len() == 64,
    ensures
        clamped(hash).len() == 64,
        clamped(hash)[0] % 8 == 0,
        64 <= clamped(hash)[31] < 128,
        forall|i: int| 0 <= i < 64 && i != 0 && i != 31 ==> clamped(hash)[i] == hash[i],
{
    let a = hash[0];
    let b = hash[31];
    assert((a & 248u8) % 8 == 0) by (bit_vector);
    assert(64 <= ((b & 127u8) | 64u8) && ((b & 127u8) | 64u8) < 128) by (bit_vector);
}

impl<B: BlockchainBackend> Wallet<B> {
    /// Whether the wallet's state is consistent.
    pub open spec fn well_formed(&self) -> bool {
        self.rpc.well_formed() && self.store.well_formed()
    }

    /// Compares two wallets by their keys, coins and bonds.
    pub fn eq(&self, other: &Self) -> (same: bool)
        requires
            self.well_formed(),
            other.well_formed(),
        ensures
            same == same_wallet(self.store, other.store),
    {
        self.store.same(&other.store)
    }

    /// The name of the wallet.
    pub fn get_name(&self) -> (name: &str)
        ensures
            name@ == self.store.file_name@,
    {
        self.store.file_name.as_str()
    }

    /// The index of the next receiving address.
    pub fn get_external_index(&self) -> (index: &u32)
        ensures
            *index == self.store.external_index,
    {
        &self.store.external_index
    }

    /// The number of addresses that are derived ahead on each chain.
    pub fn get_addrss_import_count(&self) -> (count: u32)
        ensures
            count == ADDRESS_IMPORT_COUNT,
    {
        ADDRESS_IMPORT_COUNT
    }

    /// Adds a coin that the wallet receives. It replaces a coin with the same contract.
    pub fn add_incoming_swapcoin(&mut self, coin: &IncomingSwapCoin)
        requires
            old(self).well_formed(),
        ensures
            final(self).well_formed(),
            final(self).rpc == old(self).rpc,
            final(self).store == (WalletStore {
                incoming_swapcoins: final(self).store.incoming_swapcoins,
                ..old(self).store
            }),
            with_entry(
                final(self).store.incoming_swapcoins,
                old(self).store.incoming_swapcoins,
                txid_of(coin.contract_tx@),
                coin@,
            ),
    {
        let key = compute_txid(&coin.contract_tx);
        self.store.incoming_swapcoins.insert(key, coin.duplicate());
    }

    /// Adds a coin that the wallet sends. It replaces a coin with the same contract.
    pub fn add_outgoing_swapcoin(&mut self, coin: &OutgoingSwapCoin)
        requires
            old(self).well_formed(),
        ensures
            final(self).well_formed(),
            final(self).rpc == old(self).rpc,
            final(self).store == (WalletStore {
                outgoing_swapcoins: final(self).store.outgoing_swapcoins,
                ..old(self).store
            }),
            with_entry(
                final(self).store.outgoing_swapcoins,
                old(self).store.outgoing_swapcoins,
                txid_of(coin.contract_tx@),
                coin@,
            ),
    {
        let key = compute_txid(&coin.contract_tx);
        self.store.outgoing_swapcoins.insert(key, coin.duplicate());
    }

    /// The received coin with the given contract, if there is one.
    pub fn find_incoming_swapcoin(&self, contract_txid: &Txid) -> (coin: Option<&IncomingSwapCoin>)
        requires
            self.well_formed(),
        ensures
            match coin {
                Some(c) => self.store.incoming_swapcoins.has(*contract_txid) && *c
                    == self.store.incoming_swapcoins.at(*contract_txid),
                None => !self.store.incoming_swapcoins.has(*contract_txid),
            },
    {
        self.store.incoming_swapcoins.get(contract_txid)
    }

    /// The received coin with the given contract, if there is one, for change in place.
    pub fn find_incoming_swapcoin_mut(&mut self, contract_txid: &Txid) -> (coin: Option<
        &mut IncomingSwapCoin,
    >)
        requires
            old(self).well_formed(),
        ensures
            match coin {
                Some(c) => {
                    let map = old(self).store.incoming_swapcoins;
                    let slot = map.slot(*contract_txid);
                    &&& map.has(*contract_txid)
                    &&& *c == map.at(*contract_txid)
                    &&& final(self).store.incoming_swapcoins.entries@ == map.entries@.update(
                        slot,
                        (map.entries@[slot].0, *final(c)),
                    )
                    &&& final(self).well_formed()
                    &&& final(self).rpc == old(self).rpc
                    &&& final(self).store == (WalletStore {
                        incoming_swapcoins: final(self).store.incoming_swapcoins,
                        ..old(self).store
                    })
                },
                None => !old(self).store.incoming_swapcoins.has(*contract_txid) && *final(self)
                    == *old(self),
            },
    {
        self.store.incoming_swapcoins.get_mut(contract_txid)
    }

    /// The first sent legacy coin with the given two-of-two redeem script.
    pub fn find_outgoing_swapcoin_by_multisig(&self, multisig_redeemscript: &ScriptBuf) -> (coin:
        Option<&OutgoingSwapCoin>)
        ensures
            match coin {
                Some(c) => exists|i: int|
                    {
                        &&& first_outgoing(
                            self.store.outgoing_swapcoins,
                            multisig_redeemscript@,
                            i,
                        )
                        &&& *c == (#[trigger] self.store.outgoing_swapcoins.entries@[i]).1
                    },
                None => no_outgoing(self.store.outgoing_swapcoins, multisig_redeemscript@),
            },
    {
        let coins = &self.store.outgoing_swapcoins.entries;
        let mut i: usize = 0;
        while i < coins.len()
            invariant
                coins == self.store.outgoing_swapcoins.entries,
                i <= coins.len(),
                forall|j: int|
                    0 <= j < i ==> !(#[trigger] coins@[j]).1@.has_multisig(multisig_redeemscript@),
            decreases coins.len() - i,
        {
            let coin = &coins[i].1;
            if coin.protocol == ProtocolVersion::Legacy {
                if let (Some(mine), Some(other)) = (&coin.my_pubkey, &coin.other_pubkey) {
                    if create_multisig_redeemscript(mine, other).same(multisig_redeemscript) {
                        assert(first_outgoing(
                            self.store.outgoing_swapcoins,
                            multisig_redeemscript@,
                            i as int,
                        ));
                        return Some(coin);
                    }
                }
            }
            i += 1;
        }
        None
    }

    /// The first received legacy coin with the given two-of-two redeem script.
    pub fn find_incoming_swapcoin_by_multisig(&self, multisig_redeemscript: &ScriptBuf) -> (coin:
        Option<&IncomingSwapCoin>)
        ensures
            match coin {
                Some(c) => exists|i: int|
                    {
                        &&& first_incoming(
                            self.store.incoming_swapcoins,
                            multisig_redeemscript@,
                            i,
                        )
                        &&& *c == (#[trigger] self.store.incoming_swapcoins.entries@[i]).1
                    },
                None => no_incoming(self.store.incoming_swapcoins, multisig_redeemscript@),
            },
    {
        let coins = &self.store.incoming_swapcoins.entries;
        let mut i: usize = 0;
        while i < coins.len()
            invariant
                coins == self.store.incoming_swapcoins.entries,
                i <= coins.len(),
                forall|j: int|
                    0 <= j < i ==> !(#[trigger] coins@[j]).1@.has_multisig(multisig_redeemscript@),
            decreases coins.len() - i,
        {
            let coin = &coins[i].1;
            if coin.protocol == ProtocolVersion::Legacy {
                if let (Some(mine), Some(other)) = (&coin.my_pubkey, &coin.other_pubkey) {
                    if create_multisig_redeemscript(mine, other).same(multisig_redeemscript) {
                        assert(first_incoming(
                            self.store.incoming_swapcoins,
                            multisig_redeemscript@,
                            i as int,
                        ));
                        return Some(coin);
                    }
                }
            }
            i += 1;
        }
        None
    }

    /// Takes the received coin with the given contract out of the wallet.
    pub fn remove_incoming_swapcoin(&mut self, contract_txid: &Txid) -> (removed: Option<
        IncomingSwapCoin,
    >)
        requires
            old(self).well_formed(),
        ensures
            final(self).well_formed(),
            final(self).rpc == old(self).rpc,
            final(self).store == (WalletStore {
                incoming_swapcoins: final(self).store.incoming_swapcoins,
                ..old(self).store
            }),
            without_entry(
                final(self).store.incoming_swapcoins,
                old(self).store.incoming_swapcoins,
                *contract_txid,
            ),
            match removed {
                Some(c) => old(self).store.incoming_swapcoins.has(*contract_txid) && c == old(
                    self,
                ).store.incoming_swapcoins.at(*contract_txid),
                None => !old(self).store.incoming_swapcoins.has(*contract_txid),
            },
    {
        self.store.incoming_swapcoins.remove(contract_txid)
    }

    /// Takes the sent coin with the given contract out of the wallet.
    pub fn remove_outgoing_swapcoin(&mut self, contract_txid: &Txid)
        requires
            old(self).well_formed(),
        ensures
            final(self).well_formed(),
            final(self).rpc == old(self).rpc,
            final(self).store == (WalletStore {
                outgoing_swapcoins: final(self).store.outgoing_swapcoins,
                ..old(self).store
            }),
            without_entry(
                final(self).store.outgoing_swapcoins,
                old(self).store.outgoing_swapcoins,
                *contract_txid,
            ),
    {
        let removed = self.store.outgoing_swapcoins.remove(contract_txid);
    }

    /// Adds coins to watch for a swap, behind those that are watched for it already.
    pub fn add_watchonly_swapcoins(&mut self, swap_id: &str, coins: Vec<WatchOnlySwapCoin>)
        requires
            old(self).well_formed(),
        ensures
            final(self).well_formed(),
            final(self).rpc == old(self).rpc,
            final(self).store == (WalletStore {
                watchonly_swapcoins: final(self).store.watchonly_swapcoins,
                ..old(self).store
            }),
            with_entry(
                final(self).store.watchonly_swapcoins,
                old(self).store.watchonly_swapcoins,
                swap_id@,
                if old(self).store.watchonly_swapcoins.has(swap_id@) {
                    old(self).store.watchonly_swapcoins.at(swap_id@)@ + coins@
                } else {
                    coins@
                },
            ),
    {
        let key = swap_id.to_owned();
        let mut coins = coins;
        match self.store.watchonly_swapcoins.remove(&key) {
            Some(watched) => {
                let mut all = watched;
                all.append(&mut coins);
                self.store.watchonly_swapcoins.insert(key, all);
            },
            None => {
                self.store.watchonly_swapcoins.insert(key, coins);
            },
        }
    }

    /// Forgets the coins that are watched for a swap, and gives them back.
    pub fn remove_watchonly_swapcoins(&mut self, swap_id: &str) -> (removed: Option<
        Vec<WatchOnlySwapCoin>,
    >)
        requires
            old(self).well_formed(),
        ensures
            final(self).well_formed(),
            final(self).rpc == old(self).rpc,
            final(self).store == (WalletStore {
                watchonly_swapcoins: final(self).store.watchonly_swapcoins,
                ..old(self).store
            }),
            without_entry(
                final(self).store.watchonly_swapcoins,
                old(self).store.watchonly_swapcoins,
                swap_id@,
            ),
            match removed {
                Some(c) => old(self).store.watchonly_swapcoins.has(swap_id@) && c == old(
                    self,
                ).store.watchonly_swapcoins.at(swap_id@),
                None => !old(self).store.watchonly_swapcoins.has(swap_id@),
            },
    {
        self.store.watchonly_swapcoins.remove(&swap_id.to_owned())
    }

    /// The number of coins that the wallet receives.
    pub fn get_incoming_swapcoins_count(&self) -> (count: usize)
        ensures
            count == self.store.incoming_swapcoins.entries@.len(),
    {
        self.store.incoming_swapcoins.len()
    }

    /// The number of coins that the wallet sends.
    pub fn get_outgoing_swapcoins_count(&self) -> (count: usize)
        ensures
            count == self.store.outgoing_swapcoins.entries@.len(),
    {
        self.store.outgoing_swapcoins.len()
    }

    /// The first outputs of the contract transactions of the coins that the wallet sends.
    pub fn outgoing_contract_outpoints(&self) -> (outpoints: Vec<OutPoint>)
        ensures
            outpoints@ == Seq::new(
                self.store.outgoing_swapcoins.entries@.len(),
                |i: int|
                    contract_outpoint(self.store.outgoing_swapcoins.entries@[i].1.contract_tx@),
            ),
    {
        let coins = &self.store.outgoing_swapcoins.entries;
        let mut outpoints: Vec<OutPoint> = Vec::new();
        let mut i: usize = 0;
        while i < coins.len()
            invariant
                coins == self.store.outgoing_swapcoins.entries,
                i <= coins.len(),
                outpoints.len() == i,
                forall|j: int|
                    0 <= j < i ==> outpoints@[j] == contract_outpoint(
                        (#[trigger] coins@[j]).1.contract_tx@,
                    ),
            decreases coins.len() - i,
        {
            outpoints.push(OutPoint::new(compute_txid(&coins[i].1.contract_tx), 0));
            i += 1;
        }
        outpoints
    }

    /// The first outputs of the contract transactions of the coins that the wallet receives.
    pub fn incoming_contract_outpoints(&self) -> (outpoints: Vec<OutPoint>)
        ensures
            outpoints@ == Seq::new(
                self.store.incoming_swapcoins.entries@.len(),
                |i: int|
                    contract_outpoint(self.store.incoming_swapcoins.entries@[i].1.contract_tx@),
            ),
    {
        let coins = &self.store.incoming_swapcoins.entries;
        let mut outpoints: Vec<OutPoint> = Vec::new();
        let mut i: usize = 0;
        while i < coins.len()
            invariant
                coins == self.store.incoming_swapcoins.entries,
                i <= coins.len(),
                outpoints.len() == i,
                forall|j: int|
                    0 <= j < i ==> outpoints@[j] == contract_outpoint(
                        (#[trigger] coins@[j]).1.contract_tx@,
                    ),
            decreases coins.len() - i,
        {
            outpoints.push(OutPoint::new(compute_txid(&coins[i].1.contract_tx), 0));
            i += 1;
        }
        outpoints
    }

    /// The contracts of the sent coins that belong to a swap.
    pub fn outgoing_keys_for_swap(&self, swap_id: &str) -> (keys: Vec<Txid>)
        ensures
            keys@ == keys_for_swap(self.store.outgoing_swapcoins.entries@, swap_id@),
    {
        let coins = &self.store.outgoing_swapcoins.entries;
        let mut keys: Vec<Txid> = Vec::new();
        let mut i: usize = 0;
        assert(coins@.take(0) =~= Seq::<(Txid, OutgoingSwapCoin)>::empty());
        while i < coins.len()
            invariant
                coins == self.store.outgoing_swapcoins.entries,
                i <= coins.len(),
                keys@ == keys_for_swap(coins@.take(i as int), swap_id@),
            decreases coins.len() - i,
        {
            assert(coins@.take(i + 1).drop_last() =~= coins@.take(i as int));
            let belongs = match &coins[i].1.swap_id {
                Some(id) => same_text(id.as_str(), swap_id),
                None => false,
            };
            if belongs {
                keys.push(coins[i].0);
            }
            i += 1;
        }
        assert(coins@.take(i as int) =~= coins@);
        keys
    }

    /// The coins whose swaps are unfinished: the received ones without the other party's private
    /// key, and the sent ones without the hash preimage.
    pub fn find_unfinished_swapcoins(&self) -> (unfinished: (
        Vec<IncomingSwapCoin>,
        Vec<OutgoingSwapCoin>,
    ))
        ensures
            views(unfinished.0@) == self.store.incoming_swapcoins.values().map_values(
                |c: IncomingSwapCoin| c@,
            ).filter(|c: IncomingView| c.other_privkey is None),
            views(unfinished.1@) == self.store.outgoing_swapcoins.values().map_values(
                |c: OutgoingSwapCoin| c@,
            ).filter(|c: OutgoingView| c.hash_preimage is None),
    {
        let incoming = &self.store.incoming_swapcoins.entries;
        let ghost all_in = self.store.incoming_swapcoins.values().map_values(
            |c: IncomingSwapCoin| c@,
        );
        let ghost pred_in = |c: IncomingView| c.other_privkey is None;
        let mut open_in: Vec<IncomingSwapCoin> = Vec::new();
        let mut i: usize = 0;
        proof {
            reveal(Seq::filter);
            assert(views(open_in@) =~= all_in.take(0).filter(pred_in));
        }
        while i < incoming.len()
            invariant
                incoming == self.store.incoming_swapcoins.entries,
                all_in == self.store.incoming_swapcoins.values().map_values(
                    |c: IncomingSwapCoin| c@,
                ),
                pred_in == (|c: IncomingView| c.other_privkey is None),
                i <= incoming.len(),
                views(open_in@) == all_in.take(i as int).filter(pred_in),
            decreases incoming.len() - i,
        {
            let ghost before = views(open_in@);
            proof {
                assert(all_in.take(i + 1) =~= all_in.take(i as int).push(all_in[i as int]));
                all_in.take(i as int).lemma_filter_push(all_in[i as int], pred_in);
            }
            if incoming[i].1.other_privkey.is_none() {
                open_in.push(incoming[i].1.duplicate());
                assert(views(open_in@) =~= before.push(all_in[i as int]));
            }
            i += 1;
        }
        assert(all_in.take(i as int) =~= all_in);
        let outgoing = &self.store.outgoing_swapcoins.entries;
        let ghost all_out = self.store.outgoing_swapcoins.values().map_values(
            |c: OutgoingSwapCoin| c@,
        );
        let ghost pred_out = |c: OutgoingView| c.hash_preimage is None;
        let mut open_out: Vec<OutgoingSwapCoin> = Vec::new();
        let mut j: usize = 0;
        proof {
            reveal(Seq::filter);
            assert(views(open_out@) =~= all_out.take(0).filter(pred_out));
        }
        while j < outgoing.len()
            invariant
                outgoing == self.store.outgoing_swapcoins.entries,
                all_out == self.store.outgoing_swapcoins.values().map_values(
                    |c: OutgoingSwapCoin| c@,
                ),
                pred_out == (|c: OutgoingView| c.hash_preimage is None),
                j <= outgoing.len(),
                views(open_out@) == all_out.take(j as int).filter(pred_out),
            decreases outgoing.len() - j,
        {
            let ghost before = views(open_out@);
            proof {
                assert(all_out.take(j + 1) =~= all_out.take(j as int).push(all_out[j as int]));
                all_out.take(j as int).lemma_filter_push(all_out[j as int], pred_out);
            }
            if outgoing[j].1.hash_preimage.is_none() {
                open_out.push(outgoing[j].1.duplicate());
                assert(views(open_out@) =~= before.push(all_out[j as int]));
            }
            j += 1;
        }
        assert(all_out.take(j as int) =~= all_out);
        (open_in, open_out)
    }

    /// Whether a contract may be signed for an output: no contract was agreed for the output, or
    /// this one was.
    pub fn does_prevout_match_cached_contract(
        &self,
        prevout: &OutPoint,
        contract_scriptpubkey: &ScriptBuf,
    ) -> (result: Result<bool, WalletError>)
        requires
            self.well_formed(),
        ensures
            result == Ok::<bool, WalletError>(
                prevout_matches(
                    self.store.prevout_to_contract_map,
                    *prevout,
                    contract_scriptpubkey@,
                ),
            ),
    {
        Ok(
            match self.store.prevout_to_contract_map.get(prevout) {
                Some(contract) => contract.same(contract_scriptpubkey),
                None => true,
            },
        )
    }

    /// Keeps the contract that was agreed for an output, in place of an earlier one.
    pub fn cache_prevout_to_contract(&mut self, prevout: OutPoint, contract: ScriptBuf) -> (result:
        Result<(), WalletError>)
        requires
            old(self).well_formed(),
        ensures
            result is Ok,
            final(self).well_formed(),
            final(self).rpc == old(self).rpc,
            final(self).store == (WalletStore {
                prevout_to_contract_map: final(self).store.prevout_to_contract_map,
                ..old(self).store
            }),
            with_entry(
                final(self).store.prevout_to_contract_map,
                old(self).store.prevout_to_contract_map,
                prevout,
                contract@,
            ),
    {
        self.store.prevout_to_contract_map.insert(prevout, contract);
        Ok(())
    }

    /// The label of the wallet in a node: the fingerprint of the master key.
    pub fn get_core_wallet_label(&self) -> (label: Option<String>)
        ensures
            option_view(label) == key_fingerprint(self.store.master_key@),
    {
        fingerprint_text(&self.store.master_key)
    }

    /// The key of the wallet's onion service, derived from the master key.
    pub fn derive_tor_key(&self) -> (key: Vec<u8>)
        requires
            self.well_formed(),
        ensures
            key@ == clamped(sha512_of(private_part(self.store.master_key@))),
            key@.len() == 64,
    {
        let secret = self.store.master_key.secret_key();
        let mut key = sha512(&secret.bytes);
        let first = key[0];
        let last = key[31];
        key.set(0, first & 248u8);
        key.set(31, (last & 127u8) | 64u8);
        key
    }

    /// The key pair, with its chain code, that swap addresses are tweaked from: the hardened child
    /// number 175 of the master key.
    pub fn get_tweakable_keypair(&self) -> (pair: Result<
        (SecretKey, PublicKey, Vec<u8>),
        WalletError,
    >)
        ensures
            match pair {
                Ok((secret, public, code)) => derived_key(
                    self.store.master_key@,
                    seq![0x8000_00afu32],
                ) matches Some(child) && secret@ == private_part(child) && public_key_bytes(
                    secret@,
                ) == Some(public@) && code@ == chain_code_part(child),
                Err(e) => e == WalletError::Derivation && (match derived_key(
                    self.store.master_key@,
                    seq![0x8000_00afu32],
                ) {
                    Some(child) => public_key_bytes(private_part(child)) is None,
                    None => true,
                }),
            },
    {
        let mut path: Vec<u32> = Vec::new();
        path.push(0x8000_00af);
        assert(path@ =~= seq![0x8000_00afu32]);
        match derive_priv(&self.store.master_key, &path) {
            Some(child) => {
                let secret = child.secret_key();
                match public_key_of(&secret) {
                    Some(public) => Ok((secret, public, child.chain_code())),
                    None => Err(WalletError::Derivation),
                }
            },
            None => Err(WalletError::Derivation),
        }
    }
}

/// Whether the coin at position `i` is the first with the given redeem script.
pub open spec fn first_outgoing(
    coins: AssocMap<Txid, OutgoingSwapCoin>,
    script: Seq<u8>,
    i: int,
) -> bool {
    &&& 0 <= i < coins.entries@.len()
    &&& coins.entries@[i].1@.has_multisig(script)
    &&& forall|j: int| 0 <= j < i ==> !(#[trigger] coins.entries@[j]).1@.has_multisig(script)
}

/// Whether no coin has the given redeem script.
pub open spec fn no_outgoing(coins: AssocMap<Txid, OutgoingSwapCoin>, script: Seq<u8>) -> bool {
    forall|j: int|
        0 <= j < coins.entries@.len() ==> !(#[trigger] coins.entries@[j]).1@.has_multisig(script)
}

/// Whether the coin at position `i` is the first with the given redeem script.
pub open spec fn first_incoming(
    coins: AssocMap<Txid, IncomingSwapCoin>,
    script: Seq<u8>,
    i: int,
) -> bool {
    &&& 0 <= i < coins.entries@.len()
    &&& coins.entries@[i].1@.has_multisig(script)
    &&& forall|j: int| 0 <= j < i ==> !(#[trigger] coins.entries@[j]).1@.has_multisig(script)
}

/// Whether no coin has the given redeem script.
pub open spec fn no_incoming(coins: AssocMap<Txid, IncomingSwapCoin>, script: Seq<u8>) -> bool {
    forall|j: int|
        0 <= j < coins.entries@.len() ==> !(#[trigger] coins.entries@[j]).1@.has_multisig(script)
}

/// The contracts of the coins that belong to a swap, in order.
pub open spec fn keys_for_swap(
    entries: Seq<(Txid, OutgoingSwapCoin)>,
    swap_id: Seq<char>,
) -> Seq<Txid>
    decreases entries.len(),
{
    if entries.len() == 0 {
        Seq::empty()
    } else {
        let before = keys_for_swap(entries.drop_last(), swap_id);
        if entries.last().1@.swap_id == Some(swap_id) {
            before.push(entries.last().0)
        } else {
            before
        }
    }
}

/// Whether no contract was agreed for an output, or the given one was.
pub open spec fn prevout_matches(
    contracts: AssocMap<OutPoint, ScriptBuf>,
    prevout: OutPoint,
    script: Seq<u8>,
) -> bool {
    contracts.has(prevout) ==> contracts.at(prevout)@ == script
}

/// Once a contract was agreed for an output, that contract matches and every other one is
/// refused; what was agreed for other outputs stays as it was.
pub proof fn law_agreed_contract_binds(
    before: AssocMap<OutPoint, ScriptBuf>,
    after: AssocMap<OutPoint, ScriptBuf>,
    prevout: OutPoint,
    agreed: Seq<u8>,
    asked: Seq<u8>,
    other: OutPoint,
)
    requires
        with_entry(after, before, prevout, agreed),
        other != prevout,
    ensures
        prevout_matches(after, prevout, asked) <==> asked == agreed,
        prevout_matches(after, other, asked) <==> prevout_matches(before, other, asked),
{
    assert(after.has(other) == before.has(other));
    assert(before.has(other) ==> after.at(other) == before.at(other));
}

/// A coin that was added is found under its contract, and one that was removed is not; other coins
/// are not touched by either.
pub proof fn law_swapcoin_add_then_remove(
    before: AssocMap<Txid, IncomingSwapCoin>,
    added: AssocMap<Txid, IncomingSwapCoin>,
    removed: AssocMap<Txid, IncomingSwapCoin>,
    txid: Txid,
    coin: IncomingView,
    other: Txid,
)
    requires
        with_entry(added, before, txid, coin),
        without_entry(removed, added, txid),
        other != txid,
    ensures
        added.has(txid) && added.at(txid)@ == coin,
        !removed.has(txid),
        removed.has(other) == before.has(other),
        before.has(other) ==> removed.at(other) == before.at(other),
{
    assert(added.has(other) == before.has(other));
    assert(removed.has(other) == added.has(other));
}

/// The outpoint of a contract is the first output of the contract transaction.
pub proof fn law_contract_is_the_first_output(tx: crate::primitives::TransactionView)
    ensures
        contract_outpoint(tx).txid == txid_of(tx),
        contract_outpoint(tx).vout == 0,
{
}

/// Clamping clears the three lowest bits of the first byte and sets the two highest of byte 31 to 01; what else the
/// two bytes have stays.
pub proof fn law_clamping_keeps_the_rest_of_the_hash(hash: Seq<u8>)
    requires
        hash.len() == 64,
    ensures
        clamped(hash)[0] == hash[0] - hash[0] % 8,
        clamped(hash)[31] == 64 + hash[31] % 64,
{
    let a = hash[0];
    let b = hash[31];
    assert((a & 248u8) == a - a % 8) by (bit_vector);
    assert(((b & 127u8) | 64u8) == 64 + b % 64) by (bit_vector);
}

/// A legacy coin is found by the redeem script of its two keys, in either order: where the wallet received one,
/// the search does not come back empty, and what it finds has that script and stands first.
pub proof fn law_received_coin_is_found_by_its_script(
    coins: AssocMap<Txid, IncomingSwapCoin>,
    i: int,
    found: int,
    mine: PublicKey,
    other: PublicKey,
)
    requires
        0 <= i < coins.entries@.len(),
        coins.entries@[i].1.protocol == ProtocolVersion::Legacy,
        coins.entries@[i].1.my_pubkey == Some(mine),
        coins.entries@[i].1.other_pubkey == Some(other),
    ensures
        !no_incoming(coins, multisig_script(mine@, other@)),
        !no_incoming(coins, multisig_script(other@, mine@)),
        first_incoming(coins, multisig_script(mine@, other@), found) ==> 0 <= found <= i
            && coins.entries@[found].1.protocol == ProtocolVersion::Legacy
            && coins.entries@[found].1.my_pubkey is Some
            && coins.entries@[found].1.other_pubkey is Some && multisig_script(
            coins.entries@[found].1.my_pubkey->Some_0@,
            coins.entries@[found].1.other_pubkey->Some_0@,
        ) == multisig_script(mine@, other@),
{
    law_multisig_is_symmetric(mine@, other@);
    assert(coins.entries@[i].1@.has_multisig(multisig_script(mine@, other@)));
}

/// A legacy coin that the wallet sent is found by the redeem script of its two keys, in either order.
pub proof fn law_sent_coin_is_found_by_its_script(
    coins: AssocMap<Txid, OutgoingSwapCoin>,
    i: int,
    found: int,
    mine: PublicKey,
    other: PublicKey,
)
    requires
        0 <= i < coins.entries@.len(),
        coins.entries@[i].1.protocol == ProtocolVersion::Legacy,
        coins.entries@[i].1.my_pubkey == Some(mine),
        coins.entries@[i].1.other_pubkey == Some(other),
    ensures
        !no_outgoing(coins, multisig_script(mine@, other@)),
        !no_outgoing(coins, multisig_script(other@, mine@)),
        first_outgoing(coins, multisig_script(mine@, other@), found) ==> 0 <= found <= i
            && coins.entries@[found].1.protocol == ProtocolVersion::Legacy
            && coins.entries@[found].1.my_pubkey is Some
            && coins.entries@[found].1.other_pubkey is Some && multisig_script(
            coins.entries@[found].1.my_pubkey->Some_0@,
            coins.entries@[found].1.other_pubkey->Some_0@,
        ) == multisig_script(mine@, other@),
{
    law_multisig_is_symmetric(mine@, other@);
    assert(coins.entries@[i].1@.has_multisig(multisig_script(mine@, other@)));
}

/// A coin that is sent in a swap is among the coins of that swap, behind the earlier ones, and of no other.
pub proof fn law_sent_coin_belongs_to_its_swap(
    entries: Seq<(Txid, OutgoingSwapCoin)>,
    txid: Txid,
    coin: OutgoingSwapCoin,
    swap_id: Seq<char>,
)
    ensures
        keys_for_swap(Seq::<(Txid, OutgoingSwapCoin)>::empty(), swap_id).len() == 0,
        coin.swap_id is Some && coin.swap_id->Some_0@ == swap_id ==> keys_for_swap(
            entries.push((txid, coin)),
            swap_id,
        ) == keys_for_swap(entries, swap_id).push(txid),
        coin.swap_id is None || coin.swap_id->Some_0@ != swap_id ==> keys_for_swap(
            entries.push((txid, coin)),
            swap_id,
        ) == keys_for_swap(entries, swap_id),
{
    assert(entries.push((txid, coin)).drop_last() =~= entries);
}

/// A coin that was sent is found under its contract once it was added, and is not once it was removed.
pub proof fn law_sent_coin_add_then_remove(
    before: AssocMap<Txid, OutgoingSwapCoin>,
    added: AssocMap<Txid, OutgoingSwapCoin>,
    removed: AssocMap<Txid, OutgoingSwapCoin>,
    txid: Txid,
    coin: OutgoingView,
    other: Txid,
)
    requires
        with_entry(added, before, txid, coin),
        without_entry(removed, added, txid),
        other != txid,
    ensures
        exists|i: int|
            0 <= i < added.entries@.len() && (#[trigger] added.entries@[i]).0 == txid
                && added.entries@[i].1@ == coin,
        forall|i: int| 0 <= i < removed.entries@.len() ==> (#[trigger] removed.entries@[i]).0 != txid,
        removed.has(other) == before.has(other),
        before.has(other) ==> removed.at(other) == before.at(other),
{
    assert(added.has(other) == before.has(other));
    assert(removed.has(other) == added.has(other));
    let i = added.slot(txid);
    assert(added.entries@[i].0@ == txid);
    assert forall|i: int| 0 <= i < removed.entries@.len() implies (#[trigger] removed.entries@[i]).0
        != txid by {
        if removed.entries@[i].0 == txid {
            assert(removed.entries@[i].0@ == txid);
            assert(removed.has(txid));
        }
    }
}

/// Any contract may be signed for an output for which none was agreed, and none but the one that was agreed otherwise.
pub proof fn law_unagreed_outputs_take_any_contract(
    contracts: AssocMap<OutPoint, ScriptBuf>,
    prevout: OutPoint,
    script: Seq<u8>,
    i: int,
)
    requires
        contracts.well_formed(),
    ensures
        (forall|j: int|
            0 <= j < contracts.entries@.len() ==> (#[trigger] contracts.entries@[j]).0 != prevout)
            ==> prevout_matches(contracts, prevout, script),
        0 <= i < contracts.entries@.len() && contracts.entries@[i].0 == prevout ==> (
        prevout_matches(contracts, prevout, script) <==> contracts.entries@[i].1@ == script),
{
    if 0 <= i < contracts.entries@.len() {
        contracts.lemma_slot(i);
    }
}

} // verus!
