//! Telling the backend which scripts to watch, and which to ask for as cover.
use vstd::prelude::*;
use vstd::string::*;
use crate::backend::{BlockchainBackend, HdOrigin, LocalScripts, OriginView};
use crate::bytes::{option_view, views, Duplicate, ScriptBuf};
use crate::clock::now_unix_secs;
use crate::decoy::{
    after_reuse, alive_entries, decoy_scripts, decoys_chosen, is_choice, law_trim_keeps_members,
    reuse_count, selection_broken_off, trimmed, DecoyCache, DecoyEntry, DecoyView, PrivacyConfig,
};
use crate::error::WalletError;
use crate::keys::{
    account_key, account_script, derive_account, fingerprint_text, key_fingerprint, p2wsh_bytes,
    script_from_account, Xpriv,
};
use crate::multisig::{multisig_script_pubkey, multisig_spk, redeemscript_to_scriptpubkey};
use crate::primitives::{AddressType, KeychainKind, PublicKey, Txid};
use crate::random::{coin_flip, draw_u32_inclusive};
use crate::store::{decoys_in_range, BondView, WalletStore};
use crate::swapcoin::{IncomingSwapCoin, OutgoingSwapCoin};
use crate::wallet::{Wallet, ADDRESS_IMPORT_COUNT};

verus! {

/// A script to watch, with its place in the wallet where it has one.
pub type Registration = (Seq<u8>, Option<OriginView>);

/// The scripts that a backend keeps after some were watched, one after the other.
pub open spec fn watch_all(local: LocalScripts, regs: Seq<Registration>) -> LocalScripts
    decreases regs.len(),
{
    if regs.len() == 0 {
        local
    } else {
        watch_all(local, regs.drop_last()).watch(regs.last().0, regs.last().1)
    }
}

/// What a backend keeps after some scripts were watched: nothing new where the node keeps them.
pub open spec fn registered<B: BlockchainBackend>(
    local: LocalScripts,
    regs: Seq<Registration>,
) -> LocalScripts {
    if B::spec_is_electrum() {
        watch_all(local, regs)
    } else {
        local
    }
}

/// The place of a script below an account key.
pub open spec fn origin_at(
    fingerprint: Seq<char>,
    address_type: AddressType,
    keychain: KeychainKind,
    index: u32,
) -> OriginView {
    OriginView {
        fingerprint,
        keychain_idx: keychain.spec_index_num(),
        index,
        is_taproot: address_type == AddressType::P2TR,
    }
}

/// The first `count` scripts of a chain below an account key, with their places.
pub open spec fn chain_regs(
    account: Seq<u8>,
    address_type: AddressType,
    keychain: KeychainKind,
    count: u32,
) -> Seq<Registration> {
    Seq::new(
        count as nat,
        |i: int|
            (
                account_script(account, address_type, keychain, i as u32)->Some_0,
                Some(
                    origin_at(
                        key_fingerprint(account)->Some_0,
                        address_type,
                        keychain,
                        i as u32,
                    ),
                ),
            ),
    )
}

/// Whether the first `count` scripts of a chain below an account key can be derived.
pub open spec fn chain_derivable(
    account: Seq<u8>,
    address_type: AddressType,
    keychain: KeychainKind,
    count: u32,
) -> bool {
    forall|i: u32|
        i < count ==> #[trigger] account_script(account, address_type, keychain, i) is Some
}

/// The scripts of both chains below an account key.
pub open spec fn account_regs(account: Seq<u8>, address_type: AddressType, count: u32) -> Seq<
    Registration,
> {
    chain_regs(account, address_type, KeychainKind::External, count) + chain_regs(
        account,
        address_type,
        KeychainKind::Internal,
        count,
    )
}

/// Whether the scripts of an address type can be derived below a master key.
pub open spec fn type_derivable(master: Seq<u8>, address_type: AddressType, count: u32) -> bool {
    &&& account_key(master, address_type) is Some
    &&& key_fingerprint(account_key(master, address_type)->Some_0) is Some
    &&& chain_derivable(
        account_key(master, address_type)->Some_0,
        address_type,
        KeychainKind::External,
        count,
    )
    &&& chain_derivable(
        account_key(master, address_type)->Some_0,
        address_type,
        KeychainKind::Internal,
        count,
    )
}

/// Whether the script at an index of a chain is the first that cannot be derived.
pub open spec fn chain_stops(
    account: Seq<u8>,
    address_type: AddressType,
    keychain: KeychainKind,
    count: u32,
    n: int,
) -> bool {
    &&& 0 <= n < count
    &&& chain_derivable(account, address_type, keychain, n as u32)
    &&& account_script(account, address_type, keychain, n as u32) is None
}

/// Whether the scripts of an address type can be derived up to the `n`th and no further.
pub open spec fn type_stops(master: Seq<u8>, address_type: AddressType, count: u32, n: int) -> bool {
    match account_key(master, address_type) {
        Some(account) => if key_fingerprint(account) is None {
            n == 0
        } else if chain_derivable(account, address_type, KeychainKind::External, count) {
            chain_stops(account, address_type, KeychainKind::Internal, count, n - count)
        } else {
            chain_stops(account, address_type, KeychainKind::External, count, n)
        },
        None => n == 0,
    }
}

/// The scripts of the fidelity bonds.
pub open spec fn bond_regs(bonds: Seq<BondView>) -> Seq<Registration> {
    Seq::new(bonds.len(), |i: int| (bonds[i].script(), None::<OriginView>))
}

/// The scripts of a swap coin: its two-of-two output, and its contract output.
pub open spec fn coin_regs(
    mine: Option<Seq<u8>>,
    other: Option<Seq<u8>>,
    redeem: Option<Seq<u8>>,
) -> Seq<Registration> {
    (match (mine, other) {
        (Some(a), Some(b)) => seq![(multisig_spk(a, b), None::<OriginView>)],
        _ => Seq::empty(),
    }) + (match redeem {
        Some(script) => seq![(p2wsh_bytes(script), None::<OriginView>)],
        None => Seq::empty(),
    })
}

/// The scripts of the received coins.
pub open spec fn incoming_regs(coins: Seq<(Txid, IncomingSwapCoin)>) -> Seq<Registration>
    decreases coins.len(),
{
    if coins.len() == 0 {
        Seq::empty()
    } else {
        let c = coins.last().1@;
        incoming_regs(coins.drop_last()) + coin_regs(
            c.my_pubkey,
            c.other_pubkey,
            c.contract_redeemscript,
        )
    }
}

/// The scripts of the sent coins.
pub open spec fn outgoing_regs(coins: Seq<(Txid, OutgoingSwapCoin)>) -> Seq<Registration>
    decreases coins.len(),
{
    if coins.len() == 0 {
        Seq::empty()
    } else {
        let c = coins.last().1@;
        outgoing_regs(coins.drop_last()) + coin_regs(
            c.my_pubkey,
            c.other_pubkey,
            c.contract_redeemscript,
        )
    }
}

/// Every script of a wallet that a backend has to watch.
pub open spec fn wallet_regs(store: WalletStore, count: u32) -> Seq<Registration> {
    let master = store.master_key@;
    account_regs(
        account_key(master, AddressType::P2WPKH)->Some_0,
        AddressType::P2WPKH,
        count,
    ) + account_regs(
        account_key(master, AddressType::P2TR)->Some_0,
        AddressType::P2TR,
        count,
    ) + bond_regs(views(store.fidelity_bond@)) + incoming_regs(
        store.incoming_swapcoins.entries@,
    ) + outgoing_regs(store.outgoing_swapcoins.entries@)
}

/// Whether every script of a wallet can be derived.
pub open spec fn wallet_derivable(store: WalletStore, count: u32) -> bool {
    type_derivable(store.master_key@, AddressType::P2WPKH, count) && type_derivable(
        store.master_key@,
        AddressType::P2TR,
        count,
    )
}

/// Whether the scripts of a wallet can be derived up to the `n`th and no further.
pub open spec fn wallet_stops(store: WalletStore, count: u32, n: int) -> bool {
    let master = store.master_key@;
    if type_derivable(master, AddressType::P2WPKH, count) {
        type_stops(master, AddressType::P2TR, count, n - 2 * count)
    } else {
        type_stops(master, AddressType::P2WPKH, count, n)
    }
}

/// Whether a backend was told the scripts of a chain before the first that cannot be derived.
spec fn chain_told<B: BlockchainBackend>(
    before: LocalScripts,
    after: LocalScripts,
    account: Seq<u8>,
    address_type: AddressType,
    keychain: KeychainKind,
    count: u32,
) -> bool {
    exists|n: int| #[trigger]
        chain_stops(account, address_type, keychain, count, n) && after == registered::<B>(
            before,
            chain_regs(account, address_type, keychain, count).take(n),
        )
}

/// Whether a backend was told the scripts of an address type before the first that cannot be
/// derived.
spec fn type_told<B: BlockchainBackend>(
    before: LocalScripts,
    after: LocalScripts,
    master: Seq<u8>,
    address_type: AddressType,
    count: u32,
) -> bool {
    exists|n: int| #[trigger]
        type_stops(master, address_type, count, n) && after == registered::<B>(
            before,
            account_regs(account_key(master, address_type)->Some_0, address_type, count).take(n),
        )
}

/// Whether a backend was told the scripts of a wallet before the first that cannot be derived.
pub open spec fn wallet_told<B: BlockchainBackend>(
    before: LocalScripts,
    after: LocalScripts,
    store: WalletStore,
    count: u32,
) -> bool {
    exists|n: int| #[trigger]
        wallet_stops(store, count, n) && after == registered::<B>(
            before,
            wallet_regs(store, count).take(n),
        )
}

proof fn lemma_watch_all_concat(local: LocalScripts, a: Seq<Registration>, b: Seq<Registration>)
    ensures
        watch_all(local, a + b) == watch_all(watch_all(local, a), b),
    decreases b.len(),
{
    if b.len() == 0 {
        assert(a + b =~= a);
    } else {
        lemma_watch_all_concat(local, a, b.drop_last());
        assert((a + b).drop_last() =~= a + b.drop_last());
        assert((a + b).last() == b.last());
    }
}

proof fn lemma_registered_concat<B: BlockchainBackend>(
    local: LocalScripts,
    a: Seq<Registration>,
    b: Seq<Registration>,
)
    ensures
        registered::<B>(local, a + b) == registered::<B>(registered::<B>(local, a), b),
{
    lemma_watch_all_concat(local, a, b);
}

proof fn lemma_registered_push<B: BlockchainBackend>(
    local: LocalScripts,
    regs: Seq<Registration>,
    reg: Registration,
)
    ensures
        B::spec_is_electrum() ==> registered::<B>(local, regs.push(reg)) == registered::<B>(
            local,
            regs,
        ).watch(reg.0, reg.1),
        !B::spec_is_electrum() ==> registered::<B>(local, regs.push(reg)) == registered::<B>(
            local,
            regs,
        ),
{
    assert(regs.push(reg).drop_last() =~= regs);
}

/// Every script that was to be watched is watched afterwards, and so is every script that was
/// watched before; decoys are not touched.
pub proof fn law_registered_scripts_are_watched(
    local: LocalScripts,
    regs: Seq<Registration>,
    script: Seq<u8>,
)
    ensures
        local.watched.contains(script) ==> watch_all(local, regs).watched.contains(script),
        forall|i: int|
            0 <= i < regs.len() ==> watch_all(local, regs).watched.contains(
                (#[trigger] regs[i]).0,
            ),
        watch_all(local, regs).decoys == local.decoys,
    decreases regs.len(),
{
    if regs.len() > 0 {
        law_registered_scripts_are_watched(local, regs.drop_last(), script);
        assert forall|i: int| 0 <= i < regs.len() implies watch_all(local, regs).watched.contains(
            (#[trigger] regs[i]).0,
        ) by {
            if i < regs.len() - 1 {
                assert(regs.drop_last()[i] == regs[i]);
            }
        }
    }
}

/// The place that a backend knows of a script afterwards is one that it was told for this very
/// script, then or before.
pub proof fn law_known_places_were_told(
    local: LocalScripts,
    regs: Seq<Registration>,
    script: Seq<u8>,
)
    requires
        watch_all(local, regs).origins.contains_key(script),
    ensures
        (local.origins.contains_key(script) && watch_all(local, regs).origins[script]
            == local.origins[script]) || (exists|i: int|
            0 <= i < regs.len() && (#[trigger] regs[i]).0 == script && regs[i].1 == Some(
                watch_all(local, regs).origins[script],
            )),
    decreases regs.len(),
{
    if regs.len() > 0 {
        let shorter = regs.drop_last();
        let last = regs.last();
        if last.1 is Some && last.0 == script {
            assert(regs[regs.len() - 1] == last);
        } else {
            law_known_places_were_told(local, shorter, script);
            if exists|i: int|
                0 <= i < shorter.len() && (#[trigger] shorter[i]).0 == script && shorter[i].1
                    == Some(watch_all(local, shorter).origins[script]) {
                let i = choose|i: int|
                    0 <= i < shorter.len() && (#[trigger] shorter[i]).0 == script && shorter[i].1
                        == Some(watch_all(local, shorter).origins[script]);
                assert(regs[i] == shorter[i]);
            }
        }
    }
}

impl<B: BlockchainBackend> Wallet<B> {
    /// Watches the first scripts of a chain below an account key.
    fn watch_chain(
        &mut self,
        account: &Xpriv,
        fingerprint: &String,
        address_type: AddressType,
        keychain: KeychainKind,
        count: u32,
    ) -> (result: Result<(), WalletError>)
        requires
            old(self).well_formed(),
            key_fingerprint(account@) == Some(fingerprint@),
        ensures
            final(self).well_formed(),
            final(self).store == old(self).store,
            final(self).rpc.privacy() == old(self).rpc.privacy(),
            final(self).rpc.rest() == old(self).rpc.rest(),
            match result {
                Ok(_) => chain_derivable(account@, address_type, keychain, count) && final(self).rpc.local() == registered::<B>(
                    old(self).rpc.local(),
                    chain_regs(account@, address_type, keychain, count),
                ),
                Err(e) => !chain_derivable(account@, address_type, keychain, count) && e
                    == WalletError::Derivation && chain_told::<B>(
                    old(self).rpc.local(),
                    final(self).rpc.local(),
                    account@,
                    address_type,
                    keychain,
                    count,
                ),
            },
    {
        let ghost regs = chain_regs(account@, address_type, keychain, count);
        let ghost start = self.rpc.local();
        let mut index: u32 = 0;
        assert(regs.take(0) =~= Seq::<Registration>::empty());
        while index < count
            invariant
                index <= count,
                start == old(self).rpc.local(),
                regs == chain_regs(account@, address_type, keychain, count),
                key_fingerprint(account@) == Some(fingerprint@),
                self.well_formed(),
                self.store == old(self).store,
                self.rpc.privacy() == old(self).rpc.privacy(),
                self.rpc.rest() == old(self).rpc.rest(),
                self.rpc.local() == registered::<B>(start, regs.take(index as int)),
                chain_derivable(account@, address_type, keychain, index),
            decreases count - index,
        {
            let script = match script_from_account(account, address_type, keychain, index) {
                Ok(script) => script,
                Err(e) => {
                    assert(chain_stops(account@, address_type, keychain, count, index as int));
                    return Err(e);
                },
            };
            let origin = HdOrigin {
                fingerprint: fingerprint.clone(),
                keychain_idx: keychain.index_num(),
                index,
                is_taproot: match address_type {
                    AddressType::P2TR => true,
                    AddressType::P2WPKH => false,
                },
            };
            let ghost told = origin@;
            self.rpc.watch_script(&script, Some(origin));
            proof {
                assert(regs[index as int] == (script@, Some(told)));
                assert(regs.take(index + 1) =~= regs.take(index as int).push(regs[index as int]));
                lemma_registered_push::<B>(start, regs.take(index as int), regs[index as int]);
            }
            index += 1;
        }
        assert(regs.take(index as int) =~= regs);
        Ok(())
    }

    /// Watches the first scripts of both chains of an address type.
    fn watch_account(&mut self, address_type: AddressType, count: u32) -> (result: Result<
        (),
        WalletError,
    >)
        requires
            old(self).well_formed(),
        ensures
            final(self).well_formed(),
            final(self).store == old(self).store,
            final(self).rpc.privacy() == old(self).rpc.privacy(),
            final(self).rpc.rest() == old(self).rpc.rest(),
            match result {
                Ok(_) => type_derivable(old(self).store.master_key@, address_type, count) && final(self).rpc.local() == registered::<B>(
                    old(self).rpc.local(),
                    account_regs(
                        account_key(old(self).store.master_key@, address_type)->Some_0,
                        address_type,
                        count,
                    ),
                ),
                Err(e) => !type_derivable(old(self).store.master_key@, address_type, count) && e
                    == WalletError::Derivation && type_told::<B>(
                    old(self).rpc.local(),
                    final(self).rpc.local(),
                    old(self).store.master_key@,
                    address_type,
                    count,
                ),
            },
    {
        let ghost start = self.rpc.local();
        let ghost master = self.store.master_key@;
        let ghost all = account_regs(
            account_key(master, address_type)->Some_0,
            address_type,
            count,
        );
        proof {
            assert(all.take(0) =~= Seq::<Registration>::empty());
            assert(registered::<B>(start, all.take(0)) == start);
        }
        let account = match derive_account(&self.store.master_key, address_type) {
            Ok(account) => account,
            Err(e) => {
                assert(type_stops(master, address_type, count, 0));
                return Err(e);
            },
        };
        let fingerprint = match fingerprint_text(&account) {
            Some(text) => text,
            None => {
                assert(type_stops(master, address_type, count, 0));
                return Err(WalletError::Derivation);
            },
        };
        let ghost external = chain_regs(account@, address_type, KeychainKind::External, count);
        let ghost internal = chain_regs(account@, address_type, KeychainKind::Internal, count);
        match self.watch_chain(&account, &fingerprint, address_type, KeychainKind::External, count) {
            Ok(_) => {},
            Err(e) => {
                proof {
                    let n = choose|n: int| #[trigger]
                        chain_stops(account@, address_type, KeychainKind::External, count, n)
                            && self.rpc.local() == registered::<B>(start, external.take(n));
                    assert(all.take(n) =~= external.take(n));
                    assert(type_stops(master, address_type, count, n));
                }
                return Err(e);
            },
        }
        let ghost half = self.rpc.local();
        match self.watch_chain(&account, &fingerprint, address_type, KeychainKind::Internal, count) {
            Ok(_) => {},
            Err(e) => {
                proof {
                    let n = choose|n: int| #[trigger]
                        chain_stops(account@, address_type, KeychainKind::Internal, count, n)
                            && self.rpc.local() == registered::<B>(half, internal.take(n));
                    assert(all.take(n + count) =~= external + internal.take(n));
                    lemma_registered_concat::<B>(start, external, internal.take(n));
                    assert(type_stops(master, address_type, count, n + count));
                }
                return Err(e);
            },
        }
        proof {
            lemma_registered_concat::<B>(start, external, internal);
        }
        Ok(())
    }

    /// Watches the two outputs of a swap coin.
    fn watch_coin(
        &mut self,
        mine: &Option<PublicKey>,
        other: &Option<PublicKey>,
        redeem: &Option<ScriptBuf>,
    )
        requires
            old(self).well_formed(),
        ensures
            final(self).well_formed(),
            final(self).store == old(self).store,
            final(self).rpc.privacy() == old(self).rpc.privacy(),
            final(self).rpc.rest() == old(self).rpc.rest(),
            final(self).rpc.local() == registered::<B>(
                old(self).rpc.local(),
                coin_regs(option_view(*mine), option_view(*other), option_view(*redeem)),
            ),
    {
        let ghost start = self.rpc.local();
        let ghost mut regs: Seq<Registration> = Seq::empty();
        if let (Some(a), Some(b)) = (mine, other) {
            let script = multisig_script_pubkey(a, b);
            self.rpc.watch_script(&script, None);
            proof {
                let reg = (script@, None::<OriginView>);
                lemma_registered_push::<B>(start, regs, reg);
                regs = regs.push(reg);
            }
        }
        if let Some(script) = redeem {
            let spk = redeemscript_to_scriptpubkey(script);
            self.rpc.watch_script(&spk, None);
            proof {
                let reg = (spk@, None::<OriginView>);
                lemma_registered_push::<B>(start, regs, reg);
                regs = regs.push(reg);
            }
        }
        assert(regs =~= coin_regs(option_view(*mine), option_view(*other), option_view(*redeem)));
    }

    /// Tells the backend every script of the wallet: the addresses of both types on both chains up
    /// to the gap limit, the fidelity bonds, and the outputs of swap coins. Where a script cannot be
    /// derived, the backend has been told those before it.
    pub fn populate_backend_watched_scripts(&mut self) -> (result: Result<(), WalletError>)
        requires
            old(self).well_formed(),
        ensures
            final(self).well_formed(),
            final(self).store == old(self).store,
            final(self).rpc.privacy() == old(self).rpc.privacy(),
            final(self).rpc.rest() == old(self).rpc.rest(),
            match result {
                Ok(_) => wallet_derivable(old(self).store, ADDRESS_IMPORT_COUNT) && final(self).rpc.local() == registered::<B>(
                    old(self).rpc.local(),
                    wallet_regs(old(self).store, ADDRESS_IMPORT_COUNT),
                ),
                Err(e) => !wallet_derivable(old(self).store, ADDRESS_IMPORT_COUNT) && e
                    == WalletError::Derivation && wallet_told::<B>(
                    old(self).rpc.local(),
                    final(self).rpc.local(),
                    old(self).store,
                    ADDRESS_IMPORT_COUNT,
                ),
            },
    {
        let count = self.get_addrss_import_count();
        let ghost start = self.rpc.local();
        let ghost store = self.store;
        let ghost master = self.store.master_key@;
        let ghost r1 = account_regs(
            account_key(master, AddressType::P2WPKH)->Some_0,
            AddressType::P2WPKH,
            count,
        );
        let ghost r2 = account_regs(
            account_key(master, AddressType::P2TR)->Some_0,
            AddressType::P2TR,
            count,
        );
        let ghost all = wallet_regs(store, count);
        match self.watch_account(AddressType::P2WPKH, count) {
            Ok(_) => {},
            Err(e) => {
                proof {
                    let n = choose|n: int| #[trigger]
                        type_stops(master, AddressType::P2WPKH, count, n) && self.rpc.local()
                            == registered::<B>(start, r1.take(n));
                    assert(all.take(n) =~= r1.take(n));
                    assert(wallet_stops(store, count, n));
                }
                return Err(e);
            },
        }
        let ghost half = self.rpc.local();
        match self.watch_account(AddressType::P2TR, count) {
            Ok(_) => {},
            Err(e) => {
                proof {
                    let n = choose|n: int| #[trigger]
                        type_stops(master, AddressType::P2TR, count, n) && self.rpc.local()
                            == registered::<B>(half, r2.take(n));
                    assert(all.take(n + 2 * count) =~= r1 + r2.take(n));
                    lemma_registered_concat::<B>(start, r1, r2.take(n));
                    assert(wallet_stops(store, count, n + 2 * count));
                }
                return Err(e);
            },
        }
        proof {
            lemma_registered_concat::<B>(start, r1, r2);
        }
        let ghost addresses = r1 + r2;
        let ghost r3 = bond_regs(views(store.fidelity_bond@));
        let mut i: usize = 0;
        assert(addresses + r3.take(0) =~= addresses);
        while i < self.store.fidelity_bond.len()
            invariant
                i <= self.store.fidelity_bond.len(),
                store == old(self).store,
                self.well_formed(),
                self.store == store,
                self.rpc.privacy() == old(self).rpc.privacy(),
                self.rpc.rest() == old(self).rpc.rest(),
                r3 == bond_regs(views(store.fidelity_bond@)),
                self.rpc.local() == registered::<B>(start, addresses + r3.take(i as int)),
            decreases self.store.fidelity_bond.len() - i,
        {
            let script = self.store.fidelity_bond[i].script_pub_key();
            self.rpc.watch_script(&script, None);
            proof {
                assert(views(store.fidelity_bond@)[i as int] == store.fidelity_bond@[i as int]@);
                assert(r3[i as int] == (script@, None::<OriginView>));
                let so_far = addresses + r3.take(i as int);
                lemma_registered_push::<B>(start, so_far, r3[i as int]);
                assert(addresses + r3.take(i + 1) =~= so_far.push(r3[i as int]));
            }
            i += 1;
        }
        let ghost with_bonds = addresses + r3;
        proof {
            assert(r3.take(i as int) =~= r3);
        }
        let ghost incoming = store.incoming_swapcoins.entries@;
        let mut j: usize = 0;
        assert(incoming.take(0) =~= Seq::<(Txid, IncomingSwapCoin)>::empty());
        assert(with_bonds + incoming_regs(incoming.take(0)) =~= with_bonds);
        while j < self.store.incoming_swapcoins.entries.len()
            invariant
                j <= self.store.incoming_swapcoins.entries.len(),
                store == old(self).store,
                self.well_formed(),
                self.store == store,
                self.rpc.privacy() == old(self).rpc.privacy(),
                self.rpc.rest() == old(self).rpc.rest(),
                incoming == store.incoming_swapcoins.entries@,
                self.rpc.local() == registered::<B>(
                    start,
                    with_bonds + incoming_regs(incoming.take(j as int)),
                ),
            decreases self.store.incoming_swapcoins.entries.len() - j,
        {
            let coin = self.store.incoming_swapcoins.entries[j].1.duplicate();
            self.watch_coin(&coin.my_pubkey, &coin.other_pubkey, &coin.contract_redeemscript);
            proof {
                let c = incoming[j as int].1@;
                let more = coin_regs(c.my_pubkey, c.other_pubkey, c.contract_redeemscript);
                let so_far = with_bonds + incoming_regs(incoming.take(j as int));
                lemma_registered_concat::<B>(start, so_far, more);
                assert(incoming.take(j + 1).drop_last() =~= incoming.take(j as int));
                assert(with_bonds + incoming_regs(incoming.take(j + 1)) =~= so_far + more);
            }
            j += 1;
        }
        let ghost with_incoming = with_bonds + incoming_regs(incoming);
        proof {
            assert(incoming.take(j as int) =~= incoming);
        }
        let ghost outgoing = store.outgoing_swapcoins.entries@;
        let mut k: usize = 0;
        assert(outgoing.take(0) =~= Seq::<(Txid, OutgoingSwapCoin)>::empty());
        assert(with_incoming + outgoing_regs(outgoing.take(0)) =~= with_incoming);
        while k < self.store.outgoing_swapcoins.entries.len()
            invariant
                k <= self.store.outgoing_swapcoins.entries.len(),
                store == old(self).store,
                self.well_formed(),
                self.store == store,
                self.rpc.privacy() == old(self).rpc.privacy(),
                self.rpc.rest() == old(self).rpc.rest(),
                outgoing == store.outgoing_swapcoins.entries@,
                self.rpc.local() == registered::<B>(
                    start,
                    with_incoming + outgoing_regs(outgoing.take(k as int)),
                ),
            decreases self.store.outgoing_swapcoins.entries.len() - k,
        {
            let coin = self.store.outgoing_swapcoins.entries[k].1.duplicate();
            self.watch_coin(&coin.my_pubkey, &coin.other_pubkey, &coin.contract_redeemscript);
            proof {
                let c = outgoing[k as int].1@;
                let more = coin_regs(c.my_pubkey, c.other_pubkey, c.contract_redeemscript);
                let so_far = with_incoming + outgoing_regs(outgoing.take(k as int));
                lemma_registered_concat::<B>(start, so_far, more);
                assert(outgoing.take(k + 1).drop_last() =~= outgoing.take(k as int));
                assert(with_incoming + outgoing_regs(outgoing.take(k + 1)) =~= so_far + more);
            }
            k += 1;
        }
        proof {
            assert(outgoing.take(k as int) =~= outgoing);
            assert(with_incoming + outgoing_regs(outgoing) =~= wallet_regs(
                store,
                ADDRESS_IMPORT_COUNT,
            ));
        }
        Ok(())
    }
}

/// The highest index of a list of decoys, and of the watched range.
pub open spec fn top_index(entries: Seq<DecoyView>, count: u32) -> u32
    decreases entries.len(),
{
    if entries.len() == 0 {
        count
    } else {
        let before = top_index(entries.drop_last(), count);
        if entries.last().hd_index > before {
            entries.last().hd_index
        } else {
            before
        }
    }
}

proof fn lemma_top_index(entries: Seq<DecoyView>, count: u32)
    requires
        count < 0x8000_0000,
        forall|i: int| 0 <= i < entries.len() ==> (#[trigger] entries[i]).hd_index < 0x8000_0000,
    ensures
        count <= top_index(entries, count) < 0x8000_0000,
        forall|i: int|
            0 <= i < entries.len() ==> (#[trigger] entries[i]).hd_index <= top_index(
                entries,
                count,
            ),
    decreases entries.len(),
{
    if entries.len() > 0 {
        lemma_top_index(entries.drop_last(), count);
        assert forall|i: int| 0 <= i < entries.len() implies (#[trigger] entries[i]).hd_index
            <= top_index(entries, count) by {
            if i < entries.len() - 1 {
                assert(entries.drop_last()[i] == entries[i]);
            }
        }
    }
}

/// The number of decoys that a backend is given: as many as a query batch may want, and no more
/// than the wallet keeps.
pub open spec fn decoy_target(privacy: PrivacyConfig) -> usize {
    let wanted = if privacy.decoy_pool_range.1 >= 1 {
        privacy.decoy_pool_range.1
    } else {
        1
    };
    if privacy.max_decoy_cache_size <= wanted {
        privacy.max_decoy_cache_size
    } else {
        wanted
    }
}

/// The number of decoys that a backend is given.
pub fn decoys_wanted(privacy: &PrivacyConfig) -> (target: usize)
    ensures
        target == decoy_target(*privacy),
{
    let wanted = if privacy.decoy_pool_range.1 >= 1 {
        privacy.decoy_pool_range.1
    } else {
        1
    };
    if privacy.max_decoy_cache_size <= wanted {
        privacy.max_decoy_cache_size
    } else {
        wanted
    }
}

/// A decoy cache with the limits of a configuration.
pub open spec fn with_limits(cache: DecoyCache, privacy: PrivacyConfig) -> DecoyCache {
    DecoyCache {
        max_cache_size: privacy.max_decoy_cache_size,
        rotation_range: privacy.decoy_rotation_range,
        max_age_secs: privacy.max_decoy_age_secs,
        retire_after_uses_range: privacy.retire_after_uses_range,
        ..cache
    }
}

/// The chain that a decoy was derived on.
pub open spec fn decoy_chain(e: DecoyView) -> KeychainKind {
    if e.is_internal {
        KeychainKind::Internal
    } else {
        KeychainKind::External
    }
}

/// Whether decoys were derived below a master key, at consecutive indices from `first` on, and have
/// not been used yet.
pub open spec fn derived_in_turn(
    fresh: Seq<DecoyView>,
    master: Seq<u8>,
    first: int,
    limits: (u32, u32),
) -> bool {
    forall|k: int|
        0 <= k < fresh.len() ==> {
            let e = #[trigger] fresh[k];
            &&& e.hd_index == first + k
            &&& e.hd_index < 0x8000_0000
            &&& e.times_used == 0
            &&& account_key(master, e.address_type) is Some
            &&& account_script(
                account_key(master, e.address_type)->Some_0,
                e.address_type,
                decoy_chain(e),
                e.hd_index,
            ) == Some(e.script)
            &&& limits.0 <= e.retire_after_uses <= limits.1 || limits.1 <= e.retire_after_uses
                <= limits.0
        }
}

/// The scripts that a backend keeps after decoys were added, one after the other.
pub open spec fn add_decoys(local: LocalScripts, scripts: Seq<Seq<u8>>) -> LocalScripts
    decreases scripts.len(),
{
    if scripts.len() == 0 {
        local
    } else {
        add_decoys(local, scripts.drop_last()).add_decoy(scripts.last())
    }
}

/// What giving the backend new decoys comes to: a selection from the cache, with fresh decoys from
/// beyond the watched range and beyond every decoy that the cache knows.
pub open spec fn decoys_given(
    before: WalletStore,
    after: WalletStore,
    local: LocalScripts,
    local_after: LocalScripts,
    privacy: PrivacyConfig,
    count: u32,
    fresh_count: nat,
) -> bool {
    let cache = with_limits(before.decoy_cache, privacy);
    &&& after.decoy_cache.same_limits(cache)
    &&& exists|now: u64, order: Seq<usize>, fresh: Seq<DecoyView>, scripts: Seq<Seq<u8>>|
        {
            &&& #[trigger] decoys_chosen(
                cache,
                views(after.decoy_cache.entries@),
                scripts,
                decoy_target(privacy) as nat,
                fresh_count,
                now,
                order,
                fresh,
            )
            &&& derived_in_turn(
                fresh,
                before.master_key@,
                top_index(views(before.decoy_cache.entries@), count) + 1,
                privacy.retire_after_uses_range,
            )
            &&& local_after == add_decoys(local.without_decoys(), scripts)
        }
}

/// A fresh decoy is derived beyond the addresses that the wallet watches, and beyond every decoy
/// that the cache holds.
pub proof fn law_fresh_decoys_avoid_real_addresses(
    fresh: Seq<DecoyView>,
    master: Seq<u8>,
    cached: Seq<DecoyView>,
    count: u32,
    limits: (u32, u32),
    k: int,
)
    requires
        count < 0x8000_0000,
        forall|i: int| 0 <= i < cached.len() ==> (#[trigger] cached[i]).hd_index < 0x8000_0000,
        derived_in_turn(fresh, master, top_index(cached, count) + 1, limits),
        0 <= k < fresh.len(),
    ensures
        fresh[k].hd_index > count,
        forall|i: int|
            0 <= i < cached.len() ==> (#[trigger] cached[i]).hd_index < fresh[k].hd_index,
{
    lemma_top_index(cached, count);
    assert(fresh[k].hd_index == top_index(cached, count) + 1 + k);
}

/// Decoys never become scripts that the wallet watches.
pub proof fn law_decoys_are_not_watched(local: LocalScripts, scripts: Seq<Seq<u8>>)
    ensures
        add_decoys(local, scripts).watched == local.watched,
        add_decoys(local, scripts).origins == local.origins,
        forall|s: Seq<u8>| #[trigger]
            add_decoys(local, scripts).decoys.contains(s) <==> local.decoys.contains(s)
                || scripts.contains(s),
    decreases scripts.len(),
{
    if scripts.len() > 0 {
        let shorter = scripts.drop_last();
        law_decoys_are_not_watched(local, shorter);
        assert forall|s: Seq<u8>| #[trigger]
            add_decoys(local, scripts).decoys.contains(s) <==> local.decoys.contains(s)
                || scripts.contains(s) by {
            if shorter.contains(s) {
                let i = choose|i: int| 0 <= i < shorter.len() && shorter[i] == s;
                assert(scripts[i] == s);
            }
            if scripts.contains(s) && s != scripts.last() {
                let i = choose|i: int| 0 <= i < scripts.len() && scripts[i] == s;
                assert(shorter[i] == s);
            }
            assert(scripts[scripts.len() - 1] == scripts.last());
        }
    }
}

/// The script at a place of a chain below the account key of its address type.
pub open spec fn script_for(
    p2wpkh_account: Seq<u8>,
    p2tr_account: Seq<u8>,
    address_type: AddressType,
    keychain: KeychainKind,
    index: u32,
) -> Option<Seq<u8>> {
    match address_type {
        AddressType::P2WPKH => account_script(p2wpkh_account, address_type, keychain, index),
        AddressType::P2TR => account_script(p2tr_account, address_type, keychain, index),
    }
}

/// What a store is left as where decoys cannot be derived: the cache has the limits of the settings. Where
/// an account key is lacking, it holds what it held. Otherwise a selection broke off at an index at
/// which a script cannot be derived.
pub open spec fn decoys_failed(
    before: WalletStore,
    after: WalletStore,
    privacy: PrivacyConfig,
    count: u32,
    fresh_count: nat,
) -> bool {
    let cache = with_limits(before.decoy_cache, privacy);
    let first = top_index(views(before.decoy_cache.entries@), count) + 1;
    let p2wpkh = account_key(before.master_key@, AddressType::P2WPKH);
    let p2tr = account_key(before.master_key@, AddressType::P2TR);
    if p2wpkh is None || p2tr is None {
        after.decoy_cache == cache
    } else {
        &&& after.decoy_cache.same_limits(cache)
        &&& exists|now: u64, order: Seq<usize>, fresh: Seq<DecoyView>|
            {
                &&& #[trigger] selection_broken_off(
                    cache,
                    views(after.decoy_cache.entries@),
                    decoy_target(privacy) as nat,
                    fresh_count,
                    now,
                    order,
                    fresh,
                )
                &&& derived_in_turn(
                    fresh,
                    before.master_key@,
                    first,
                    privacy.retire_after_uses_range,
                )
                &&& underivable_at(p2wpkh->Some_0, p2tr->Some_0, first + fresh.len())
            }
    }
}

/// Whether a script at an index, of one type and on one chain, cannot be derived.
pub open spec fn underivable_at(p2wpkh_account: Seq<u8>, p2tr_account: Seq<u8>, index: int) -> bool {
    exists|address_type: AddressType, keychain: KeychainKind| #[trigger]
        script_for(p2wpkh_account, p2tr_account, address_type, keychain, index as u32) is None
}

/// Whether every decoy of a list was derived at an unhardened index.
spec fn all_in_range(entries: Seq<DecoyView>) -> bool {
    forall|i: int| 0 <= i < entries.len() ==> (#[trigger] entries[i]).hd_index < 0x8000_0000
}

proof fn lemma_in_range_reused(
    before: Seq<DecoyView>,
    now: u64,
    max_age: u64,
    order: Seq<usize>,
)
    requires
        all_in_range(before),
    ensures
        all_in_range(after_reuse(alive_entries(before, now, max_age), order)),
{
    let pred = |e: DecoyView| e.alive(now, max_age);
    let live = alive_entries(before, now, max_age);
    let used = after_reuse(live, order);
    assert forall|i: int| 0 <= i < used.len() implies (#[trigger] used[i]).hd_index
        < 0x8000_0000 by {
        before.lemma_filter_contains_rev(pred, live[i]);
        let j = choose|j: int| 0 <= j < before.len() && before[j] == live[i];
        assert(before[j].hd_index < 0x8000_0000);
    }
}

proof fn lemma_in_range_trimmed(entries: Seq<DecoyView>, max: nat, now: u64)
    requires
        all_in_range(entries),
    ensures
        all_in_range(trimmed(entries, max, now)),
{
    let kept = trimmed(entries, max, now);
    assert forall|i: int| 0 <= i < kept.len() implies (#[trigger] kept[i]).hd_index
        < 0x8000_0000 by {
        law_trim_keeps_members(entries, max, now, kept[i]);
        let j = choose|j: int| 0 <= j < entries.len() && entries[j] == kept[i];
        assert(entries[j].hd_index < 0x8000_0000);
    }
}

proof fn lemma_range_views(cache: DecoyCache)
    ensures
        decoys_in_range(cache) <==> all_in_range(views(cache.entries@)),
{
    if all_in_range(views(cache.entries@)) {
        assert forall|i: int| 0 <= i < cache.entries@.len() implies (
        #[trigger] cache.entries@[i]).hd_index < 0x8000_0000 by {
            assert(views(cache.entries@)[i] == cache.entries@[i]@);
        }
    }
    if decoys_in_range(cache) {
        assert forall|i: int| 0 <= i < views(cache.entries@).len() implies (
        #[trigger] views(cache.entries@)[i]).hd_index < 0x8000_0000 by {
            assert(views(cache.entries@)[i] == cache.entries@[i]@);
        }
    }
}

/// The highest index of the decoys of a cache, and of the watched range.
fn highest_cached_index(cache: &DecoyCache, count: u32) -> (index: u32)
    ensures
        index == top_index(views(cache.entries@), count),
{
    let ghost all = views(cache.entries@);
    let mut index: u32 = count;
    let mut i: usize = 0;
    assert(all.take(0) =~= Seq::<DecoyView>::empty());
    while i < cache.entries.len()
        invariant
            all == views(cache.entries@),
            i <= cache.entries.len(),
            index == top_index(all.take(i as int), count),
        decreases cache.entries.len() - i,
    {
        proof {
            assert(all.take(i + 1).drop_last() =~= all.take(i as int));
            assert(all.take(i + 1).last() == cache.entries@[i as int]@);
        }
        if cache.entries[i].hd_index > index {
            index = cache.entries[i].hd_index;
        }
        i += 1;
    }
    assert(all.take(i as int) =~= all);
    index
}

/// How a backend is given decoys. One that scans blocks needs none. One that asks for each script
/// forgets those that it had; it is given new ones where the privacy settings ask for them, as far as
/// their keys can be derived.
pub open spec fn decoys_populated(
    privacy: Option<PrivacyConfig>,
    electrum: bool,
    before: (WalletStore, LocalScripts),
    after: (WalletStore, LocalScripts),
    fresh_count: nat,
    result: Result<(), WalletError>,
) -> bool {
    if !electrum {
        result is Ok && after == before
    } else {
        match privacy {
            Some(p) => if !p.enabled {
                result is Ok && after.0 == before.0 && after.1 == before.1.without_decoys()
            } else {
                match result {
                    Ok(_) => if decoy_target(p) == 0 {
                        after.0.decoy_cache == with_limits(before.0.decoy_cache, p) && after.1
                            == before.1.without_decoys()
                    } else {
                        decoys_given(
                            before.0,
                            after.0,
                            before.1,
                            after.1,
                            p,
                            ADDRESS_IMPORT_COUNT,
                            fresh_count,
                        )
                    },
                    Err(e) => e == WalletError::Derivation && after.1 == before.1.without_decoys()
                        && decoys_failed(before.0, after.0, p, ADDRESS_IMPORT_COUNT, fresh_count),
                }
            },
            None => result is Ok && after.0 == before.0 && after.1 == before.1.without_decoys(),
        }
    }
}

impl<B: BlockchainBackend> Wallet<B> {
    /// Derives a decoy at an index, on an address type and a chain that chance picks.
    fn derive_fresh_decoy(
        p2wpkh_account: &Xpriv,
        p2tr_account: &Xpriv,
        index: u32,
        retire_after_uses: u32,
    ) -> (entry: Result<DecoyEntry, WalletError>)
        ensures
            match entry {
                Ok(e) => {
                    &&& e.hd_index == index
                    &&& index < 0x8000_0000
                    &&& e.times_used == 0
                    &&& script_for(
                        p2wpkh_account@,
                        p2tr_account@,
                        e.address_type,
                        decoy_chain(e@),
                        index,
                    ) == Some(e.script@)
                },
                Err(e) => e == WalletError::Derivation && exists|
                    address_type: AddressType,
                    keychain: KeychainKind,
                |
                    #[trigger] script_for(
                        p2wpkh_account@,
                        p2tr_account@,
                        address_type,
                        keychain,
                        index,
                    ) is None,
            },
    {
        let address_type = if coin_flip() {
            AddressType::P2WPKH
        } else {
            AddressType::P2TR
        };
        let is_internal = !coin_flip();
        let keychain = if is_internal {
            KeychainKind::Internal
        } else {
            KeychainKind::External
        };
        let account = match address_type {
            AddressType::P2WPKH => p2wpkh_account,
            AddressType::P2TR => p2tr_account,
        };
        let script = match script_from_account(account, address_type, keychain, index) {
            Ok(script) => script,
            Err(e) => {
                assert(script_for(
                    p2wpkh_account@,
                    p2tr_account@,
                    address_type,
                    keychain,
                    index,
                ) is None);
                return Err(e);
            },
        };
        Ok(DecoyEntry::new(script, index, address_type, is_internal, retire_after_uses))
    }

    /// Gives an Electrum backend new decoys to ask for, `fresh_count` of them fresh as far as the
    /// cache holds enough others. Other backends, and backends whose decoys are switched off, get
    /// none.
    #[verifier::rlimit(30)]
    pub fn populate_backend_decoy_scripts(&mut self, fresh_count: usize) -> (result: Result<
        (),
        WalletError,
    >)
        requires
            old(self).well_formed(),
        ensures
            final(self).well_formed(),
            final(self).store == (WalletStore {
                decoy_cache: final(self).store.decoy_cache,
                ..old(self).store
            }),
            final(self).rpc.privacy() == old(self).rpc.privacy(),
            final(self).rpc.rest() == old(self).rpc.rest(),
            !B::spec_is_electrum() ==> *final(self) == *old(self),
            decoys_populated(
                old(self).rpc.privacy(),
                B::spec_is_electrum(),
                (old(self).store, old(self).rpc.local()),
                (final(self).store, final(self).rpc.local()),
                fresh_count as nat,
                result,
            ),
    {
        if !B::is_electrum() {
            return Ok(());
        }
        self.rpc.clear_decoy_scripts();
        let privacy = match self.rpc.privacy_config() {
            Some(privacy) => privacy,
            None => {
                return Ok(());
            },
        };
        if !privacy.enabled {
            return Ok(());
        }
        let ghost local = self.rpc.local();
        let ghost before = views(self.store.decoy_cache.entries@);
        let ghost master = self.store.master_key@;
        let ghost cache = with_limits(self.store.decoy_cache, privacy);
        let limits = privacy.retire_after_uses_range;
        self.store.decoy_cache.max_cache_size = privacy.max_decoy_cache_size;
        self.store.decoy_cache.rotation_range = privacy.decoy_rotation_range;
        self.store.decoy_cache.max_age_secs = privacy.max_decoy_age_secs;
        self.store.decoy_cache.retire_after_uses_range = limits;
        proof {
            lemma_range_views(old(self).store.decoy_cache);
            lemma_range_views(self.store.decoy_cache);
        }
        let p2wpkh_account = derive_account(&self.store.master_key, AddressType::P2WPKH)?;
        let p2tr_account = derive_account(&self.store.master_key, AddressType::P2TR)?;
        let count = self.get_addrss_import_count();
        let top = highest_cached_index(&self.store.decoy_cache, count);
        proof {
            lemma_top_index(before, count);
        }
        let first: u32 = top + 1;
        let target = decoys_wanted(&privacy);
        if target == 0 {
            return Ok(());
        }
        let now = now_unix_secs();
        let (order, mut scripts) = self.store.decoy_cache.begin_batch(target, fresh_count, now);
        let ghost taken = views(scripts@);
        let ghost used = views(self.store.decoy_cache.entries@);
        proof {
            lemma_in_range_reused(before, now, cache.max_age_secs, order@);
            lemma_range_views(self.store.decoy_cache);
            assert(taken.len() == scripts.len());
        }
        let ghost mut fresh: Seq<DecoyView> = Seq::empty();
        let ghost live = alive_entries(before, now, cache.max_age_secs);
        let fresh_needed = target - scripts.len();
        let mut next: u32 = first;
        let mut k: usize = 0;
        proof {
            assert(used =~= used + fresh);
            assert(taken =~= taken + decoy_scripts(fresh));
        }
        while k < fresh_needed
            invariant
                k <= fresh_needed,
                fresh.len() == k,
                self.well_formed(),
                self.rpc.privacy() == Some(privacy),
                self.rpc.rest() == old(self).rpc.rest(),
                privacy == old(self).rpc.privacy()->Some_0,
                old(self).rpc.privacy() is Some,
                B::spec_is_electrum(),
                privacy.enabled,
                limits == privacy.retire_after_uses_range,
                self.rpc.local() == local,
                local == old(self).rpc.local().without_decoys(),
                master == old(self).store.master_key@,
                account_key(master, AddressType::P2WPKH) == Some(p2wpkh_account@),
                account_key(master, AddressType::P2TR) == Some(p2tr_account@),
                self.store == (WalletStore {
                    decoy_cache: self.store.decoy_cache,
                    ..old(self).store
                }),
                self.store.decoy_cache.same_limits(cache),
                cache == with_limits(old(self).store.decoy_cache, privacy),
                before == views(old(self).store.decoy_cache.entries@),
                live == alive_entries(before, now, cache.max_age_secs),
                is_choice(
                    order@,
                    live.len(),
                    reuse_count(target as nat, fresh_count as nat, live.len()),
                ),
                used == after_reuse(live, order@),
                fresh_needed == target - order@.len(),
                target == decoy_target(privacy),
                views(self.store.decoy_cache.entries@) == used + fresh,
                views(scripts@) == taken + decoy_scripts(fresh),
                all_in_range(used + fresh),
                derived_in_turn(fresh, master, first as int, limits),
                first == top_index(views(old(self).store.decoy_cache.entries@), ADDRESS_IMPORT_COUNT)
                    + 1,
                next >= first,
                first + k <= 0x8000_0000 ==> next == first + k,
                next == if first + k <= u32::MAX {
                    (first + k) as u32
                } else {
                    u32::MAX
                },
            decreases fresh_needed - k,
        {
            let entry = match Self::derive_fresh_decoy(
                &p2wpkh_account,
                &p2tr_account,
                next,
                limits.1,
            ) {
                Ok(entry) => entry,
                Err(e) => {
                    proof {
                        if k > 0 {
                            assert(fresh[k - 1].hd_index == first + (k - 1));
                        }
                        assert(next == first + fresh.len());
                        assert(underivable_at(
                            p2wpkh_account@,
                            p2tr_account@,
                            first + fresh.len(),
                        ));
                        assert(selection_broken_off(
                            cache,
                            views(self.store.decoy_cache.entries@),
                            decoy_target(privacy) as nat,
                            fresh_count as nat,
                            now,
                            order@,
                            fresh,
                        ));
                    }
                    return Err(e);
                },
            };
            next = next.saturating_add(1);
            let limit = draw_u32_inclusive(limits);
            let ghost added = entry@.with_limit(limit);
            let ghost so_far = views(scripts@);
            let script = self.store.decoy_cache.add_fresh(entry, limit);
            scripts.push(script);
            proof {
                let longer = fresh.push(added);
                assert forall|j: int| 0 <= j < longer.len() implies {
                    let e = #[trigger] longer[j];
                    &&& e.hd_index == first + j
                    &&& e.hd_index < 0x8000_0000
                    &&& e.times_used == 0
                    &&& account_key(master, e.address_type) is Some
                    &&& account_script(
                        account_key(master, e.address_type)->Some_0,
                        e.address_type,
                        decoy_chain(e),
                        e.hd_index,
                    ) == Some(e.script)
                    &&& limits.0 <= e.retire_after_uses <= limits.1 || limits.1
                        <= e.retire_after_uses <= limits.0
                } by {
                    if j < fresh.len() {
                        assert(longer[j] == fresh[j]);
                    } else {
                        assert(longer[j] == added);
                        assert(decoy_chain(added) == decoy_chain(entry@));
                    }
                }
                assert(views(scripts@) =~= so_far.push(added.script));
                assert(decoy_scripts(longer) =~= decoy_scripts(fresh).push(added.script));
                assert(views(scripts@) =~= taken + decoy_scripts(longer));
                assert(views(self.store.decoy_cache.entries@) =~= used + longer);
                assert forall|i: int| 0 <= i < (used + longer).len() implies (
                #[trigger] (used + longer)[i]).hd_index < 0x8000_0000 by {
                    if i < (used + fresh).len() {
                        assert((used + longer)[i] == (used + fresh)[i]);
                    } else {
                        assert((used + longer)[i] == added);
                    }
                }
                lemma_range_views(self.store.decoy_cache);
                fresh = longer;
            }
            k += 1;
        }
        self.store.decoy_cache.trim(now);
        proof {
            lemma_in_range_trimmed(used + fresh, cache.max_cache_size as nat, now);
            lemma_range_views(self.store.decoy_cache);
        }
        let ghost given = views(scripts@);
        let mut n: usize = 0;
        assert(given.take(0) =~= Seq::<Seq<u8>>::empty());
        let ghost done = self.store;
        while n < scripts.len()
            invariant
                n <= scripts.len(),
                given == views(scripts@),
                self.well_formed(),
                self.store == done,
                self.rpc.privacy() == Some(privacy),
                self.rpc.rest() == old(self).rpc.rest(),
                B::spec_is_electrum(),
                self.rpc.local() == add_decoys(local, given.take(n as int)),
            decreases scripts.len() - n,
        {
            self.rpc.watch_decoy_script(&scripts[n]);
            proof {
                assert(given.take(n + 1).drop_last() =~= given.take(n as int));
                assert(given.take(n + 1).last() == scripts@[n as int]@);
            }
            n += 1;
        }
        proof {
            assert(given.take(n as int) =~= given);
            assert(decoys_chosen(
                cache,
                views(self.store.decoy_cache.entries@),
                given,
                decoy_target(privacy) as nat,
                fresh_count as nat,
                now,
                order@,
                fresh,
            ));
        }
        Ok(())
    }
}

/// Nothing is watched afterwards that was not watched before or was to be watched.
pub proof fn law_nothing_else_is_watched(
    local: LocalScripts,
    regs: Seq<Registration>,
    script: Seq<u8>,
)
    requires
        watch_all(local, regs).watched.contains(script),
    ensures
        local.watched.contains(script) || exists|i: int|
            0 <= i < regs.len() && (#[trigger] regs[i]).0 == script,
    decreases regs.len(),
{
    if regs.len() > 0 {
        let shorter = regs.drop_last();
        if regs.last().0 == script {
            assert(regs[regs.len() - 1].0 == script);
        } else {
            law_nothing_else_is_watched(local, shorter, script);
            if !local.watched.contains(script) {
                let i = choose|i: int| 0 <= i < shorter.len() && (#[trigger] shorter[i]).0 == script;
                assert(regs[i] == shorter[i]);
            }
        }
    }
}

proof fn lemma_origin_kept(local: LocalScripts, regs: Seq<Registration>, i: int)
    requires
        0 <= i < regs.len(),
        regs[i].1 is Some,
    ensures
        watch_all(local, regs).origins.contains_key(regs[i].0),
    decreases regs.len(),
{
    if i < regs.len() - 1 {
        assert(regs.drop_last()[i] == regs[i]);
        lemma_origin_kept(local, regs.drop_last(), i);
    }
}

/// The first 500 addresses of a wallet are watched, of either type and on either chain, each with its place: the
/// fingerprint of the account key, the chain, the index and the type.
pub proof fn law_first_addresses_are_watched<B: BlockchainBackend>(
    store: WalletStore,
    local: LocalScripts,
    address_type: AddressType,
    keychain: KeychainKind,
    index: u32,
    account: Seq<u8>,
    fingerprint: Seq<char>,
    script: Seq<u8>,
)
    requires
        index < 500,
        account_key(store.master_key@, address_type) == Some(account),
        key_fingerprint(account) == Some(fingerprint),
        account_script(account, address_type, keychain, index) == Some(script),
    ensures
        wallet_regs(store, ADDRESS_IMPORT_COUNT).contains(
            (
                script,
                Some(
                    OriginView {
                        fingerprint,
                        keychain_idx: if keychain == KeychainKind::External {
                            0
                        } else {
                            1
                        },
                        index,
                        is_taproot: address_type == AddressType::P2TR,
                    },
                ),
            ),
        ),
        B::spec_is_electrum() ==> registered::<B>(
            local,
            wallet_regs(store, ADDRESS_IMPORT_COUNT),
        ).watched.contains(script) && registered::<B>(
            local,
            wallet_regs(store, ADDRESS_IMPORT_COUNT),
        ).origins.contains_key(script),
{
    let regs = wallet_regs(store, ADDRESS_IMPORT_COUNT);
    let at = index + if keychain == KeychainKind::External {
        0int
    } else {
        500int
    } + if address_type == AddressType::P2WPKH {
        0int
    } else {
        1000int
    };
    assert(regs[at].0 == script);
    assert(regs[at].1 == Some(origin_at(fingerprint, address_type, keychain, index)));
    law_registered_scripts_are_watched(local, regs, script);
    lemma_origin_kept(local, regs, at);
}

/// The outputs of fidelity bonds are watched.
pub proof fn law_bonds_are_watched<B: BlockchainBackend>(
    store: WalletStore,
    local: LocalScripts,
    count: u32,
    i: int,
)
    requires
        0 <= i < store.fidelity_bond@.len(),
        B::spec_is_electrum(),
    ensures
        registered::<B>(local, wallet_regs(store, count)).watched.contains(
            p2wsh_bytes(store.fidelity_bond@[i]@.redeem_script),
        ),
{
    let regs = wallet_regs(store, count);
    let at = 4 * count + i;
    let bonds = views(store.fidelity_bond@);
    assert(bonds[i] == store.fidelity_bond@[i]@);
    assert(regs[at] == bond_regs(bonds)[i]);
    law_registered_scripts_are_watched(local, regs, regs[at].0);
}

proof fn lemma_incoming_regs(coins: Seq<(Txid, IncomingSwapCoin)>, i: int, reg: Registration)
    requires
        0 <= i < coins.len(),
        coin_regs(
            coins[i].1@.my_pubkey,
            coins[i].1@.other_pubkey,
            coins[i].1@.contract_redeemscript,
        ).contains(reg),
    ensures
        incoming_regs(coins).contains(reg),
    decreases coins.len(),
{
    let before = incoming_regs(coins.drop_last());
    let all = incoming_regs(coins);
    if i < coins.len() - 1 {
        assert(coins.drop_last()[i] == coins[i]);
        lemma_incoming_regs(coins.drop_last(), i, reg);
        let j = choose|j: int| 0 <= j < before.len() && before[j] == reg;
        assert(all[j] == reg);
    } else {
        let c = coins[i].1@;
        let own = coin_regs(c.my_pubkey, c.other_pubkey, c.contract_redeemscript);
        let j = choose|j: int| 0 <= j < own.len() && own[j] == reg;
        assert(all[before.len() + j] == reg);
    }
}

proof fn lemma_outgoing_regs(coins: Seq<(Txid, OutgoingSwapCoin)>, i: int, reg: Registration)
    requires
        0 <= i < coins.len(),
        coin_regs(
            coins[i].1@.my_pubkey,
            coins[i].1@.other_pubkey,
            coins[i].1@.contract_redeemscript,
        ).contains(reg),
    ensures
        outgoing_regs(coins).contains(reg),
    decreases coins.len(),
{
    let before = outgoing_regs(coins.drop_last());
    let all = outgoing_regs(coins);
    if i < coins.len() - 1 {
        assert(coins.drop_last()[i] == coins[i]);
        lemma_outgoing_regs(coins.drop_last(), i, reg);
        let j = choose|j: int| 0 <= j < before.len() && before[j] == reg;
        assert(all[j] == reg);
    } else {
        let c = coins[i].1@;
        let own = coin_regs(c.my_pubkey, c.other_pubkey, c.contract_redeemscript);
        let j = choose|j: int| 0 <= j < own.len() && own[j] == reg;
        assert(all[before.len() + j] == reg);
    }
}

proof fn lemma_coin_regs(
    mine: Option<Seq<u8>>,
    other: Option<Seq<u8>>,
    redeem: Option<Seq<u8>>,
)
    ensures
        mine is Some && other is Some ==> coin_regs(mine, other, redeem).contains(
            (multisig_spk(mine->Some_0, other->Some_0), None::<OriginView>),
        ),
        redeem is Some ==> coin_regs(mine, other, redeem).contains(
            (p2wsh_bytes(redeem->Some_0), None::<OriginView>),
        ),
{
    let regs = coin_regs(mine, other, redeem);
    if mine is Some && other is Some {
        assert(regs[0] == (multisig_spk(mine->Some_0, other->Some_0), None::<OriginView>));
    }
    if redeem is Some {
        assert(regs[regs.len() - 1] == (p2wsh_bytes(redeem->Some_0), None::<OriginView>));
    }
}

/// Both outputs of every coin that the wallet received are watched: the two-of-two output of its keys, and the
/// output of its contract.
pub proof fn law_received_coins_are_watched<B: BlockchainBackend>(
    store: WalletStore,
    local: LocalScripts,
    count: u32,
    i: int,
)
    requires
        0 <= i < store.incoming_swapcoins.entries@.len(),
        B::spec_is_electrum(),
    ensures
        ({
            let coin = store.incoming_swapcoins.entries@[i].1;
            let watched = registered::<B>(local, wallet_regs(store, count)).watched;
            &&& coin.my_pubkey is Some && coin.other_pubkey is Some ==> watched.contains(
                multisig_spk(coin.my_pubkey->Some_0@, coin.other_pubkey->Some_0@),
            )
            &&& coin.contract_redeemscript is Some ==> watched.contains(
                p2wsh_bytes(coin.contract_redeemscript->Some_0@),
            )
        }),
{
    let coins = store.incoming_swapcoins.entries@;
    let c = coins[i].1@;
    let regs = wallet_regs(store, count);
    let own = incoming_regs(coins);
    let from = 4 * count + store.fidelity_bond@.len();
    lemma_coin_regs(c.my_pubkey, c.other_pubkey, c.contract_redeemscript);
    law_registered_scripts_are_watched(local, regs, Seq::empty());
    if c.my_pubkey is Some && c.other_pubkey is Some {
        let reg = (multisig_spk(c.my_pubkey->Some_0, c.other_pubkey->Some_0), None::<OriginView>);
        lemma_incoming_regs(coins, i, reg);
        let j = choose|j: int| 0 <= j < own.len() && own[j] == reg;
        assert(regs[from + j] == reg);
    }
    if c.contract_redeemscript is Some {
        let reg = (p2wsh_bytes(c.contract_redeemscript->Some_0), None::<OriginView>);
        lemma_incoming_regs(coins, i, reg);
        let j = choose|j: int| 0 <= j < own.len() && own[j] == reg;
        assert(regs[from + j] == reg);
    }
}

/// Both outputs of every coin that the wallet sent are watched.
pub proof fn law_sent_coins_are_watched<B: BlockchainBackend>(
    store: WalletStore,
    local: LocalScripts,
    count: u32,
    i: int,
)
    requires
        0 <= i < store.outgoing_swapcoins.entries@.len(),
        B::spec_is_electrum(),
    ensures
        ({
            let coin = store.outgoing_swapcoins.entries@[i].1;
            let watched = registered::<B>(local, wallet_regs(store, count)).watched;
            &&& coin.my_pubkey is Some && coin.other_pubkey is Some ==> watched.contains(
                multisig_spk(coin.my_pubkey->Some_0@, coin.other_pubkey->Some_0@),
            )
            &&& coin.contract_redeemscript is Some ==> watched.contains(
                p2wsh_bytes(coin.contract_redeemscript->Some_0@),
            )
        }),
{
    let coins = store.outgoing_swapcoins.entries@;
    let c = coins[i].1@;
    let regs = wallet_regs(store, count);
    let own = outgoing_regs(coins);
    let from = 4 * count + store.fidelity_bond@.len() + incoming_regs(
        store.incoming_swapcoins.entries@,
    ).len();
    lemma_coin_regs(c.my_pubkey, c.other_pubkey, c.contract_redeemscript);
    law_registered_scripts_are_watched(local, regs, Seq::empty());
    if c.my_pubkey is Some && c.other_pubkey is Some {
        let reg = (multisig_spk(c.my_pubkey->Some_0, c.other_pubkey->Some_0), None::<OriginView>);
        lemma_outgoing_regs(coins, i, reg);
        let j = choose|j: int| 0 <= j < own.len() && own[j] == reg;
        assert(regs[from + j] == reg);
    }
    if c.contract_redeemscript is Some {
        let reg = (p2wsh_bytes(c.contract_redeemscript->Some_0), None::<OriginView>);
        lemma_outgoing_regs(coins, i, reg);
        let j = choose|j: int| 0 <= j < own.len() && own[j] == reg;
        assert(regs[from + j] == reg);
    }
}

/// A backend is given as many decoys as a batch may ask for, one at least, and no more than are kept.
pub proof fn law_decoys_suffice_for_a_batch(privacy: PrivacyConfig)
    ensures
        decoy_target(privacy) <= privacy.max_decoy_cache_size,
        decoy_target(privacy) <= privacy.decoy_pool_range.1 || decoy_target(privacy) <= 1,
        privacy.max_decoy_cache_size >= privacy.decoy_pool_range.1 ==> decoy_target(privacy)
            >= privacy.decoy_pool_range.1,
        privacy.max_decoy_cache_size >= 1 ==> decoy_target(privacy) >= 1,
        privacy.max_decoy_cache_size <= privacy.decoy_pool_range.1 ==> decoy_target(privacy)
            == privacy.max_decoy_cache_size,
{
}

/// Giving a backend decoys never changes what it watches for the wallet. Where decoys are switched off it keeps
/// none, and the wallet stays as it is; where they are on and can be derived, it is given as many as are wanted,
/// and the cache takes the limits of the settings.
pub proof fn law_giving_decoys_keeps_the_watched(
    privacy: Option<PrivacyConfig>,
    electrum: bool,
    before: (WalletStore, LocalScripts),
    after: (WalletStore, LocalScripts),
    fresh_count: nat,
    result: Result<(), WalletError>,
    script: Seq<u8>,
)
    requires
        decoys_populated(privacy, electrum, before, after, fresh_count, result),
    ensures
        after.1.watched == before.1.watched,
        after.1.origins == before.1.origins,
        !electrum ==> result is Ok && after == before,
        electrum && (privacy is None || !privacy->Some_0.enabled) ==> result is Ok && after.0
            == before.0 && !after.1.decoys.contains(script),
        electrum && result is Err ==> !after.1.decoys.contains(script),
        electrum && privacy is Some && privacy->Some_0.enabled ==> {
            let cache = after.0.decoy_cache;
            let p = privacy->Some_0;
            &&& cache.max_cache_size == p.max_decoy_cache_size
            &&& cache.rotation_range == p.decoy_rotation_range
            &&& cache.max_age_secs == p.max_decoy_age_secs
            &&& cache.retire_after_uses_range == p.retire_after_uses_range
        },
        electrum && privacy is Some && privacy->Some_0.enabled && result is Ok && decoy_target(
            privacy->Some_0,
        ) > 0 ==> exists|scripts: Seq<Seq<u8>>|
            {
                &&& scripts.len() == decoy_target(privacy->Some_0)
                &&& after.1.decoys == #[trigger] scripts.to_set()
            },
{
    if electrum && privacy is Some && privacy->Some_0.enabled && result is Ok && decoy_target(
        privacy->Some_0,
    ) > 0 {
        let p = privacy->Some_0;
        let cache = with_limits(before.0.decoy_cache, p);
        let (now, order, fresh, scripts) = choose|
            now: u64,
            order: Seq<usize>,
            fresh: Seq<DecoyView>,
            scripts: Seq<Seq<u8>>,
        |
            {
                &&& #[trigger] decoys_chosen(
                    cache,
                    views(after.0.decoy_cache.entries@),
                    scripts,
                    decoy_target(p) as nat,
                    fresh_count,
                    now,
                    order,
                    fresh,
                )
                &&& derived_in_turn(
                    fresh,
                    before.0.master_key@,
                    top_index(views(before.0.decoy_cache.entries@), ADDRESS_IMPORT_COUNT) + 1,
                    p.retire_after_uses_range,
                )
                &&& after.1 == add_decoys(before.1.without_decoys(), scripts)
            };
        law_decoys_are_not_watched(before.1.without_decoys(), scripts);
        assert(after.1.decoys =~= scripts.to_set());
        assert(scripts.len() == decoy_target(p));
    }
}

/// A fresh decoy looks like an address of the wallet: it is the script of its type at its index, on the chain that
/// it is marked with, and has not been used. Each next one is at the next index.
pub proof fn law_fresh_decoys_are_addresses(
    fresh: Seq<DecoyView>,
    master: Seq<u8>,
    first: int,
    limits: (u32, u32),
    k: int,
    account: Seq<u8>,
)
    requires
        derived_in_turn(fresh, master, first, limits),
        0 <= k < fresh.len(),
        account_key(master, fresh[k].address_type) == Some(account),
        limits.0 <= limits.1,
    ensures
        account_script(
            account,
            fresh[k].address_type,
            if fresh[k].is_internal {
                KeychainKind::Internal
            } else {
                KeychainKind::External
            },
            fresh[k].hd_index,
        ) == Some(fresh[k].script),
        fresh[k].times_used == 0,
        limits.0 <= fresh[k].retire_after_uses <= limits.1,
        fresh[0].hd_index == first,
        k + 1 < fresh.len() ==> fresh[k + 1].hd_index == fresh[k].hd_index + 1,
{
    assert(fresh[0].hd_index == first + 0);
    assert(fresh[k].hd_index == first + k);
    if k + 1 < fresh.len() {
        assert(fresh[k + 1].hd_index == first + (k + 1));
    }
}

} // verus!
