//! The steps of bringing a wallet up to date with the chain.
use vstd::prelude::*;
use vstd::string::*;
use crate::backend::BlockchainBackend;
use crate::bytes::views;
use crate::classify::{cache_updated, coin_info, new_outputs_classifiable};
use crate::error::WalletError;
use crate::listing::{
    address_coins, are_balances, balances_fit, highest_index, is_placed_at,
    law_used_index_is_passed, worth_of, Category,
};
use crate::primitives::{KeychainKind, Txid};
use crate::spend_info::{Balances, ListUnspentResultEntry, UtxoView};
use crate::store::WalletStore;
use crate::text::same_text;
use crate::wallet::{Wallet, ADDRESS_IMPORT_COUNT};
use crate::watch::{decoys_populated, registered, wallet_derivable, wallet_regs, wallet_told};

verus! {

/// The first version of Bitcoin Core that has descriptor wallets.
pub const DESCRIPTOR_WALLET_VERSION: usize = 210_000;

/// What is done so that the node has the wallet loaded.
#[derive(Debug, Clone, Copy, PartialEq, Eq, Structural)]
pub enum CoreWalletStep {
    /// The wallet is loaded.
    Ready,
    /// Ask which wallets the node has on disk.
    AskDirectory,
    /// Load the wallet.
    Load,
    /// Ask for the version of the node.
    AskVersion,
    /// Create the wallet, watch-only, without descriptors.
    CreateLegacy,
    /// Create the wallet, watch-only, with descriptors.
    CreateDescriptors,
}

/// What is done so that the node has a wallet loaded, by what the node has told so far.
pub open spec fn core_wallet_step(
    name: Seq<char>,
    loaded: Seq<Seq<char>>,
    directory: Option<Seq<Seq<char>>>,
    version: Option<usize>,
) -> CoreWalletStep {
    if loaded.contains(name) {
        CoreWalletStep::Ready
    } else {
        match directory {
            None => CoreWalletStep::AskDirectory,
            Some(wallets) => if wallets.contains(name) {
                CoreWalletStep::Load
            } else {
                match version {
                    None => CoreWalletStep::AskVersion,
                    Some(v) => if v < DESCRIPTOR_WALLET_VERSION {
                        CoreWalletStep::CreateLegacy
                    } else {
                        CoreWalletStep::CreateDescriptors
                    },
                }
            },
        }
    }
}

fn names_contain(names: &Vec<String>, name: &str) -> (found: bool)
    ensures
        found == views(names@).contains(name@),
{
    let mut i: usize = 0;
    while i < names.len()
        invariant
            i <= names.len(),
            forall|j: int| 0 <= j < i ==> (#[trigger] names@[j])@ != name@,
        decreases names.len() - i,
    {
        if same_text(names[i].as_str(), name) {
            assert(views(names@)[i as int] == name@);
            return true;
        }
        i += 1;
    }
    assert forall|j: int| 0 <= j < views(names@).len() implies views(names@)[j] != name@ by {
        assert(names@[j]@ != name@);
    }
    false
}

/// What is known so far while a wallet is brought up to date.
#[derive(Debug)]
pub struct SyncFacts {
    /// The wallets that the node has loaded.
    pub loaded: Option<Vec<String>>,
    /// The wallets that the node has on disk.
    pub directory: Option<Vec<String>>,
    /// The version of the node.
    pub version: Option<usize>,
    /// Whether the wallet was loaded or created since.
    pub opened: bool,
    /// How many descriptors the node has yet to import.
    pub to_import: Option<usize>,
    /// The height of the node.
    pub node_height: Option<u64>,
    /// Whether the node was asked to import the descriptors.
    pub imported: bool,
    /// Whether the node scans the chain.
    pub scanning: Option<bool>,
}

/// What is done next to bring a wallet up to date.
#[derive(Debug, Clone, Copy, PartialEq, Eq, Structural)]
pub enum SyncStep {
    /// Register all scripts with the backend, and list their coins: no chain is scanned.
    NoRescan,
    /// Ask which wallets the node has loaded.
    AskLoaded,
    /// Do what opens the wallet.
    Open(CoreWalletStep),
    /// Ask which descriptors the node has yet to import.
    AskDescriptors,
    /// Stop: the node has all descriptors.
    Unchanged,
    /// Ask for the height of the node.
    AskHeight,
    /// Have the node import the descriptors, and scan the chain for them.
    Import,
    /// Ask whether the node scans the chain.
    AskScan,
    /// Wait for the scan, and ask again.
    Wait,
    /// List the coins and end the sync at the height of the node.
    Finalize,
}

/// Whether the node has the wallet loaded.
pub open spec fn is_open(name: Seq<char>, facts: SyncFacts) -> bool {
    facts.opened || (facts.loaded is Some && views(facts.loaded->Some_0@).contains(name))
}

/// What is done next to bring a wallet up to date. A backend without a chain of its own to scan is asked
/// for each script. A node first opens the wallet, then imports what it lacks, and scans the chain; the
/// coins are listed once the scan is over.
pub open spec fn sync_step(electrum: bool, name: Seq<char>, facts: SyncFacts) -> SyncStep {
    if electrum {
        SyncStep::NoRescan
    } else if !is_open(name, facts) {
        match facts.loaded {
            None => SyncStep::AskLoaded,
            Some(loaded) => SyncStep::Open(
                core_wallet_step(name, views(loaded@), names_view(facts.directory), facts.version),
            ),
        }
    } else if facts.to_import is None {
        SyncStep::AskDescriptors
    } else if facts.to_import == Some(0usize) {
        SyncStep::Unchanged
    } else if facts.node_height is None {
        SyncStep::AskHeight
    } else if !facts.imported {
        SyncStep::Import
    } else {
        match facts.scanning {
            None => SyncStep::AskScan,
            Some(true) => SyncStep::Wait,
            Some(false) => SyncStep::Finalize,
        }
    }
}

/// The coins are listed only after the node has the wallet open, was asked to import what it lacked, and
/// has ended its scan of the chain.
pub proof fn law_coins_are_listed_after_the_scan(electrum: bool, name: Seq<char>, facts: SyncFacts)
    requires
        sync_step(electrum, name, facts) == SyncStep::Finalize,
    ensures
        !electrum,
        is_open(name, facts),
        facts.to_import is Some && facts.to_import->Some_0 > 0,
        facts.node_height is Some,
        facts.imported,
        facts.scanning == Some(false),
{
}

/// A wallet is opened once: with what is known after a step that opens it, no step opens it again. A
/// wallet is created only where the node neither has it loaded nor on disk.
pub proof fn law_wallet_is_opened_once(
    electrum: bool,
    name: Seq<char>,
    facts: SyncFacts,
    step: CoreWalletStep,
)
    requires
        sync_step(electrum, name, facts) == SyncStep::Open(step),
    ensures
        step != CoreWalletStep::Ready,
        sync_step(electrum, name, (SyncFacts { opened: true, ..facts })) !is Open,
        step is CreateLegacy || step is CreateDescriptors ==> facts.directory is Some && !views(
            facts.directory->Some_0@,
        ).contains(name),
{
}

/// Every answer moves a sync on: what was just asked for is not asked for again.
pub proof fn law_sync_asks_once(
    electrum: bool,
    name: Seq<char>,
    facts: SyncFacts,
    loaded: Vec<String>,
    directory: Vec<String>,
    version: usize,
    to_import: usize,
    node_height: u64,
    scanning: bool,
)
    ensures
        sync_step(electrum, name, (SyncFacts { loaded: Some(loaded), ..facts }))
            != SyncStep::AskLoaded,
        sync_step(electrum, name, (SyncFacts { directory: Some(directory), ..facts }))
            != SyncStep::Open(CoreWalletStep::AskDirectory),
        sync_step(electrum, name, (SyncFacts { version: Some(version), ..facts }))
            != SyncStep::Open(CoreWalletStep::AskVersion),
        sync_step(electrum, name, (SyncFacts { to_import: Some(to_import), ..facts }))
            != SyncStep::AskDescriptors,
        sync_step(electrum, name, (SyncFacts { node_height: Some(node_height), ..facts }))
            != SyncStep::AskHeight,
        sync_step(electrum, name, (SyncFacts { imported: true, ..facts })) != SyncStep::Import,
        sync_step(electrum, name, (SyncFacts { scanning: Some(scanning), ..facts }))
            != SyncStep::AskScan,
{
}

impl SyncFacts {
    /// What is known before anything was asked.
    pub fn new() -> (facts: Self)
        ensures
            facts.loaded is None,
            facts.directory is None,
            facts.version is None,
            !facts.opened,
            facts.to_import is None,
            facts.node_height is None,
            !facts.imported,
            facts.scanning is None,
    {
        SyncFacts {
            loaded: None,
            directory: None,
            version: None,
            opened: false,
            to_import: None,
            node_height: None,
            imported: false,
            scanning: None,
        }
    }
}

/// The height that a wallet was synced to, which is never below the height that it was made at.
pub open spec fn synced_to(store: WalletStore) -> u64 {
    let last = match store.last_synced_height {
        Some(h) => h,
        None => 0,
    };
    let birthday = match store.wallet_birthday {
        Some(h) => h,
        None => 0,
    };
    if last >= birthday {
        last
    } else {
        birthday
    }
}

/// The view of a list of names, where there is one.
pub open spec fn names_view(names: Option<Vec<String>>) -> Option<Seq<Seq<char>>> {
    match names {
        Some(list) => Some(views(list@)),
        None => None,
    }
}

impl<B: BlockchainBackend> Wallet<B> {
    /// Decides what is done so that the node has the wallet loaded.
    pub fn core_wallet_step(
        &self,
        loaded: &Vec<String>,
        directory: &Option<Vec<String>>,
        version: Option<usize>,
    ) -> (step: CoreWalletStep)
        ensures
            step == core_wallet_step(
                self.store.file_name@,
                views(loaded@),
                names_view(*directory),
                version,
            ),
    {
        let name = self.store.file_name.as_str();
        if names_contain(loaded, name) {
            return CoreWalletStep::Ready;
        }
        match directory {
            None => CoreWalletStep::AskDirectory,
            Some(wallets) => {
                if names_contain(wallets, name) {
                    return CoreWalletStep::Load;
                }
                match version {
                    None => CoreWalletStep::AskVersion,
                    Some(v) => if v < DESCRIPTOR_WALLET_VERSION {
                        CoreWalletStep::CreateLegacy
                    } else {
                        CoreWalletStep::CreateDescriptors
                    },
                }
            },
        }
    }

    /// Decides what is done next to bring the wallet up to date.
    pub fn sync(&self, facts: &SyncFacts) -> (step: SyncStep)
        ensures
            step == sync_step(B::spec_is_electrum(), self.store.file_name@, *facts),
    {
        if B::is_electrum() {
            return SyncStep::NoRescan;
        }
        if !facts.opened {
            let loaded = match &facts.loaded {
                Some(loaded) => loaded,
                None => {
                    return SyncStep::AskLoaded;
                },
            };
            let step = self.core_wallet_step(loaded, &facts.directory, facts.version);
            if step != CoreWalletStep::Ready {
                return SyncStep::Open(step);
            }
        }
        match facts.to_import {
            None => {
                return SyncStep::AskDescriptors;
            },
            Some(count) => {
                if count == 0 {
                    return SyncStep::Unchanged;
                }
            },
        }
        if facts.node_height.is_none() {
            return SyncStep::AskHeight;
        }
        if !facts.imported {
            return SyncStep::Import;
        }
        match facts.scanning {
            None => SyncStep::AskScan,
            Some(scanning) => if scanning {
                SyncStep::Wait
            } else {
                SyncStep::Finalize
            },
        }
    }

    /// The height from which the chain is scanned. Where the chain is shorter than what the wallet was
    /// synced to, the wallet starts over.
    pub fn rescan_from(&mut self, node_height: u64) -> (height: u64)
        requires
            old(self).well_formed(),
        ensures
            final(self).well_formed(),
            final(self).rpc == old(self).rpc,
            if synced_to(old(self).store) > node_height {
                height == 0 && final(self).store == (WalletStore {
                    last_synced_height: Some(0),
                    ..old(self).store
                })
            } else {
                height == synced_to(old(self).store) && final(self).store == old(self).store
            },
            height <= node_height,
    {
        let last = match self.store.last_synced_height {
            Some(h) => h,
            None => 0,
        };
        let birthday = match self.store.wallet_birthday {
            Some(h) => h,
            None => 0,
        };
        let from = if last >= birthday {
            last
        } else {
            birthday
        };
        if from > node_height {
            self.store.last_synced_height = Some(0);
            return 0;
        }
        from
    }

    /// Registers the wallet's scripts, and decoys to hide them, with a backend that asks for each script.
    pub fn sync_no_rescan(&mut self, fresh_count: usize) -> (result: Result<(), WalletError>)
        requires
            old(self).well_formed(),
        ensures
            final(self).well_formed(),
            final(self).store == (WalletStore {
                decoy_cache: final(self).store.decoy_cache,
                ..old(self).store
            }),
            final(self).rpc.privacy() == old(self).rpc.privacy(),
            final(self).rpc.rest() == old(self).rpc.rest(),
            if wallet_derivable(old(self).store, ADDRESS_IMPORT_COUNT) {
                decoys_populated(
                    old(self).rpc.privacy(),
                    B::spec_is_electrum(),
                    (
                        old(self).store,
                        registered::<B>(
                            old(self).rpc.local(),
                            wallet_regs(old(self).store, ADDRESS_IMPORT_COUNT),
                        ),
                    ),
                    (final(self).store, final(self).rpc.local()),
                    fresh_count as nat,
                    result,
                )
            } else {
                result == Err::<(), WalletError>(WalletError::Derivation) && final(self).store
                    == old(self).store && wallet_told::<B>(
                    old(self).rpc.local(),
                    final(self).rpc.local(),
                    old(self).store,
                    ADDRESS_IMPORT_COUNT,
                )
            },
    {
        self.populate_backend_watched_scripts()?;
        self.populate_backend_decoy_scripts(fresh_count)
    }

    /// Ends a sync: records the tip, brings the cache of coins up to date with what the backend lists,
    /// and with it the index of the next receiving address and the largest amount that can be offered.
    pub fn finalize_sync(
        &mut self,
        tip: u64,
        utxos: Result<Vec<ListUnspentResultEntry>, WalletError>,
    ) -> (result: Result<(), WalletError>)
        requires
            old(self).well_formed(),
        ensures
            final(self).well_formed(),
            final(self).rpc == old(self).rpc,
            final(self).store == (WalletStore {
                last_synced_height: Some(tip),
                utxo_cache: final(self).store.utxo_cache,
                external_index: final(self).store.external_index,
                offer_maxsize: final(self).store.offer_maxsize,
                ..old(self).store
            }),
            match utxos {
                Err(e) => result == Err::<(), WalletError>(e) && kept_coins(
                    final(self).store,
                    old(self).store,
                ),
                Ok(list) => if !new_outputs_classifiable(
                    old(self).store,
                    old(self).rpc.local(),
                    list@,
                ) {
                    result == Err::<(), WalletError>(WalletError::Derivation) && kept_coins(
                        final(self).store,
                        old(self).store,
                    )
                } else {
                    &&& cache_updated(
                        final(self).store.utxo_cache,
                        (WalletStore { last_synced_height: Some(tip), ..old(self).store }),
                        old(self).rpc.local(),
                        list@,
                    )
                    &&& match result {
                        Ok(_) => countable(final(self).store, old(self).rpc.local())
                            && refreshed(final(self).store, old(self).rpc.local()),
                        Err(e) => {
                            &&& e == WalletError::Overflow
                            &&& !countable(final(self).store, old(self).rpc.local())
                            &&& final(self).store.external_index == old(self).store.external_index
                            &&& final(self).store.offer_maxsize == old(self).store.offer_maxsize
                        },
                    }
                },
            },
    {
        self.store.last_synced_height = Some(tip);
        assert forall|u: UtxoView| #[trigger]
            coin_info(self.store, self.rpc.local(), u) == coin_info(
            old(self).store,
            old(self).rpc.local(),
            u,
        ) by {}
        let utxos = match utxos {
            Ok(utxos) => utxos,
            Err(e) => {
                return Err(e);
            },
        };
        if !self.can_update_utxo_cache(&utxos) {
            return Err(WalletError::Derivation);
        }
        self.update_utxo_cache(utxos);
        if self.highest_used_index(KeychainKind::External) == i32::MAX || !self.has_balances() {
            return Err(WalletError::Overflow);
        }
        let next = self.find_hd_next_index(KeychainKind::External)?;
        self.store.external_index = next;
        self.refresh_offer_maxsize_cache()
    }

    /// Verifies the proof that a transaction stands in a block: what it proves must be that transaction
    /// and no other.
    pub fn verify_tx_out_proof(&self, expected_txid: &Txid, proof_txids: Vec<Txid>) -> (result: Result<
        (),
        WalletError,
    >)
        ensures
            match result {
                Ok(_) => proof_txids@ == seq![*expected_txid],
                Err(e) => proof_txids@ != seq![*expected_txid] && e
                    == (WalletError::MerkleProofInvalid {
                    expected: *expected_txid,
                    got: proof_txids,
                }),
            },
    {
        if proof_txids.len() == 1 && proof_txids[0] == *expected_txid {
            assert(proof_txids@ =~= seq![*expected_txid]);
            return Ok(());
        }
        assert(proof_txids@.len() != 1 || proof_txids@[0] != *expected_txid);
        assert(seq![*expected_txid].len() == 1 && seq![*expected_txid][0] == *expected_txid);
        Err(WalletError::MerkleProofInvalid { expected: *expected_txid, got: proof_txids })
    }
}

/// Whether a wallet has the coins, the index and the largest offer that it had.
pub open spec fn kept_coins(after: WalletStore, before: WalletStore) -> bool {
    &&& after.utxo_cache == before.utxo_cache
    &&& after.external_index == before.external_index
    &&& after.offer_maxsize == before.offer_maxsize
}

/// Whether the next receiving index and the balances of a wallet are within what it can count.
pub open spec fn countable(store: WalletStore, local: crate::backend::LocalScripts) -> bool {
    &&& highest_index(
        address_coins(store),
        local,
        KeychainKind::External.spec_index_num(),
    ) < i32::MAX
    &&& balances_fit(store)
}

/// Whether the next receiving index and the largest offer of a wallet follow from its coins: the index
/// is one above the highest that is used, and the offer is the larger of the regular and the swap balance.
pub open spec fn refreshed(store: WalletStore, local: crate::backend::LocalScripts) -> bool {
    &&& store.external_index == highest_index(
        address_coins(store),
        local,
        KeychainKind::External.spec_index_num(),
    ) + 1
    &&& store.offer_maxsize == if worth_of(store, Category::IncomingSwap) >= worth_of(
        store,
        Category::Descriptor,
    ) {
        worth_of(store, Category::IncomingSwap)
    } else {
        worth_of(store, Category::Descriptor)
    }
}

/// A sync with a node opens the wallet, imports what the node lacks and waits for its scan, each once it is due;
/// where all is done the coins are listed, and where the node lacks nothing the sync ends.
pub proof fn law_sync_does_what_is_due(
    name: Seq<char>,
    facts: SyncFacts,
    loaded: Vec<String>,
    to_import: usize,
)
    ensures
        sync_step(true, name, facts) == SyncStep::NoRescan,
        !facts.opened && facts.loaded is None ==> sync_step(false, name, facts)
            == SyncStep::AskLoaded,
        facts.opened || (facts.loaded == Some(loaded) && views(loaded@).contains(name)) ==> {
            let step = sync_step(false, name, facts);
            &&& facts.to_import is None ==> step == SyncStep::AskDescriptors
            &&& facts.to_import == Some(0usize) ==> step == SyncStep::Unchanged
            &&& facts.to_import == Some(to_import) && to_import > 0 ==> {
                &&& facts.node_height is None ==> step == SyncStep::AskHeight
                &&& facts.node_height is Some && !facts.imported ==> step == SyncStep::Import
                &&& facts.node_height is Some && facts.imported ==> {
                    &&& facts.scanning is None ==> step == SyncStep::AskScan
                    &&& facts.scanning == Some(true) ==> step == SyncStep::Wait
                    &&& facts.scanning == Some(false) ==> step == SyncStep::Finalize
                }
            }
        },
{
}

/// A wallet that the node does not have loaded is loaded where it is on disk, and is created where it is not: with
/// descriptors from version 0.21 on.
pub proof fn law_wallet_is_opened_as_it_is_found(
    name: Seq<char>,
    facts: SyncFacts,
    loaded: Vec<String>,
    directory: Vec<String>,
    version: usize,
)
    requires
        !facts.opened,
        facts.loaded == Some(loaded),
        !views(loaded@).contains(name),
    ensures
        facts.directory is None ==> sync_step(false, name, facts) == SyncStep::Open(
            CoreWalletStep::AskDirectory,
        ),
        facts.directory == Some(directory) && views(directory@).contains(name) ==> sync_step(
            false,
            name,
            facts,
        ) == SyncStep::Open(CoreWalletStep::Load),
        facts.directory == Some(directory) && !views(directory@).contains(name) ==> {
            let step = sync_step(false, name, facts);
            &&& facts.version is None ==> step == SyncStep::Open(CoreWalletStep::AskVersion)
            &&& facts.version == Some(version) && version >= 210000 ==> step == SyncStep::Open(
                CoreWalletStep::CreateDescriptors,
            )
            &&& facts.version == Some(version) && version < 210000 ==> step == SyncStep::Open(
                CoreWalletStep::CreateLegacy,
            )
        },
{
}

/// A wallet is scanned for from the height that it was synced to or was made at, whichever is the later.
pub proof fn law_scan_starts_at_the_later_height(store: WalletStore)
    ensures
        store.last_synced_height matches Some(h) ==> synced_to(store) >= h,
        store.wallet_birthday matches Some(h) ==> synced_to(store) >= h,
        store.last_synced_height is None && store.wallet_birthday is None ==> synced_to(store) == 0,
        synced_to(store) == 0 || store.last_synced_height == Some(synced_to(store))
            || store.wallet_birthday == Some(synced_to(store)),
{
}

/// After a sync the largest offer is the larger of the regular and the swap balance, and the next receiving index
/// lies above that of every coin of the wallet on the receiving chain.
pub proof fn law_sync_refreshes_offer_and_index(
    store: WalletStore,
    local: crate::backend::LocalScripts,
    balances: Balances,
    i: int,
    index: i32,
)
    requires
        refreshed(store, local),
        are_balances(balances, store),
        0 <= i < store.utxo_cache.entries@.len(),
        store.utxo_cache.entries@[i].1.1 is SeedCoin || store.utxo_cache.entries@[i].1.1
            is SweptCoin || store.utxo_cache.entries@[i].1.1 is IncomingSwapCoin
            || store.utxo_cache.entries@[i].1.1 is OutgoingSwapCoin,
        is_placed_at(local, store.utxo_cache.entries@[i].1.0@, 0, index as int),
        index >= 0,
    ensures
        store.offer_maxsize >= balances.regular,
        store.offer_maxsize >= balances.swap,
        store.offer_maxsize == balances.regular || store.offer_maxsize == balances.swap,
        store.external_index > index,
{
    let script = store.utxo_cache.entries@[i].1.0.script_pub_key@;
    assert(store.utxo_cache.entries@[i].1.0@.script_pub_key == script);
    if store.utxo_cache.entries@[i].1.0.descriptor is None && local.origins[script].index
        > i32::MAX {
        let n = local.origins[script].index;
        assert(n > 0x7fff_ffff ==> (n as i32) < 0) by (bit_vector);
    }
    law_used_index_is_passed(store, local, i, 0, index);
}

} // verus!
