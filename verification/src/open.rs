//! New wallets, and wallets that are opened again.
use vstd::prelude::*;
use vstd::string::*;
use crate::backend::BlockchainBackend;
use crate::bytes::{option_view, views};
use crate::decoy::is_default_cache;
use crate::error::WalletError;
use crate::keys::{master_key_of, new_master};
use crate::listing::{are_balances, coins_of, law_empty_wallet_lists_nothing, Category};
use crate::primitives::Network;
use crate::spend_info::Balances;
use crate::store::WalletStore;
use crate::sync::synced_to;
use crate::wallet::Wallet;

verus! {

/// The number of words of a new wallet's mnemonic.
pub const MNEMONIC_WORDS: usize = 12;

/// The entropy that the words of a mnemonic stand for, if they are one.
pub uninterp spec fn entropy_of(words: Seq<Seq<char>>) -> Option<Seq<u8>>;

/// Calls `bip39::Mnemonic::generate`. Claimed: a mnemonic comes exactly for 12, 15, 18, 21 or 24 words;
/// it has as many words, and they stand for four bytes of entropy for each three of them. Which words
/// come is chance.
#[verifier::external_body]
fn draw_mnemonic(word_count: usize) -> (words: Option<Vec<String>>)
    ensures
        (words is Some) == (12 <= word_count <= 24 && word_count % 3 == 0),
        words matches Some(w) ==> w@.len() == word_count && entropy_of(views(w@)) is Some
            && entropy_of(views(w@))->Some_0.len() == word_count / 3 * 4,
{
    let mnemonic = bip39::Mnemonic::generate(word_count).ok()?;
    Some(mnemonic.words().map(|w| w.to_string()).collect())
}

/// Calls `bip39::Mnemonic::to_entropy` on the mnemonic that `bip39::Mnemonic::parse` reads. The contract
/// names the entropy, or that the words are no mnemonic, as a function of the words.
#[verifier::external_body]
fn mnemonic_entropy(words: &Vec<String>) -> (entropy: Option<Vec<u8>>)
    ensures
        option_view(entropy) == entropy_of(views(words@)),
{
    Some(bip39::Mnemonic::parse(words.join(" ")).ok()?.to_entropy())
}

/// Draws the mnemonic of a new wallet.
pub fn new_mnemonic() -> (words: Vec<String>)
    ensures
        words@.len() == MNEMONIC_WORDS,
        entropy_of(views(words@)) is Some,
        entropy_of(views(words@))->Some_0.len() == 16,
{
    match draw_mnemonic(MNEMONIC_WORDS) {
        Some(words) => words,
        None => {
            assert(false);
            Vec::new()
        },
    }
}

/// The name of a network, in text.
pub open spec fn spec_network_name(network: Network) -> Seq<char> {
    match network {
        Network::Bitcoin => "bitcoin"@,
        Network::Testnet => "testnet"@,
        Network::Signet => "signet"@,
        Network::Regtest => "regtest"@,
    }
}

/// The name of a network, in text.
pub fn network_name(network: Network) -> (name: &'static str)
    ensures
        name@ == spec_network_name(network),
{
    match network {
        Network::Bitcoin => "bitcoin",
        Network::Testnet => "testnet",
        Network::Signet => "signet",
        Network::Regtest => "regtest",
    }
}

/// The master key of the wallet with the given mnemonic, on a network. The entropy itself is the seed.
pub open spec fn mnemonic_key(words: Seq<Seq<char>>, network: Network) -> Option<Seq<u8>> {
    match entropy_of(words) {
        Some(entropy) => master_key_of(network, entropy),
        None => None,
    }
}

/// Whether a store is that of a new wallet: it holds nothing but its key, its name, its network and the
/// height that it was made at.
pub open spec fn is_new_store(
    store: WalletStore,
    file_name: Seq<char>,
    network: Network,
    master_key: Seq<u8>,
    birthday: u64,
) -> bool {
    &&& store.file_name@ == file_name
    &&& store.network == network
    &&& store.master_key@ == master_key
    &&& store.wallet_birthday == Some(birthday)
    &&& store.external_index == 0
    &&& store.offer_maxsize == 0
    &&& store.incoming_swapcoins.entries@.len() == 0
    &&& store.outgoing_swapcoins.entries@.len() == 0
    &&& store.watchonly_swapcoins.entries@.len() == 0
    &&& store.prevout_to_contract_map.entries@.len() == 0
    &&& store.fidelity_bond@.len() == 0
    &&& store.last_synced_height is None
    &&& store.utxo_cache.entries@.len() == 0
    &&& store.swept_incoming_swapcoins@.len() == 0
    &&& is_default_cache(store.decoy_cache)
}

impl<B: BlockchainBackend> Wallet<B> {
    /// Makes a new wallet from a mnemonic, on the network of its backend.
    pub fn init(
        rpc: B,
        file_name: String,
        network: Network,
        words: &Vec<String>,
        wallet_birthday: u64,
    ) -> (wallet: Result<Self, WalletError>)
        requires
            rpc.well_formed(),
        ensures
            match wallet {
                Ok(w) => {
                    &&& w.well_formed()
                    &&& w.rpc == rpc
                    &&& mnemonic_key(views(words@), network) is Some
                    &&& is_new_store(
                        w.store,
                        file_name@,
                        network,
                        mnemonic_key(views(words@), network)->Some_0,
                        wallet_birthday,
                    )
                },
                Err(e) => mnemonic_key(views(words@), network) is None && e
                    == WalletError::Derivation,
            },
    {
        let entropy = match mnemonic_entropy(words) {
            Some(entropy) => entropy,
            None => {
                return Err(WalletError::Derivation);
            },
        };
        match new_master(network, &entropy) {
            Some(master_key) => Ok(
                Wallet {
                    rpc,
                    store: WalletStore::new(file_name, network, master_key, Some(wallet_birthday)),
                },
            ),
            None => Err(WalletError::Derivation),
        }
    }

    /// Opens a wallet again with what its file holds. The network of its backend must be its own.
    pub fn load(rpc: B, store: WalletStore, network: Network) -> (wallet: Result<Self, WalletError>)
        requires
            rpc.well_formed(),
            store.well_formed(),
        ensures
            match wallet {
                Ok(w) => store.network == network && w.rpc == rpc && w.store == store
                    && w.well_formed(),
                Err(e) => store.network != network && e.is_general(
                    "Wrong Bitcoin Network: wallet file is for "@ + spec_network_name(store.network)
                        + ", backend is on "@ + spec_network_name(network),
                ),
            },
    {
        if store.network != network {
            let mut message = "Wrong Bitcoin Network: wallet file is for ".to_owned();
            message.append(network_name(store.network));
            message.append(", backend is on ");
            message.append(network_name(network));
            return Err(WalletError::General(message));
        }
        Ok(Wallet { rpc, store })
    }
}

/// A mnemonic stands for one master key on a network: the one whose seed is the mnemonic's entropy.
pub proof fn law_mnemonic_gives_the_key(words: Seq<Seq<char>>, entropy: Seq<u8>, network: Network)
    ensures
        entropy_of(words) == Some(entropy) ==> mnemonic_key(words, network) == master_key_of(
            network,
            entropy,
        ),
        entropy_of(words) is None ==> mnemonic_key(words, network) is None,
{
}

/// A new wallet has no coins and no balance, starts with its first address, and is scanned for from its birthday.
pub proof fn law_new_wallet_is_empty(
    store: WalletStore,
    file_name: Seq<char>,
    network: Network,
    master_key: Seq<u8>,
    birthday: u64,
    category: Category,
    balances: Balances,
)
    requires
        is_new_store(store, file_name, network, master_key, birthday),
        are_balances(balances, store),
    ensures
        store.master_key@ == master_key,
        store.network == network,
        store.file_name@ == file_name,
        coins_of(store, category).len() == 0,
        balances.spendable == 0,
        balances.contract == 0,
        balances.fidelity == 0,
        store.external_index == 0,
        store.fidelity_bond@.len() == 0,
        store.incoming_swapcoins.entries@.len() == 0,
        store.outgoing_swapcoins.entries@.len() == 0,
        synced_to(store) == birthday,
        store.decoy_cache.entries@.len() == 0,
        store.decoy_cache.max_cache_size == 500,
        store.decoy_cache.max_age_secs == 259200,
        store.decoy_cache.retire_after_uses_range == (5u32, 15u32),
{
    law_empty_wallet_lists_nothing(store, category, balances);
}

} // verus!
