//! The wallet's coins by category, its balances, and the next free address.
use vstd::prelude::*;
use vstd::string::*;
use crate::backend::{BlockchainBackend, LocalScripts};
use crate::bytes::views;
use crate::classify::origin_of;
use crate::descriptor::{get_hd_path_from_descriptor, spec_hd_path};
use crate::error::WalletError;
use crate::grouping::{checked_total, coins_total, lemma_total_concat};
use crate::primitives::KeychainKind;
use crate::spend_info::{
    copy_coin, total_amount, Balances, Coin, CoinView, ListUnspentResultEntry, SpendInfoView,
    UTXOSpendInfo, UtxoView,
};
use crate::store::{cached_coins, WalletStore};
use crate::wallet::Wallet;

verus! {

/// A category of coins.
#[derive(Debug, Clone, Copy, PartialEq, Eq, Structural)]
pub enum Category {
    /// Every coin.
    All,
    /// Contracts that are not settled.
    LiveContract,
    /// Contracts behind a timelock.
    Timelock,
    /// Contracts behind a hashlock.
    Hashlock,
    /// Fidelity bonds.
    Fidelity,
    /// Regular coins.
    Descriptor,
    /// Coins of swaps, in two-of-two outputs.
    SwapCoin,
    /// Received coins of swaps, in two-of-two outputs.
    IncomingSwap,
    /// Received coins of swaps, swept to addresses of the wallet.
    Swept,
}

impl Category {
    /// Whether spend information belongs to the category.
    pub open spec fn holds(self, info: SpendInfoView) -> bool {
        match self {
            Category::All => true,
            Category::LiveContract => info is HashlockContract || info is TimelockContract,
            Category::Timelock => info is TimelockContract,
            Category::Hashlock => info is HashlockContract,
            Category::Fidelity => info is FidelityBondCoin,
            Category::Descriptor => info is SeedCoin,
            Category::SwapCoin => info is IncomingSwapCoin || info is OutgoingSwapCoin,
            Category::IncomingSwap => info is IncomingSwapCoin,
            Category::Swept => info is SweptCoin,
        }
    }

    fn matches(self, info: &UTXOSpendInfo) -> (yes: bool)
        ensures
            yes == self.holds(info@),
    {
        match info {
            UTXOSpendInfo::SeedCoin { .. } => self == Category::All || self
                == Category::Descriptor,
            UTXOSpendInfo::IncomingSwapCoin { .. } => self == Category::All || self
                == Category::SwapCoin || self == Category::IncomingSwap,
            UTXOSpendInfo::OutgoingSwapCoin { .. } => self == Category::All || self
                == Category::SwapCoin,
            UTXOSpendInfo::TimelockContract { .. } => self == Category::All || self
                == Category::LiveContract || self == Category::Timelock,
            UTXOSpendInfo::HashlockContract { .. } => self == Category::All || self
                == Category::LiveContract || self == Category::Hashlock,
            UTXOSpendInfo::FidelityBondCoin { .. } => self == Category::All || self
                == Category::Fidelity,
            UTXOSpendInfo::SweptCoin { .. } => self == Category::All || self == Category::Swept,
        }
    }
}

/// The coins of a list that belong to a category, in order.
pub open spec fn in_category(coins: Seq<CoinView>, category: Category) -> Seq<CoinView> {
    coins.filter(|c: CoinView| category.holds(c.1))
}

/// The coins of a store that belong to a category.
pub open spec fn coins_of(store: WalletStore, category: Category) -> Seq<CoinView> {
    in_category(cached_coins(store.utxo_cache), category)
}

/// What a category of the wallet's coins is worth.
pub open spec fn worth_of(store: WalletStore, category: Category) -> nat {
    total_amount(coins_of(store, category))
}

/// No coin is at once a regular coin, a swept coin, a fidelity bond, a contract or a coin in a
/// two-of-two output.
pub proof fn law_categories_are_disjoint(info: SpendInfoView)
    ensures
        Category::Descriptor.holds(info) ==> !Category::Swept.holds(info)
            && !Category::Fidelity.holds(info) && !Category::LiveContract.holds(info)
            && !Category::SwapCoin.holds(info),
        Category::Swept.holds(info) ==> !Category::Fidelity.holds(info)
            && !Category::LiveContract.holds(info) && !Category::SwapCoin.holds(info),
        Category::Fidelity.holds(info) ==> !Category::LiveContract.holds(info)
            && !Category::SwapCoin.holds(info),
        Category::LiveContract.holds(info) ==> !Category::SwapCoin.holds(info),
        Category::LiveContract.holds(info) <==> Category::Timelock.holds(info)
            || Category::Hashlock.holds(info),
        Category::Descriptor.holds(info) || Category::Swept.holds(info) || Category::Fidelity.holds(
            info,
        ) || Category::LiveContract.holds(info) || Category::SwapCoin.holds(info),
{
}

/// Whether the balances of a wallet fit in 64 bits.
pub open spec fn balances_fit(store: WalletStore) -> bool {
    &&& worth_of(store, Category::Descriptor) + worth_of(store, Category::IncomingSwap) <= u64::MAX
    &&& worth_of(store, Category::Timelock) <= u64::MAX
    &&& worth_of(store, Category::Fidelity) <= u64::MAX
}

/// Whether balances are those of a wallet.
pub open spec fn are_balances(balances: Balances, store: WalletStore) -> bool {
    &&& balances.regular == worth_of(store, Category::Descriptor)
    &&& balances.swap == worth_of(store, Category::IncomingSwap)
    &&& balances.contract == worth_of(store, Category::Timelock)
    &&& balances.fidelity == worth_of(store, Category::Fidelity)
    &&& balances.spendable == balances.regular + balances.swap
}

/// The place of a coin in the wallet: the chain and the index that its descriptor gives, or else
/// those that the backend knows.
pub open spec fn place_of(local: LocalScripts, utxo: UtxoView) -> Option<(u32, i32)> {
    match utxo.descriptor {
        Some(descriptor) => match spec_hd_path(descriptor) {
            Some(path) => Some((path.1, path.2)),
            None => None,
        },
        None => match origin_of(local, utxo.script_pub_key) {
            Some(hd) => Some((hd.keychain_idx, hd.index as i32)),
            None => None,
        },
    }
}

/// The highest index of a list of coins on a chain, or -1 where there is none.
pub open spec fn highest_index(coins: Seq<CoinView>, local: LocalScripts, chain: u32) -> int
    decreases coins.len(),
{
    if coins.len() == 0 {
        -1
    } else {
        let before = highest_index(coins.drop_last(), local, chain);
        match place_of(local, coins.last().0) {
            Some(place) => if place.0 == chain && place.1 > before {
                place.1 as int
            } else {
                before
            },
            None => before,
        }
    }
}

/// The coins whose addresses count as used: regular coins, coins in two-of-two outputs, and swept coins.
pub open spec fn address_coins(store: WalletStore) -> Seq<CoinView> {
    coins_of(store, Category::Descriptor) + coins_of(store, Category::SwapCoin) + coins_of(
        store,
        Category::Swept,
    )
}

proof fn lemma_highest_index(
    coins: Seq<CoinView>,
    local: LocalScripts,
    chain: u32,
    i: int,
)
    requires
        0 <= i < coins.len(),
    ensures
        highest_index(coins, local, chain) >= -1,
        place_of(local, coins[i].0) matches Some(place) ==> place.0 == chain ==> place.1
            <= highest_index(coins, local, chain),
    decreases coins.len(),
{
    if i < coins.len() - 1 {
        lemma_highest_index(coins.drop_last(), local, chain, i);
    } else if coins.len() > 1 {
        lemma_highest_index(coins.drop_last(), local, chain, 0);
    } else {
        assert(highest_index(coins.drop_last(), local, chain) == -1);
    }
}

/// The next index of a chain is unused: it lies above that of every regular coin, of every coin in a
/// two-of-two output and of every swept coin on that chain, so that none of them is at its address.
pub proof fn law_next_index_is_unused(
    store: WalletStore,
    local: LocalScripts,
    keychain: KeychainKind,
    i: int,
)
    requires
        0 <= i < address_coins(store).len(),
    ensures
        place_of(local, address_coins(store)[i].0) matches Some(place) ==> place.0
            == keychain.spec_index_num() ==> place.1 < highest_index(
            address_coins(store),
            local,
            keychain.spec_index_num(),
        ) + 1,
{
    lemma_highest_index(address_coins(store), local, keychain.spec_index_num(), i);
}

impl<B: BlockchainBackend> Wallet<B> {
    /// The coins of a category.
    fn list_category(&self, category: Category) -> (coins: Vec<Coin>)
        ensures
            views(coins@) == coins_of(self.store, category),
    {
        let entries = &self.store.utxo_cache.entries;
        let ghost all = cached_coins(self.store.utxo_cache);
        let ghost pred = |c: CoinView| category.holds(c.1);
        let mut coins: Vec<Coin> = Vec::new();
        let mut i: usize = 0;
        proof {
            reveal(Seq::filter);
            assert(views(coins@) =~= all.take(0).filter(pred));
        }
        while i < entries.len()
            invariant
                entries == self.store.utxo_cache.entries,
                all == cached_coins(self.store.utxo_cache),
                pred == (|c: CoinView| category.holds(c.1)),
                i <= entries.len(),
                views(coins@) == all.take(i as int).filter(pred),
            decreases entries.len() - i,
        {
            let ghost before = views(coins@);
            proof {
                assert(all.take(i + 1) =~= all.take(i as int).push(all[i as int]));
                all.take(i as int).lemma_filter_push(all[i as int], pred);
            }
            if category.matches(&entries[i].1.1) {
                coins.push(copy_coin(&entries[i].1));
                assert(views(coins@) =~= before.push(all[i as int]));
            }
            i += 1;
        }
        assert(all.take(i as int) =~= all);
        coins
    }

    /// All coins of the wallet: regular and swap coins, contracts and bonds.
    pub fn list_all_utxo(&self) -> (utxos: Vec<ListUnspentResultEntry>)
        ensures
            views(utxos@) == Seq::new(
                self.store.utxo_cache.entries@.len(),
                |i: int| cached_coins(self.store.utxo_cache)[i].0,
            ),
    {
        let entries = &self.store.utxo_cache.entries;
        let mut utxos: Vec<ListUnspentResultEntry> = Vec::new();
        let mut i: usize = 0;
        while i < entries.len()
            invariant
                entries == self.store.utxo_cache.entries,
                i <= entries.len(),
                utxos.len() == i,
                forall|j: int| 0 <= j < i ==> (#[trigger] utxos@[j])@ == entries@[j].1.0@,
            decreases entries.len() - i,
        {
            utxos.push(entries[i].1.0.clone());
            i += 1;
        }
        assert(views(utxos@) =~= Seq::new(
            self.store.utxo_cache.entries@.len(),
            |i: int| cached_coins(self.store.utxo_cache)[i].0,
        ));
        utxos
    }

    /// All coins of the wallet with their spend information.
    pub fn list_all_utxo_spend_info(&self) -> (coins: Vec<Coin>)
        ensures
            views(coins@) == cached_coins(self.store.utxo_cache),
    {
        let coins = self.list_category(Category::All);
        proof {
            lemma_filter_all(cached_coins(self.store.utxo_cache));
        }
        coins
    }

    /// The contracts of the wallet that are not settled.
    pub fn list_live_contract_spend_info(&self) -> (coins: Vec<Coin>)
        ensures
            views(coins@) == coins_of(self.store, Category::LiveContract),
    {
        self.list_category(Category::LiveContract)
    }

    /// The contracts of the wallet behind a timelock.
    pub fn list_live_timelock_contract_spend_info(&self) -> (coins: Vec<Coin>)
        ensures
            views(coins@) == coins_of(self.store, Category::Timelock),
    {
        self.list_category(Category::Timelock)
    }

    /// The contracts of the wallet behind a hashlock.
    pub fn list_live_hashlock_contract_spend_info(&self) -> (coins: Vec<Coin>)
        ensures
            views(coins@) == coins_of(self.store, Category::Hashlock),
    {
        self.list_category(Category::Hashlock)
    }

    /// The fidelity bonds of the wallet.
    pub fn list_fidelity_spend_info(&self) -> (coins: Vec<Coin>)
        ensures
            views(coins@) == coins_of(self.store, Category::Fidelity),
    {
        self.list_category(Category::Fidelity)
    }

    /// The regular coins of the wallet.
    pub fn list_descriptor_utxo_spend_info(&self) -> (coins: Vec<Coin>)
        ensures
            views(coins@) == coins_of(self.store, Category::Descriptor),
    {
        self.list_category(Category::Descriptor)
    }

    /// The coins of the wallet in two-of-two outputs.
    pub fn list_swap_coin_utxo_spend_info(&self) -> (coins: Vec<Coin>)
        ensures
            views(coins@) == coins_of(self.store, Category::SwapCoin),
    {
        self.list_category(Category::SwapCoin)
    }

    /// The received coins of the wallet in two-of-two outputs.
    pub fn list_incoming_swap_coin_utxo_spend_info(&self) -> (coins: Vec<Coin>)
        ensures
            views(coins@) == coins_of(self.store, Category::IncomingSwap),
    {
        self.list_category(Category::IncomingSwap)
    }

    /// The received coins of the wallet that were swept to its addresses.
    pub fn list_swept_incoming_swap_utxos(&self) -> (coins: Vec<Coin>)
        ensures
            views(coins@) == coins_of(self.store, Category::Swept),
    {
        self.list_category(Category::Swept)
    }

    /// The balances of the wallet.
    pub fn get_balances(&self) -> (balances: Result<Balances, WalletError>)
        requires
            balances_fit(self.store),
        ensures
            balances matches Ok(b) && are_balances(b, self.store),
    {
        let regular = coins_total(&self.list_descriptor_utxo_spend_info());
        let contract = coins_total(&self.list_live_timelock_contract_spend_info());
        let swap = coins_total(&self.list_incoming_swap_coin_utxo_spend_info());
        let fidelity = coins_total(&self.list_fidelity_spend_info());
        let spendable = regular + swap;
        Ok(Balances { regular, swap, contract, fidelity, spendable })
    }

    /// Brings the largest amount that the wallet can offer up to date: the larger of its regular and
    /// its swap balance.
    pub fn refresh_offer_maxsize_cache(&mut self) -> (result: Result<(), WalletError>)
        requires
            old(self).well_formed(),
            balances_fit(old(self).store),
        ensures
            result is Ok,
            final(self).well_formed(),
            final(self).rpc == old(self).rpc,
            final(self).store == (WalletStore {
                offer_maxsize: final(self).store.offer_maxsize,
                ..old(self).store
            }),
            final(self).store.offer_maxsize == if worth_of(old(self).store, Category::IncomingSwap)
                >= worth_of(old(self).store, Category::Descriptor) {
                worth_of(old(self).store, Category::IncomingSwap)
            } else {
                worth_of(old(self).store, Category::Descriptor)
            },
    {
        let balances = self.get_balances()?;
        self.store.offer_maxsize = if balances.swap >= balances.regular {
            balances.swap
        } else {
            balances.regular
        };
        Ok(())
    }

    /// The place of an output in the wallet.
    fn place(&self, utxo: &ListUnspentResultEntry) -> (place: Option<(u32, i32)>)
        requires
            self.well_formed(),
        ensures
            place == place_of(self.rpc.local(), utxo@),
    {
        match &utxo.descriptor {
            Some(descriptor) => match get_hd_path_from_descriptor(descriptor.as_str()) {
                Some(path) => Some((path.keychain_idx, path.index)),
                None => None,
            },
            None => match self.rpc.hd_origin_for_script(&utxo.script_pub_key) {
                Some(hd) => Some((hd.keychain_idx, hd.index as i32)),
                None => None,
            },
        }
    }

    /// The highest index of the wallet's regular coins, of its coins in two-of-two outputs and of its swept
    /// coins on a chain, or -1 where there is none.
    pub fn highest_used_index(&self, keychain: KeychainKind) -> (highest: i32)
        requires
            self.well_formed(),
        ensures
            highest == highest_index(
                address_coins(self.store),
                self.rpc.local(),
                keychain.spec_index_num(),
            ),
    {
        let mut coins = self.list_descriptor_utxo_spend_info();
        let mut swap_coins = self.list_swap_coin_utxo_spend_info();
        let mut swept_coins = self.list_swept_incoming_swap_utxos();
        let ghost first = coins@;
        let ghost second = swap_coins@;
        let ghost third = swept_coins@;
        coins.append(&mut swap_coins);
        coins.append(&mut swept_coins);
        let ghost all = address_coins(self.store);
        proof {
            assert(coins@ =~= first + second + third);
            assert(views(coins@) =~= all);
        }
        let target = keychain.index_num();
        let mut highest: i32 = -1;
        let mut i: usize = 0;
        while i < coins.len()
            invariant
                self.well_formed(),
                all == views(coins@),
                i <= coins.len(),
                highest >= -1,
                highest == highest_index(all.take(i as int), self.rpc.local(), target),
            decreases coins.len() - i,
        {
            proof {
                assert(all.take(i + 1).drop_last() =~= all.take(i as int));
                assert(all.take(i + 1).last() == all[i as int]);
                assert(all[i as int] == coins@[i as int]@);
            }
            if let Some(place) = self.place(&coins[i].0) {
                if place.0 == target && place.1 > highest {
                    highest = place.1;
                }
            }
            i += 1;
        }
        assert(all.take(i as int) =~= all);
        highest
    }

    /// The next unused index of a chain: one above the highest index of the wallet's regular coins, of its
    /// coins in two-of-two outputs and of its swept coins on it.
    pub fn find_hd_next_index(&self, keychain: KeychainKind) -> (index: Result<u32, WalletError>)
        requires
            self.well_formed(),
            highest_index(
                address_coins(self.store),
                self.rpc.local(),
                keychain.spec_index_num(),
            ) < i32::MAX,
        ensures
            index matches Ok(i) && i == highest_index(
                address_coins(self.store),
                self.rpc.local(),
                keychain.spec_index_num(),
            ) + 1,
    {
        let highest = self.highest_used_index(keychain);
        proof {
            lemma_highest_index_low(
                address_coins(self.store),
                self.rpc.local(),
                keychain.spec_index_num(),
            );
        }
        Ok((highest + 1) as u32)
    }

    /// Whether the balances of the wallet fit in 64 bits.
    pub fn has_balances(&self) -> (fit: bool)
        ensures
            fit == balances_fit(self.store),
    {
        let regular = checked_total(&self.list_descriptor_utxo_spend_info());
        let contract = checked_total(&self.list_live_timelock_contract_spend_info());
        let swap = checked_total(&self.list_incoming_swap_coin_utxo_spend_info());
        let fidelity = checked_total(&self.list_fidelity_spend_info());
        match (regular, contract, swap, fidelity) {
            (Some(regular), Some(_), Some(swap), Some(_)) => regular.checked_add(swap).is_some(),
            _ => false,
        }
    }
}

proof fn lemma_highest_index_low(coins: Seq<CoinView>, local: LocalScripts, chain: u32)
    ensures
        highest_index(coins, local, chain) >= -1,
    decreases coins.len(),
{
    if coins.len() > 0 {
        lemma_highest_index_low(coins.drop_last(), local, chain);
    }
}

proof fn lemma_filter_all(coins: Seq<CoinView>)
    ensures
        in_category(coins, Category::All) == coins,
    decreases coins.len(),
{
    let pred = |c: CoinView| Category::All.holds(c.1);
    reveal(Seq::filter);
    if coins.len() > 0 {
        let shorter = coins.drop_last();
        lemma_filter_all(shorter);
        shorter.lemma_filter_push(coins.last(), pred);
        assert(shorter.push(coins.last()) =~= coins);
    } else {
        assert(in_category(coins, Category::All) =~= coins);
    }
}

/// The spendable balance is what the regular coins and the two-of-two coins received in swaps are worth;
/// contracts, bonds and coins that were sent are no part of it.
pub proof fn law_spendable_is_regular_and_swap(balances: Balances, store: WalletStore)
    requires
        are_balances(balances, store),
    ensures
        balances.spendable == total_amount(
            coins_of(store, Category::Descriptor) + coins_of(store, Category::IncomingSwap),
        ),
{
    lemma_total_concat(
        coins_of(store, Category::Descriptor),
        coins_of(store, Category::IncomingSwap),
    );
}

/// Nothing is worth nothing, and one more coin is worth its amount more.
pub proof fn law_worth_is_the_sum(coins: Seq<CoinView>, c: CoinView)
    ensures
        total_amount(Seq::<CoinView>::empty()) == 0,
        total_amount(coins.push(c)) == total_amount(coins) + c.0.amount,
{
    assert(coins.push(c).drop_last() =~= coins);
}

/// A coin that is new to the wallet is listed behind the others of its kind, and under no other kind: a
/// coin of the seed as regular, a swept coin as swept, a bond as a bond, a contract by the lock that it is
/// spent by, and a two-of-two coin as received or sent.
pub proof fn law_new_coin_is_listed_by_its_kind(
    before: WalletStore,
    after: WalletStore,
    key: crate::primitives::OutPoint,
    coin: Coin,
)
    requires
        after.utxo_cache.entries@ == before.utxo_cache.entries@.push((key, coin)),
    ensures
        coins_of(after, Category::All) == coins_of(before, Category::All).push(coin@),
        coins_of(after, Category::Descriptor) == with_coin_if(
            coins_of(before, Category::Descriptor),
            coin@,
            coin.1 is SeedCoin,
        ),
        coins_of(after, Category::Swept) == with_coin_if(
            coins_of(before, Category::Swept),
            coin@,
            coin.1 is SweptCoin,
        ),
        coins_of(after, Category::Fidelity) == with_coin_if(
            coins_of(before, Category::Fidelity),
            coin@,
            coin.1 is FidelityBondCoin,
        ),
        coins_of(after, Category::Timelock) == with_coin_if(
            coins_of(before, Category::Timelock),
            coin@,
            coin.1 is TimelockContract,
        ),
        coins_of(after, Category::Hashlock) == with_coin_if(
            coins_of(before, Category::Hashlock),
            coin@,
            coin.1 is HashlockContract,
        ),
        coins_of(after, Category::LiveContract) == with_coin_if(
            coins_of(before, Category::LiveContract),
            coin@,
            coin.1 is TimelockContract || coin.1 is HashlockContract,
        ),
        coins_of(after, Category::IncomingSwap) == with_coin_if(
            coins_of(before, Category::IncomingSwap),
            coin@,
            coin.1 is IncomingSwapCoin,
        ),
        coins_of(after, Category::SwapCoin) == with_coin_if(
            coins_of(before, Category::SwapCoin),
            coin@,
            coin.1 is IncomingSwapCoin || coin.1 is OutgoingSwapCoin,
        ),
{
    let all = cached_coins(before.utxo_cache);
    assert(cached_coins(after.utxo_cache) =~= all.push(coin@));
    lemma_category_push(all, coin@, Category::All);
    lemma_category_push(all, coin@, Category::Descriptor);
    lemma_category_push(all, coin@, Category::Swept);
    lemma_category_push(all, coin@, Category::Fidelity);
    lemma_category_push(all, coin@, Category::Timelock);
    lemma_category_push(all, coin@, Category::Hashlock);
    lemma_category_push(all, coin@, Category::LiveContract);
    lemma_category_push(all, coin@, Category::IncomingSwap);
    lemma_category_push(all, coin@, Category::SwapCoin);
}

/// A list of coins with one more behind it, where that is due.
pub open spec fn with_coin_if(coins: Seq<CoinView>, coin: CoinView, due: bool) -> Seq<CoinView> {
    if due {
        coins.push(coin)
    } else {
        coins
    }
}

proof fn lemma_category_push(coins: Seq<CoinView>, c: CoinView, category: Category)
    ensures
        in_category(coins.push(c), category) == with_coin_if(
            in_category(coins, category),
            c,
            category.holds(c.1),
        ),
{
    coins.lemma_filter_push(c, |c: CoinView| category.holds(c.1));
}

/// A wallet without coins lists none and has no balance.
pub proof fn law_empty_wallet_lists_nothing(store: WalletStore, category: Category, balances: Balances)
    requires
        store.utxo_cache.entries@.len() == 0,
        are_balances(balances, store),
    ensures
        coins_of(store, category).len() == 0,
        balances.regular == 0,
        balances.swap == 0,
        balances.contract == 0,
        balances.fidelity == 0,
        balances.spendable == 0,
{
    reveal(Seq::filter);
    let all = cached_coins(store.utxo_cache);
    assert(all.len() == 0);
    assert(in_category(all, Category::Descriptor).len() == 0);
    assert(in_category(all, Category::IncomingSwap).len() == 0);
    assert(in_category(all, Category::Timelock).len() == 0);
    assert(in_category(all, Category::Fidelity).len() == 0);
}

/// A coin that is new to the wallet adds its amount to the balance of its kind, and to no other: a coin of
/// the seed to the regular balance, a two-of-two coin received in a swap to the swap balance, a timelock
/// contract to the contract balance and a bond to the fidelity balance. The first two can be spent.
pub proof fn law_new_coin_adds_to_its_balance(
    before: WalletStore,
    after: WalletStore,
    key: crate::primitives::OutPoint,
    coin: Coin,
    old_balances: Balances,
    new_balances: Balances,
)
    requires
        after.utxo_cache.entries@ == before.utxo_cache.entries@.push((key, coin)),
        are_balances(old_balances, before),
        are_balances(new_balances, after),
    ensures
        new_balances.regular == old_balances.regular + if coin.1 is SeedCoin {
            coin.0.amount as int
        } else {
            0
        },
        new_balances.swap == old_balances.swap + if coin.1 is IncomingSwapCoin {
            coin.0.amount as int
        } else {
            0
        },
        new_balances.contract == old_balances.contract + if coin.1 is TimelockContract {
            coin.0.amount as int
        } else {
            0
        },
        new_balances.fidelity == old_balances.fidelity + if coin.1 is FidelityBondCoin {
            coin.0.amount as int
        } else {
            0
        },
        new_balances.spendable == new_balances.regular + new_balances.swap,
{
    law_new_coin_is_listed_by_its_kind(before, after, key, coin);
    law_worth_is_the_sum(coins_of(before, Category::Descriptor), coin@);
    law_worth_is_the_sum(coins_of(before, Category::IncomingSwap), coin@);
    law_worth_is_the_sum(coins_of(before, Category::Timelock), coin@);
    law_worth_is_the_sum(coins_of(before, Category::Fidelity), coin@);
}

/// A coin at an address of the wallet uses the address up, whether it is a regular coin, a swept coin or a coin
/// in a two-of-two output: the next index of the chain lies above that of the coin, by the place that its
/// descriptor gives or else the one that the backend knows.
pub proof fn law_used_index_is_passed(
    store: WalletStore,
    local: LocalScripts,
    i: int,
    chain: u32,
    index: i32,
)
    requires
        0 <= i < store.utxo_cache.entries@.len(),
        store.utxo_cache.entries@[i].1.1 is SeedCoin || store.utxo_cache.entries@[i].1.1
            is SweptCoin || store.utxo_cache.entries@[i].1.1 is IncomingSwapCoin
            || store.utxo_cache.entries@[i].1.1 is OutgoingSwapCoin,
        match store.utxo_cache.entries@[i].1.0.descriptor {
            Some(d) => spec_hd_path(d@) is Some && spec_hd_path(d@)->Some_0.1 == chain
                && spec_hd_path(d@)->Some_0.2 == index,
            None => {
                let script = store.utxo_cache.entries@[i].1.0.script_pub_key@;
                &&& local.origins.contains_key(script)
                &&& local.origins[script].keychain_idx == chain
                &&& local.origins[script].index == index
            },
        },
    ensures
        highest_index(address_coins(store), local, chain) >= index,
        highest_index(address_coins(store), local, chain) >= -1,
{
    let all = cached_coins(store.utxo_cache);
    let c = store.utxo_cache.entries@[i].1@;
    assert(all[i] == c);
    let coins = address_coins(store);
    let regular = coins_of(store, Category::Descriptor);
    let swap = coins_of(store, Category::SwapCoin);
    let swept = coins_of(store, Category::Swept);
    if c.1 is SeedCoin {
        all.lemma_filter_contains(|c: CoinView| Category::Descriptor.holds(c.1), i);
        let j = choose|j: int| 0 <= j < regular.len() && regular[j] == c;
        assert(coins[j] == c);
        lemma_highest_index(coins, local, chain, j);
    } else if c.1 is SweptCoin {
        all.lemma_filter_contains(|c: CoinView| Category::Swept.holds(c.1), i);
        let j = choose|j: int| 0 <= j < swept.len() && swept[j] == c;
        assert(coins[regular.len() + swap.len() + j] == c);
        lemma_highest_index(coins, local, chain, regular.len() + swap.len() + j);
    } else {
        all.lemma_filter_contains(|c: CoinView| Category::SwapCoin.holds(c.1), i);
        let j = choose|j: int| 0 <= j < swap.len() && swap[j] == c;
        assert(coins[regular.len() + j] == c);
        lemma_highest_index(coins, local, chain, regular.len() + j);
    }
}

/// No index is passed over: where the next index of a chain is not the first, a coin of the wallet is at the
/// index just below it.
pub proof fn law_no_index_is_passed_over(coins: Seq<CoinView>, local: LocalScripts, chain: u32)
    ensures
        highest_index(coins, local, chain) == -1 || exists|i: int|
            0 <= i < coins.len() && is_placed_at(
                local,
                (#[trigger] coins[i]).0,
                chain,
                highest_index(coins, local, chain),
            ),
    decreases coins.len(),
{
    if coins.len() > 0 {
        let before = coins.drop_last();
        law_no_index_is_passed_over(before, local, chain);
        let h = highest_index(before, local, chain);
        if h != -1 {
            let i = choose|i: int|
                0 <= i < before.len() && is_placed_at(local, (#[trigger] before[i]).0, chain, h);
            assert(coins[i] == before[i]);
        }
        assert(coins[coins.len() - 1] == coins.last());
    }
}

/// Whether a coin is at an index of a chain, by its descriptor or else by what the backend knows of its script.
pub open spec fn is_placed_at(local: LocalScripts, utxo: UtxoView, chain: u32, index: int) -> bool {
    match utxo.descriptor {
        Some(d) => spec_hd_path(d) is Some && spec_hd_path(d)->Some_0.1 == chain && spec_hd_path(
            d,
        )->Some_0.2 == index,
        None => local.origins.contains_key(utxo.script_pub_key) && local.origins[utxo.script_pub_key].keychain_idx
            == chain && local.origins[utxo.script_pub_key].index as i32 == index,
    }
}

} // verus!
