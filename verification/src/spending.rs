//! What the wallet spends: its selection of coins, and the coins that it keeps from being spent.
use vstd::prelude::*;
use crate::backend::BlockchainBackend;
use crate::bytes::views;
use crate::classify::own_info;
use crate::coin_select::{
    available, available_coins, can_select_coins, class_fits, class_outcome,
    law_lacking_funds_are_told_truly, law_selection_within_class, manual_fits, named, result_views, select_coins, selection_outcome,
    FeeQuote,
};
use crate::error::WalletError;
use crate::listing::{coins_of, Category};
use crate::primitives::OutPoint;
use crate::spend_info::{Coin, CoinView, ListUnspentResultEntry, UtxoView};
use crate::store::{cached_coins, WalletStore};
use crate::wallet::Wallet;

verus! {

/// The regular coins that a selection may use.
pub open spec fn regular_choice(
    store: WalletStore,
    locked: Seq<OutPoint>,
    excluded: Seq<OutPoint>,
) -> Seq<CoinView> {
    available(coins_of(store, Category::Descriptor), locked, excluded)
}

/// The swap coins that a selection may use: those that were swept to addresses of the wallet.
pub open spec fn swap_choice(
    store: WalletStore,
    locked: Seq<OutPoint>,
    excluded: Seq<OutPoint>,
) -> Seq<CoinView> {
    available(coins_of(store, Category::Swept), locked, excluded)
}

proof fn lemma_available(
    store: WalletStore,
    category: Category,
    locked: Seq<OutPoint>,
    excluded: Seq<OutPoint>,
    c: CoinView,
)
    requires
        available(coins_of(store, category), locked, excluded).contains(c),
    ensures
        cached_coins(store.utxo_cache).contains(c),
        category.holds(c.1),
        c.0.confirmations > 0,
        !locked.contains(c.0.outpoint()),
        !excluded.contains(c.0.outpoint()),
{
    let all = cached_coins(store.utxo_cache);
    let class = coins_of(store, category);
    let kept = available(class, locked, excluded);
    let free = |c: CoinView|
        c.0.confirmations > 0 && !locked.contains(c.0.outpoint()) && !excluded.contains(
            c.0.outpoint(),
        );
    let of_class = |c: CoinView| category.holds(c.1);
    let i = choose|i: int| 0 <= i < kept.len() && kept[i] == c;
    class.lemma_filter_pred(free, i);
    class.lemma_filter_contains_rev(free, c);
    let j = choose|j: int| 0 <= j < class.len() && class[j] == c;
    all.lemma_filter_pred(of_class, j);
    all.lemma_filter_contains_rev(of_class, c);
}

/// Every coin of a selection is a coin of the wallet that can be spent: a regular coin or a swept
/// coin, confirmed, and neither locked nor excluded. Fidelity bonds, contracts and coins that were
/// sent in swaps are never selected.
pub proof fn law_selected_coins_are_spendable(
    store: WalletStore,
    locked: Seq<OutPoint>,
    excluded: Seq<OutPoint>,
    manual: Seq<OutPoint>,
    need: nat,
    quote: FeeQuote,
    chosen: Seq<CoinView>,
    c: CoinView,
)
    requires
        selection_outcome(
            Ok(chosen),
            regular_choice(store, locked, excluded),
            swap_choice(store, locked, excluded),
            manual,
            need,
            quote,
        ),
        chosen.contains(c),
    ensures
        cached_coins(store.utxo_cache).contains(c),
        c.1 is SeedCoin || c.1 is SweptCoin,
        c.0.confirmations > 0,
        !locked.contains(c.0.outpoint()),
        !excluded.contains(c.0.outpoint()),
{
    let regular = regular_choice(store, locked, excluded);
    let swap = swap_choice(store, locked, excluded);
    if class_outcome(Some(chosen), regular, manual, need, quote) {
        law_selection_within_class(chosen, regular, manual, need, quote, c);
        lemma_available(store, Category::Descriptor, locked, excluded, c);
    } else {
        assert(class_outcome(Some(chosen), swap, manual, need, quote));
        law_selection_within_class(chosen, swap, manual, need, quote, c);
        lemma_available(store, Category::Swept, locked, excluded, c);
    }
}

/// The outputs of a list that are no coins of the wallet's own.
pub open spec fn unspendable(
    store: WalletStore,
    local: crate::backend::LocalScripts,
    utxos: Seq<UtxoView>,
) -> Seq<OutPoint>
    decreases utxos.len(),
{
    if utxos.len() == 0 {
        Seq::empty()
    } else {
        let before = unspendable(store, local, utxos.drop_last());
        if own_info(store, local, utxos.last()) == Some(None::<crate::spend_info::SpendInfoView>) {
            before.push(utxos.last().outpoint())
        } else {
            before
        }
    }
}

impl<B: BlockchainBackend> Wallet<B> {
    /// Whether `coin_select` takes these arguments: the amounts stay within 64 bits, and what was named
    /// by hand is one whole choice.
    pub fn can_coin_select(
        &self,
        amount: u64,
        quote: &FeeQuote,
        manually_selected_outpoints: &Option<Vec<OutPoint>>,
        excluded_outpoints: &Option<Vec<OutPoint>>,
        locked: &Vec<OutPoint>,
    ) -> (possible: bool)
        ensures
            possible == {
                let regular = regular_choice(self.store, locked@, named(*excluded_outpoints));
                let swap = swap_choice(self.store, locked@, named(*excluded_outpoints));
                let need = (amount + quote.estimated_fee) as nat;
                &&& need > 0
                &&& class_fits(regular, need, *quote)
                &&& class_fits(swap, need, *quote)
                &&& manual_fits(named(*manually_selected_outpoints), regular, swap, need)
            },
    {
        let regular = available_coins(
            &self.list_descriptor_utxo_spend_info(),
            locked,
            excluded_outpoints,
        );
        let swap = available_coins(
            &self.list_swept_incoming_swap_utxos(),
            locked,
            excluded_outpoints,
        );
        can_select_coins(&regular, &swap, amount, quote, manually_selected_outpoints)
    }

    /// Selects coins worth `amount` and the estimated fee among the wallet's regular coins, or else
    /// among its swept coins. Coins that are locked, excluded or unconfirmed are not considered.
    pub fn coin_select(
        &self,
        amount: u64,
        quote: &FeeQuote,
        manually_selected_outpoints: &Option<Vec<OutPoint>>,
        excluded_outpoints: &Option<Vec<OutPoint>>,
        locked: &Vec<OutPoint>,
    ) -> (result: Result<Vec<Coin>, WalletError>)
        requires
            amount + quote.estimated_fee > 0,
            class_fits(
                regular_choice(self.store, locked@, named(*excluded_outpoints)),
                (amount + quote.estimated_fee) as nat,
                *quote,
            ),
            class_fits(
                swap_choice(self.store, locked@, named(*excluded_outpoints)),
                (amount + quote.estimated_fee) as nat,
                *quote,
            ),
            manual_fits(
                named(*manually_selected_outpoints),
                regular_choice(self.store, locked@, named(*excluded_outpoints)),
                swap_choice(self.store, locked@, named(*excluded_outpoints)),
                (amount + quote.estimated_fee) as nat,
            ),
        ensures
            selection_outcome(
                result_views(result),
                regular_choice(self.store, locked@, named(*excluded_outpoints)),
                swap_choice(self.store, locked@, named(*excluded_outpoints)),
                named(*manually_selected_outpoints),
                (amount + quote.estimated_fee) as nat,
                *quote,
            ),
    {
        let regular = available_coins(
            &self.list_descriptor_utxo_spend_info(),
            locked,
            excluded_outpoints,
        );
        let swap = available_coins(
            &self.list_swept_incoming_swap_utxos(),
            locked,
            excluded_outpoints,
        );
        select_coins(&regular, &swap, amount, quote, manually_selected_outpoints)
    }

    /// The outputs, of those that the backend lists, that are to be locked: fidelity bonds and live
    /// contracts, and whatever else is no coin of the wallet's own.
    pub fn lock_unspendable_utxos(&self, utxos: &Vec<ListUnspentResultEntry>) -> (to_lock: Result<
        Vec<OutPoint>,
        WalletError,
    >)
        requires
            self.well_formed(),
        ensures
            match to_lock {
                Ok(list) => list@ == unspendable(self.store, self.rpc.local(), views(utxos@))
                    && all_classified(self.store, self.rpc.local(), views(utxos@)),
                Err(e) => e == WalletError::Derivation && !all_classified(
                    self.store,
                    self.rpc.local(),
                    views(utxos@),
                ),
            },
    {
        let ghost all = views(utxos@);
        let ghost local = self.rpc.local();
        let mut to_lock: Vec<OutPoint> = Vec::new();
        let mut i: usize = 0;
        assert(all.take(0) =~= Seq::<UtxoView>::empty());
        while i < utxos.len()
            invariant
                self.well_formed(),
                all == views(utxos@),
                local == self.rpc.local(),
                i <= utxos.len(),
                to_lock@ == unspendable(self.store, local, all.take(i as int)),
                forall|j: int|
                    0 <= j < i ==> own_info(self.store, local, #[trigger] all[j]) is Some,
            decreases utxos.len() - i,
        {
            assert(all[i as int] == utxos@[i as int]@);
            assert(all.take(i + 1).drop_last() =~= all.take(i as int));
            assert(all.take(i + 1).last() == all[i as int]);
            match self.check_and_derive_descriptor_utxo_or_swap_coin(&utxos[i]) {
                Ok(info) => {
                    if info.is_none() {
                        to_lock.push(utxos[i].outpoint());
                    }
                },
                Err(e) => {
                    assert(own_info(self.store, local, all[i as int]) is None);
                    return Err(e);
                },
            }
            i += 1;
        }
        assert(all.take(i as int) =~= all);
        Ok(to_lock)
    }
}

/// Whether each output of a list could be told to be the wallet's own or not.
pub open spec fn all_classified(
    store: WalletStore,
    local: crate::backend::LocalScripts,
    utxos: Seq<UtxoView>,
) -> bool {
    forall|i: int| 0 <= i < utxos.len() ==> own_info(store, local, #[trigger] utxos[i]) is Some
}

/// Every cached coin of the seed that is confirmed, not locked and not excluded is in the choice that a
/// selection draws from, whatever its address type: a regular coin among the regular ones, a swept coin
/// among the swap coins.
pub proof fn law_every_free_coin_is_in_the_choice(
    store: WalletStore,
    locked: Seq<OutPoint>,
    excluded: Seq<OutPoint>,
    i: int,
)
    requires
        0 <= i < store.utxo_cache.entries@.len(),
        store.utxo_cache.entries@[i].1.0.confirmations > 0,
        !locked.contains(
            OutPoint {
                txid: store.utxo_cache.entries@[i].1.0.txid,
                vout: store.utxo_cache.entries@[i].1.0.vout,
            },
        ),
        !excluded.contains(
            OutPoint {
                txid: store.utxo_cache.entries@[i].1.0.txid,
                vout: store.utxo_cache.entries@[i].1.0.vout,
            },
        ),
    ensures
        store.utxo_cache.entries@[i].1.1 is SeedCoin ==> regular_choice(
            store,
            locked,
            excluded,
        ).contains(store.utxo_cache.entries@[i].1@),
        store.utxo_cache.entries@[i].1.1 is SweptCoin ==> swap_choice(
            store,
            locked,
            excluded,
        ).contains(store.utxo_cache.entries@[i].1@),
{
    let all = cached_coins(store.utxo_cache);
    let c = store.utxo_cache.entries@[i].1@;
    assert(all[i] == c);
    let free = |c: CoinView|
        c.0.confirmations > 0 && !locked.contains(c.0.outpoint()) && !excluded.contains(
            c.0.outpoint(),
        );
    if c.1 is SeedCoin {
        let class = coins_of(store, Category::Descriptor);
        all.lemma_filter_contains(|c: CoinView| Category::Descriptor.holds(c.1), i);
        let j = choose|j: int| 0 <= j < class.len() && class[j] == c;
        class.lemma_filter_contains(free, j);
    }
    if c.1 is SweptCoin {
        let class = coins_of(store, Category::Swept);
        all.lemma_filter_contains(|c: CoinView| Category::Swept.holds(c.1), i);
        let j = choose|j: int| 0 <= j < class.len() && class[j] == c;
        class.lemma_filter_contains(free, j);
    }
}

/// A wallet that holds a coin that it could spend never says that there is nothing: where funds are lacking, it
/// tells at least what the coin is worth, or what the payment needs.
pub proof fn law_wallet_with_a_coin_has_funds(
    store: WalletStore,
    locked: Seq<OutPoint>,
    excluded: Seq<OutPoint>,
    manual: Seq<OutPoint>,
    need: nat,
    quote: FeeQuote,
    error: WalletError,
    i: int,
)
    requires
        selection_outcome(
            Err(error),
            regular_choice(store, locked, excluded),
            swap_choice(store, locked, excluded),
            manual,
            need,
            quote,
        ),
        0 <= i < store.utxo_cache.entries@.len(),
        store.utxo_cache.entries@[i].1.1 is SeedCoin || store.utxo_cache.entries@[i].1.1
            is SweptCoin,
        store.utxo_cache.entries@[i].1.0.confirmations > 0,
        !locked.contains(
            OutPoint {
                txid: store.utxo_cache.entries@[i].1.0.txid,
                vout: store.utxo_cache.entries@[i].1.0.vout,
            },
        ),
        !excluded.contains(
            OutPoint {
                txid: store.utxo_cache.entries@[i].1.0.txid,
                vout: store.utxo_cache.entries@[i].1.0.vout,
            },
        ),
    ensures
        error matches WalletError::InsufficientFund { available, required } ==> (available
            >= store.utxo_cache.entries@[i].1.0.amount || available >= need) && required >= need,
{
    law_every_free_coin_is_in_the_choice(store, locked, excluded, i);
    if error is InsufficientFund {
        law_lacking_funds_are_told_truly(
            error,
            regular_choice(store, locked, excluded),
            swap_choice(store, locked, excluded),
            manual,
            need,
            quote,
            store.utxo_cache.entries@[i].1@,
        );
    }
}

/// What is to be locked is told output by output: one that the wallet cannot spend, and no other. A regular coin,
/// a swept coin and a coin of a swap are never locked.
pub proof fn law_own_coins_are_not_locked(
    store: WalletStore,
    local: crate::backend::LocalScripts,
    utxos: Seq<UtxoView>,
    utxo: UtxoView,
)
    ensures
        unspendable(store, local, Seq::<UtxoView>::empty()).len() == 0,
        own_info(store, local, utxo) == Some(None::<crate::spend_info::SpendInfoView>)
            ==> unspendable(store, local, utxos.push(utxo)) == unspendable(
            store,
            local,
            utxos,
        ).push(OutPoint { txid: utxo.txid, vout: utxo.vout }),
        own_info(store, local, utxo) is Some && own_info(store, local, utxo)->Some_0 is Some
            ==> unspendable(store, local, utxos.push(utxo)) == unspendable(store, local, utxos),
{
    assert(utxos.push(utxo).drop_last() =~= utxos);
}

} // verus!
