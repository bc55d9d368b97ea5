//! The sweep of received swap coins into the wallet.
use vstd::prelude::*;
use crate::backend::BlockchainBackend;
use crate::bytes::{position_of_script, views, ScriptBuf};
use crate::raw_tx::{compute_txid, txid_of};
use crate::primitives::{ProtocolVersion, TxOutView, Txid};
use crate::spend_info::RecoveryOutcome;
use crate::store::WalletStore;
use crate::swapcoin::{IncomingSwapCoin, IncomingView};
use crate::wallet::{without_entry, Wallet};

verus! {

/// The seconds between two looks for a contract in the mempool.
pub const SWEEP_POLL_SECS: u64 = 10;

/// The seconds after which the wait for a contract to confirm is over.
pub const SWEEP_WAIT_SECS: u64 = 600;

impl IncomingView {
    /// Whether the wallet can claim the coin: it has the other party's key, or the preimage.
    pub open spec fn completed(self) -> bool {
        self.other_privkey is Some || self.hash_preimage is Some
    }
}

/// The contracts of the coins that can be claimed, in order.
pub open spec fn completed_keys(entries: Seq<(Txid, IncomingSwapCoin)>) -> Seq<Txid>
    decreases entries.len(),
{
    if entries.len() == 0 {
        Seq::empty()
    } else {
        let before = completed_keys(entries.drop_last());
        if entries.last().1@.completed() {
            before.push(entries.last().0)
        } else {
            before
        }
    }
}

proof fn lemma_completed_keys(entries: Seq<(Txid, IncomingSwapCoin)>, key: Txid)
    ensures
        completed_keys(entries).contains(key) <==> exists|i: int|
            0 <= i < entries.len() && (#[trigger] entries[i]).0 == key && entries[i].1@.completed(),
    decreases entries.len(),
{
    if entries.len() > 0 {
        let rest = entries.drop_last();
        let before = completed_keys(rest);
        let all = completed_keys(entries);
        let n = entries.len() - 1;
        lemma_completed_keys(rest, key);
        if all.contains(key) {
            let k = choose|k: int| 0 <= k < all.len() && all[k] == key;
            if k < before.len() {
                assert(before[k] == key);
                let i = choose|i: int|
                    0 <= i < rest.len() && (#[trigger] rest[i]).0 == key && rest[i].1@.completed();
                assert(entries[i] == rest[i]);
            } else {
                assert(entries[n].0 == key);
            }
        }
        if exists|i: int|
            0 <= i < entries.len() && (#[trigger] entries[i]).0 == key
                && entries[i].1@.completed() {
            let i = choose|i: int|
                0 <= i < entries.len() && (#[trigger] entries[i]).0 == key
                    && entries[i].1@.completed();
            if i < n {
                assert(rest[i] == entries[i]);
                let k = choose|k: int| 0 <= k < before.len() && before[k] == key;
                assert(all[k] == key);
            } else {
                assert(all[all.len() - 1] == key);
            }
        }
    }
}

/// Exactly the contracts of the coins that can be claimed are swept.
pub proof fn law_swept_are_completed(entries: Seq<(Txid, IncomingSwapCoin)>, i: int)
    requires
        0 <= i < entries.len(),
        forall|a: int, b: int|
            0 <= a < b < entries.len() ==> (#[trigger] entries[a]).0 != (#[trigger] entries[b]).0,
    ensures
        completed_keys(entries).contains(entries[i].0) == entries[i].1@.completed(),
{
    lemma_completed_keys(entries, entries[i].0);
}

/// Whether an output is the first with the given value.
pub open spec fn first_with_value(outputs: Seq<TxOutView>, value: u64, i: int) -> bool {
    &&& 0 <= i < outputs.len()
    &&& outputs[i].value == value
    &&& forall|j: int| 0 <= j < i ==> (#[trigger] outputs[j]).value != value
}

/// The position of the first output with the given value, or zero where there is none.
pub open spec fn value_position(outputs: Seq<TxOutView>, value: u64) -> int {
    if exists|i: int| first_with_value(outputs, value, i) {
        choose|i: int| first_with_value(outputs, value, i)
    } else {
        0
    }
}

/// The output that a sweep spends.
#[derive(Debug, Clone, Copy, PartialEq, Eq, Structural)]
pub struct SweepSource {
    /// The transaction that holds it.
    pub txid: Txid,
    /// Its position there.
    pub vout: u32,
    /// Its value in satoshis.
    pub value: u64,
}

/// The output that a sweep of a coin spends, if there is one. With the other party's key, a legacy
/// coin is claimed from its funding output; with the preimage alone, from its contract. The contract
/// transaction of a Taproot coin is the funding transaction.
pub open spec fn sweep_source(coin: IncomingView) -> Option<SweepSource> {
    match coin.protocol {
        ProtocolVersion::Legacy => if coin.other_privkey is Some {
            if coin.contract_tx.input.len() > 0 {
                let funding = coin.contract_tx.input[0].previous_output;
                Some(
                    SweepSource {
                        txid: funding.txid,
                        vout: funding.vout,
                        value: coin.funding_amount,
                    },
                )
            } else {
                None
            }
        } else if coin.contract_tx.output.len() > 0 {
            Some(
                SweepSource {
                    txid: txid_of(coin.contract_tx),
                    vout: 0,
                    value: coin.contract_tx.output[0].value,
                },
            )
        } else {
            None
        },
        ProtocolVersion::Taproot => Some(
            SweepSource {
                txid: txid_of(coin.contract_tx),
                vout: (value_position(coin.contract_tx.output, coin.funding_amount) as usize) as u32,
                value: coin.funding_amount,
            },
        ),
    }
}

impl IncomingSwapCoin {
    /// The output that a sweep of the coin spends, if there is one.
    pub fn sweep_source(&self) -> (source: Option<SweepSource>)
        ensures
            source == sweep_source(self@),
    {
        match self.protocol {
            ProtocolVersion::Legacy => {
                if self.other_privkey.is_some() {
                    if self.contract_tx.input.len() == 0 {
                        return None;
                    }
                    let funding = self.contract_tx.input[0].previous_output;
                    Some(
                        SweepSource {
                            txid: funding.txid,
                            vout: funding.vout,
                            value: self.funding_amount,
                        },
                    )
                } else {
                    if self.contract_tx.output.len() == 0 {
                        return None;
                    }
                    Some(
                        SweepSource {
                            txid: compute_txid(&self.contract_tx),
                            vout: 0,
                            value: self.contract_tx.output[0].value,
                        },
                    )
                }
            },
            ProtocolVersion::Taproot => {
                let outputs = &self.contract_tx.output;
                let ghost all = self.contract_tx@.output;
                let mut at: usize = 0;
                while at < outputs.len() && outputs[at].value != self.funding_amount
                    invariant
                        *outputs == self.contract_tx.output,
                        all == self.contract_tx@.output,
                        at <= outputs.len(),
                        forall|j: int|
                            0 <= j < at ==> (#[trigger] all[j]).value != self.funding_amount,
                    decreases outputs.len() - at,
                {
                    assert(all[at as int].value == outputs@[at as int].value);
                    at += 1;
                }
                let vout: usize = if at < outputs.len() {
                    at
                } else {
                    0
                };
                proof {
                    let value = self.funding_amount;
                    if at < outputs.len() {
                        assert(all[at as int].value == value);
                        assert(first_with_value(all, value, at as int));
                        let i = value_position(all, value);
                        assert(first_with_value(all, value, i));
                        assert(i == at);
                    } else {
                        assert(forall|i: int| !first_with_value(all, value, i));
                    }
                }
                Some(
                    SweepSource {
                        txid: compute_txid(&self.contract_tx),
                        vout: vout as u32,
                        value: self.funding_amount,
                    },
                )
            },
        }
    }
}

/// What is known of the output that a sweep spends, as the answers come in.
#[derive(Debug, Clone, Copy, PartialEq, Eq, Structural)]
pub struct SweepFacts {
    /// Whether it is confirmed and unspent.
    pub confirmed: Option<bool>,
    /// Whether it is unspent, the mempool considered.
    pub in_mempool: Option<bool>,
    /// How many looks did not find it confirmed.
    pub polls: u64,
    /// How many pauses were made between looks.
    pub pauses: u64,
    /// Whether a look found it confirmed.
    pub found: bool,
    /// Whether the contract transaction could be signed and was accepted.
    pub broadcast: Option<bool>,
    /// Whether it is unspent after the broadcast, the mempool considered.
    pub available: Option<bool>,
}

/// What the sweep of a coin does next.
#[derive(Debug, Clone, Copy, PartialEq, Eq, Structural)]
pub enum SweepStep {
    /// Ask whether the output is confirmed and unspent.
    AskConfirmed,
    /// Ask whether the output is unspent, the mempool considered.
    AskMempool,
    /// Look again whether the output is confirmed and unspent.
    Poll,
    /// Pause for ten seconds.
    Pause,
    /// Sign the contract transaction and broadcast it.
    BroadcastContract,
    /// Ask whether the output is unspent after the broadcast, the mempool considered.
    AskAvailable,
    /// Leave the coin for a later try.
    Skip,
    /// Spend the output to the wallet.
    Spend,
}

/// What the wait for an output in the mempool does next: it looks, pauses and looks again. The coin
/// is spent once a look finds it, or when the wait is over.
pub open spec fn wait_step(facts: SweepFacts) -> SweepStep {
    if facts.found || SWEEP_POLL_SECS * facts.polls > SWEEP_WAIT_SECS {
        SweepStep::Spend
    } else if facts.pauses < facts.polls {
        SweepStep::Pause
    } else {
        SweepStep::Poll
    }
}

/// What the sweep of a coin does next, by what is known.
pub open spec fn sweep_step(coin: IncomingView, facts: SweepFacts) -> SweepStep {
    match facts.confirmed {
        None => SweepStep::AskConfirmed,
        Some(true) => SweepStep::Spend,
        Some(false) => match facts.in_mempool {
            None => SweepStep::AskMempool,
            Some(true) => wait_step(facts),
            Some(false) => if coin.other_privkey is None && coin.others_contract_sig is Some {
                match facts.broadcast {
                    None => SweepStep::BroadcastContract,
                    Some(false) => SweepStep::Skip,
                    Some(true) => match facts.available {
                        None => SweepStep::AskAvailable,
                        Some(true) => SweepStep::Spend,
                        Some(false) => SweepStep::Skip,
                    },
                }
            } else {
                SweepStep::Skip
            },
        },
    }
}

/// An output is spent only after the backend has told that it exists and is unspent, in a block or in
/// the mempool.
pub proof fn law_sweep_spends_what_exists(coin: IncomingView, facts: SweepFacts)
    requires
        sweep_step(coin, facts) == SweepStep::Spend,
    ensures
        facts.confirmed == Some(true) || facts.in_mempool == Some(true) || facts.available == Some(
            true,
        ),
{
}

/// The wait for an output in the mempool ends: after sixty pauses and one more look.
pub proof fn law_sweep_wait_is_bounded(facts: SweepFacts)
    ensures
        facts.polls > 60 ==> wait_step(facts) == SweepStep::Spend,
        wait_step(facts) == SweepStep::Pause ==> facts.pauses < 60,
{
}

/// A contract is broadcast only where the wallet lacks the other party's key and has its signature.
pub proof fn law_sweep_broadcasts_own_contract(coin: IncomingView, facts: SweepFacts)
    requires
        sweep_step(coin, facts) == SweepStep::BroadcastContract,
    ensures
        coin.other_privkey is None,
        coin.others_contract_sig is Some,
        facts.confirmed == Some(false),
        facts.in_mempool == Some(false),
{
}

impl SweepFacts {
    /// Nothing is known.
    pub fn new() -> (facts: Self)
        ensures
            facts == (SweepFacts {
                confirmed: None,
                in_mempool: None,
                polls: 0,
                pauses: 0,
                found: false,
                broadcast: None,
                available: None,
            }),
    {
        SweepFacts {
            confirmed: None,
            in_mempool: None,
            polls: 0,
            pauses: 0,
            found: false,
            broadcast: None,
            available: None,
        }
    }

    /// Decides what the sweep of a coin does next.
    pub fn next(&self, coin: &IncomingSwapCoin) -> (step: SweepStep)
        ensures
            step == sweep_step(coin@, *self),
    {
        match self.confirmed {
            None => SweepStep::AskConfirmed,
            Some(true) => SweepStep::Spend,
            Some(false) => match self.in_mempool {
                None => SweepStep::AskMempool,
                Some(true) => {
                    if self.found || self.polls > SWEEP_WAIT_SECS / SWEEP_POLL_SECS {
                        SweepStep::Spend
                    } else if self.pauses < self.polls {
                        SweepStep::Pause
                    } else {
                        SweepStep::Poll
                    }
                },
                Some(false) => {
                    if coin.other_privkey.is_none() && coin.others_contract_sig.is_some() {
                        match self.broadcast {
                            None => SweepStep::BroadcastContract,
                            Some(false) => SweepStep::Skip,
                            Some(true) => match self.available {
                                None => SweepStep::AskAvailable,
                                Some(true) => SweepStep::Spend,
                                Some(false) => SweepStep::Skip,
                            },
                        }
                    } else {
                        SweepStep::Skip
                    }
                },
            },
        }
    }
}

impl<B: BlockchainBackend> Wallet<B> {
    /// The received coins that a sweep claims, by their contracts.
    pub fn sweep_incoming_swapcoins(&self) -> (keys: Vec<Txid>)
        ensures
            keys@ == completed_keys(self.store.incoming_swapcoins.entries@),
    {
        let coins = &self.store.incoming_swapcoins.entries;
        let mut keys: Vec<Txid> = Vec::new();
        let mut i: usize = 0;
        assert(coins@.take(0) =~= Seq::<(Txid, IncomingSwapCoin)>::empty());
        while i < coins.len()
            invariant
                coins == self.store.incoming_swapcoins.entries,
                i <= coins.len(),
                keys@ == completed_keys(coins@.take(i as int)),
            decreases coins.len() - i,
        {
            assert(coins@.take(i + 1).drop_last() =~= coins@.take(i as int));
            if coins[i].1.other_privkey.is_some() || coins[i].1.hash_preimage.is_some() {
                keys.push(coins[i].0);
            }
            i += 1;
        }
        assert(coins@.take(i as int) =~= coins@);
        keys
    }

    /// Records that a coin was swept to a script of the wallet: the coin leaves the wallet, and the script
    /// is remembered, so that what it holds is never mixed with regular coins.
    pub fn record_sweep(
        &mut self,
        outcome: &mut RecoveryOutcome,
        coin: &IncomingSwapCoin,
        key: &Txid,
        sweep_txid: Txid,
        script: &ScriptBuf,
    )
        requires
            old(self).well_formed(),
        ensures
            final(self).well_formed(),
            final(self).rpc == old(self).rpc,
            final(self).store == (WalletStore {
                incoming_swapcoins: final(self).store.incoming_swapcoins,
                swept_incoming_swapcoins: final(self).store.swept_incoming_swapcoins,
                ..old(self).store
            }),
            without_entry(
                final(self).store.incoming_swapcoins,
                old(self).store.incoming_swapcoins,
                *key,
            ),
            views(final(self).store.swept_incoming_swapcoins@) == (if views(
                old(self).store.swept_incoming_swapcoins@,
            ).contains(script@) {
                views(old(self).store.swept_incoming_swapcoins@)
            } else {
                views(old(self).store.swept_incoming_swapcoins@).push(script@)
            }),
            final(outcome).resolved@ == old(outcome).resolved@.push(
                (txid_of(coin.contract_tx@), sweep_txid),
            ),
            final(outcome).discarded == old(outcome).discarded,
    {
        outcome.resolved.push((compute_txid(&coin.contract_tx), sweep_txid));
        let removed = self.remove_incoming_swapcoin(key);
        let ghost swept = views(self.store.swept_incoming_swapcoins@);
        if position_of_script(&self.store.swept_incoming_swapcoins, script).is_none() {
            self.store.swept_incoming_swapcoins.push(script.clone());
            assert(views(self.store.swept_incoming_swapcoins@) =~= swept.push(script@));
            assert(!swept.contains(script@));
        } else {
            assert(swept.contains(script@)) by {
                let i = choose|i: int|
                    0 <= i < swept.len() && self.store.swept_incoming_swapcoins@[i]@ == script@;
                assert(swept[i] == script@);
            }
        }
    }
}

/// The received coins that a sweep claims are those whose other private key was handed over or whose
/// preimage is known, each of them, and no others.
pub proof fn law_every_claimable_coin_is_swept(entries: Seq<(Txid, IncomingSwapCoin)>, i: int)
    requires
        0 <= i < entries.len(),
        forall|a: int, b: int|
            0 <= a < b < entries.len() ==> (#[trigger] entries[a]).0 != (#[trigger] entries[b]).0,
    ensures
        entries[i].1.other_privkey is Some ==> completed_keys(entries).contains(entries[i].0),
        entries[i].1.hash_preimage is Some ==> completed_keys(entries).contains(entries[i].0),
        entries[i].1.other_privkey is None && entries[i].1.hash_preimage is None
            ==> !completed_keys(entries).contains(entries[i].0),
        completed_keys(entries).no_duplicates(),
        completed_keys(entries).len() <= entries.len(),
{
    lemma_completed_keys(entries, entries[i].0);
    lemma_completed_distinct(entries);
}

proof fn lemma_completed_distinct(entries: Seq<(Txid, IncomingSwapCoin)>)
    requires
        forall|a: int, b: int|
            0 <= a < b < entries.len() ==> (#[trigger] entries[a]).0 != (#[trigger] entries[b]).0,
    ensures
        completed_keys(entries).no_duplicates(),
        completed_keys(entries).len() <= entries.len(),
    decreases entries.len(),
{
    if entries.len() > 0 {
        let rest = entries.drop_last();
        let before = completed_keys(rest);
        let last = entries.last().0;
        lemma_completed_distinct(rest);
        lemma_completed_keys(rest, last);
        assert(entries[entries.len() - 1].0 == last);
        if before.contains(last) {
            let i = choose|i: int|
                0 <= i < rest.len() && (#[trigger] rest[i]).0 == last && rest[i].1@.completed();
            assert(entries[i] == rest[i]);
        }
        assert forall|i: int, j: int|
            0 <= i < before.len() + 1 && 0 <= j < before.len() + 1 && i != j implies before.push(
            last,
        )[i] != before.push(last)[j] by {
            if i == before.len() {
                assert(before.contains(before[j]));
            } else if j == before.len() {
                assert(before.contains(before[i]));
            }
        }
    }
}

/// The value of the source of a sweep is that of the output at its place. A legacy coin whose other key
/// was handed over is swept from the outpoint that its contract spends, at the funding amount; one with
/// the preimage alone from the first output of its contract, at that output's value. A Taproot coin is
/// swept from the first output of its contract that is worth the funding amount. Where there is no such
/// input or output, a legacy coin is not swept.
pub proof fn law_sweep_source_has_its_value(coin: IncomingView, i: int)
    ensures
        coin.protocol == ProtocolVersion::Legacy && coin.other_privkey is Some
            && coin.contract_tx.input.len() > 0 ==> {
            let source = sweep_source(coin)->Some_0;
            let spent = coin.contract_tx.input[0].previous_output;
            &&& sweep_source(coin) is Some
            &&& source.txid == spent.txid
            &&& source.vout == spent.vout
            &&& source.value == coin.funding_amount
        },
        coin.protocol == ProtocolVersion::Legacy && coin.other_privkey is None
            && coin.contract_tx.output.len() > 0 ==> {
            let source = sweep_source(coin)->Some_0;
            &&& sweep_source(coin) is Some
            &&& source.txid == txid_of(coin.contract_tx)
            &&& source.vout == 0
            &&& source.value == coin.contract_tx.output[0].value
        },
        coin.protocol == ProtocolVersion::Legacy && (if coin.other_privkey is Some {
            coin.contract_tx.input.len() == 0
        } else {
            coin.contract_tx.output.len() == 0
        }) ==> sweep_source(coin) is None,
        coin.protocol == ProtocolVersion::Taproot ==> {
            let source = sweep_source(coin)->Some_0;
            &&& sweep_source(coin) is Some
            &&& source.txid == txid_of(coin.contract_tx)
            &&& source.value == coin.funding_amount
            &&& coin.contract_tx.output.len() <= u32::MAX && 0 <= i < coin.contract_tx.output.len()
                && coin.contract_tx.output[i].value == coin.funding_amount ==> source.vout <= i
                && coin.contract_tx.output[source.vout as int].value == coin.funding_amount
            &&& (forall|j: int|
                0 <= j < coin.contract_tx.output.len() ==> (
                #[trigger] coin.contract_tx.output[j]).value != coin.funding_amount) ==> source.vout
                == 0
        },
{
    let outputs = coin.contract_tx.output;
    let value = coin.funding_amount;
    if 0 <= i < outputs.len() && outputs[i].value == value {
        lemma_first_with_value(outputs, value, i);
        let at = value_position(outputs, value);
        assert(first_with_value(outputs, value, at));
        if i < at {
            assert(outputs[i].value != value);
        }
    }
}

proof fn lemma_first_with_value(outputs: Seq<TxOutView>, value: u64, i: int)
    requires
        0 <= i < outputs.len(),
        outputs[i].value == value,
    ensures
        exists|j: int| first_with_value(outputs, value, j),
    decreases i,
{
    if exists|j: int| 0 <= j < i && (#[trigger] outputs[j]).value == value {
        let j = choose|j: int| 0 <= j < i && (#[trigger] outputs[j]).value == value;
        lemma_first_with_value(outputs, value, j);
    } else {
        assert(first_with_value(outputs, value, i));
    }
}

/// A coin that a sweep claims is spent as soon as its output is known to be confirmed, and never left
/// while it is confirmed or in the mempool.
pub proof fn law_sweep_spends_what_is_found(coin: IncomingView, facts: SweepFacts)
    ensures
        facts.confirmed == Some(true) ==> sweep_step(coin, facts) == SweepStep::Spend,
        facts.confirmed is None ==> sweep_step(coin, facts) == SweepStep::AskConfirmed,
        facts.confirmed == Some(false) && facts.in_mempool is None ==> sweep_step(coin, facts)
            == SweepStep::AskMempool,
        facts.confirmed == Some(false) && facts.in_mempool == Some(true) ==> {
            let step = sweep_step(coin, facts);
            &&& step == SweepStep::Spend <==> facts.found || facts.polls > 60
            &&& step == SweepStep::Pause <==> !facts.found && facts.polls <= 60 && facts.pauses
                < facts.polls
            &&& step == SweepStep::Poll <==> !facts.found && facts.polls <= 60 && facts.pauses
                >= facts.polls
        },
{
}

/// A coin whose output is nowhere is left for later, unless the wallet can bring its contract on the
/// chain: then the contract is broadcast, and the coin is spent where its output came of it.
pub proof fn law_sweep_brings_the_contract_on_chain(coin: IncomingView, facts: SweepFacts)
    requires
        facts.confirmed == Some(false),
        facts.in_mempool == Some(false),
    ensures
        coin.other_privkey is Some || coin.others_contract_sig is None ==> sweep_step(coin, facts)
            == SweepStep::Skip,
        coin.other_privkey is None && coin.others_contract_sig is Some ==> {
            let step = sweep_step(coin, facts);
            &&& facts.broadcast is None ==> step == SweepStep::BroadcastContract
            &&& facts.broadcast == Some(false) ==> step == SweepStep::Skip
            &&& facts.broadcast == Some(true) && facts.available is None ==> step
                == SweepStep::AskAvailable
            &&& facts.broadcast == Some(true) && facts.available == Some(true) ==> step
                == SweepStep::Spend
            &&& facts.broadcast == Some(true) && facts.available == Some(false) ==> step
                == SweepStep::Skip
        },
{
}

} // verus!
