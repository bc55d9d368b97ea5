//! The recovery of sent swap coins once their timelocks are over.
use vstd::prelude::*;
use vstd::string::*;
use crate::assoc::AssocMap;
use crate::backend::BlockchainBackend;
use crate::bytes::ScriptBuf;
use crate::error::WalletError;
use crate::raw_tx::{compute_txid, txid_of};
use crate::primitives::{
    OutPoint, ProtocolVersion, Transaction, TxIn, TxInView, TxOut, TxOutView, Txid,
};
use crate::spend_info::RecoveryOutcome;
use crate::store::WalletStore;
use crate::swapcoin::{OutgoingSwapCoin, OutgoingView};
use crate::text::{contains_seq, contains_text};
use crate::wallet::Wallet;

verus! {

impl OutgoingView {
    /// Whether a recovery is tried at a height: the wallet holds its key and knows the timelock, and a
    /// Taproot timelock, which is a height, is reached. A legacy timelock counts from the contract's
    /// confirmation, so it is judged later.
    pub open spec fn recoverable_at(self, height: u32) -> bool {
        &&& self.my_privkey is Some
        &&& self.timelock is Some
        &&& self.protocol == ProtocolVersion::Taproot ==> height >= self.timelock->Some_0
    }

    /// The confirmations that the contract output needs before it can be spent: one for Taproot,
    /// where the height decides, and as many as the timelock for the legacy protocol.
    pub open spec fn required_confirmations(self) -> u32 {
        if self.protocol == ProtocolVersion::Taproot {
            1
        } else {
            match self.timelock {
                Some(timelock) => timelock,
                None => 0,
            }
        }
    }
}

/// The contracts of the coins that are tried at a height, in order.
pub open spec fn recoverable_keys(entries: Seq<(Txid, OutgoingSwapCoin)>, height: u32) -> Seq<Txid>
    decreases entries.len(),
{
    if entries.len() == 0 {
        Seq::empty()
    } else {
        let before = recoverable_keys(entries.drop_last(), height);
        if entries.last().1@.recoverable_at(height) {
            before.push(entries.last().0)
        } else {
            before
        }
    }
}

/// A contract is tried exactly if a coin with it is recoverable.
pub proof fn law_recoverable_keys(entries: Seq<(Txid, OutgoingSwapCoin)>, height: u32, key: Txid)
    ensures
        recoverable_keys(entries, height).contains(key) <==> exists|i: int|
            0 <= i < entries.len() && (#[trigger] entries[i]).0 == key
                && entries[i].1@.recoverable_at(height),
    decreases entries.len(),
{
    if entries.len() > 0 {
        let rest = entries.drop_last();
        let before = recoverable_keys(rest, height);
        let all = recoverable_keys(entries, height);
        let n = entries.len() - 1;
        law_recoverable_keys(rest, height, key);
        if all.contains(key) {
            let k = choose|k: int| 0 <= k < all.len() && all[k] == key;
            if k < before.len() {
                assert(before[k] == key);
                let i = choose|i: int|
                    0 <= i < rest.len() && (#[trigger] rest[i]).0 == key
                        && rest[i].1@.recoverable_at(height);
                assert(entries[i] == rest[i]);
            } else {
                assert(entries[n].0 == key);
            }
        }
        if exists|i: int|
            0 <= i < entries.len() && (#[trigger] entries[i]).0 == key
                && entries[i].1@.recoverable_at(height) {
            let i = choose|i: int|
                0 <= i < entries.len() && (#[trigger] entries[i]).0 == key
                    && entries[i].1@.recoverable_at(height);
            if i < n {
                assert(rest[i] == entries[i]);
                assert(before.contains(key));
                let k = choose|k: int| 0 <= k < before.len() && before[k] == key;
                assert(all[k] == key);
            } else {
                assert(all[all.len() - 1] == key);
            }
        }
    }
}

proof fn lemma_recoverable_distinct(entries: Seq<(Txid, OutgoingSwapCoin)>, height: u32)
    requires
        forall|i: int, j: int|
            0 <= i < j < entries.len() ==> (#[trigger] entries[i]).0 != (#[trigger] entries[j]).0,
    ensures
        recoverable_keys(entries, height).no_duplicates(),
    decreases entries.len(),
{
    if entries.len() > 0 {
        let rest = entries.drop_last();
        let before = recoverable_keys(rest, height);
        let last = entries.last().0;
        lemma_recoverable_distinct(rest, height);
        law_recoverable_keys(rest, height, last);
        assert(entries[entries.len() - 1].0 == last);
        if before.contains(last) {
            let i = choose|i: int|
                0 <= i < rest.len() && (#[trigger] rest[i]).0 == last
                    && rest[i].1@.recoverable_at(height);
            assert(entries[i] == rest[i]);
        }
        assert(before.push(last).no_duplicates()) by {
            assert forall|i: int, j: int|
                0 <= i < before.len() + 1 && 0 <= j < before.len() + 1 && i != j implies before.push(
                last,
            )[i] != before.push(last)[j] by {
                if i == before.len() {
                    assert(before.contains(before[j]));
                } else if j == before.len() {
                    assert(before.contains(before[i]));
                }
            }
        }
    }
}

/// How the broadcast of a contract transaction went.
#[derive(Debug)]
pub enum Broadcast {
    /// It could not be signed.
    Unsigned,
    /// It was accepted.
    Accepted,
    /// It was refused, with the text of the error.
    Refused(String),
}

/// Whether a refusal says that the transaction is in the chain already.
pub open spec fn says_in_chain(text: Seq<char>) -> bool {
    contains_seq(text, "-27"@) || contains_seq(text, "already in utxo set"@)
}

/// Whether a refusal says that the inputs of the transaction are missing or spent.
pub open spec fn says_inputs_missing(text: Seq<char>) -> bool {
    contains_seq(text, "-25"@) || contains_seq(text, "bad-txns-inputs-missingorspent"@)
}

/// What is known of a coin that is tried, as the answers come in.
#[derive(Debug)]
pub struct RecoveryFacts {
    /// Whether the contract output is confirmed and unspent.
    pub contract_unspent: Option<bool>,
    /// The confirmations of the contract transaction, where the backend gives them.
    pub contract_confirmations: Option<Option<u32>>,
    /// Whether the first input of the contract transaction is unspent.
    pub input_unspent: Option<bool>,
    /// How the broadcast of the contract transaction went.
    pub broadcast: Option<Broadcast>,
    /// The confirmations of the contract output, if it is confirmed and unspent by then.
    pub depth: Option<Option<u32>>,
    /// The transaction that spends the contract output, if it could be made and was accepted.
    pub spend: Option<Option<Txid>>,
}

/// What the recovery of a coin does next.
#[derive(Debug, Clone, Copy, PartialEq, Eq, Structural)]
pub enum RecoveryStep {
    /// Ask whether the contract output is confirmed and unspent.
    AskContractOutput,
    /// Ask for the confirmations of the contract transaction.
    AskContractTx,
    /// Ask whether an output is unspent, the mempool considered.
    AskInput(OutPoint),
    /// Sign the contract transaction and broadcast it.
    BroadcastContract,
    /// Ask for the confirmations of the contract output.
    AskDepth,
    /// Make the transaction that spends the contract output, and broadcast it.
    Spend,
    /// Leave the coin for a later try.
    Skip,
    /// Give the coin up: there is nothing to recover.
    Discard,
    /// The contract was spent by the transaction.
    Resolved(Txid),
}

/// What follows once the contract output exists: its depth, then the spend.
pub open spec fn step_on_chain(coin: OutgoingView, facts: RecoveryFacts) -> RecoveryStep {
    match facts.depth {
        None => RecoveryStep::AskDepth,
        Some(None) => RecoveryStep::Skip,
        Some(Some(depth)) => if depth < coin.required_confirmations() {
            RecoveryStep::Skip
        } else {
            match facts.spend {
                None => RecoveryStep::Spend,
                Some(Some(txid)) => RecoveryStep::Resolved(txid),
                Some(None) => RecoveryStep::Skip,
            }
        },
    }
}

/// What follows the broadcast of the contract transaction.
pub open spec fn step_off_chain(coin: OutgoingView, facts: RecoveryFacts) -> RecoveryStep {
    match facts.broadcast {
        None => RecoveryStep::BroadcastContract,
        Some(Broadcast::Unsigned) => RecoveryStep::Skip,
        Some(Broadcast::Accepted) => step_on_chain(coin, facts),
        Some(Broadcast::Refused(text)) => if says_in_chain(text@) {
            step_on_chain(coin, facts)
        } else if says_inputs_missing(text@) {
            RecoveryStep::Discard
        } else {
            RecoveryStep::Skip
        },
    }
}

/// What the recovery of a coin does next, by what is known.
pub open spec fn recovery_step(coin: OutgoingView, facts: RecoveryFacts) -> RecoveryStep {
    match facts.contract_unspent {
        None => RecoveryStep::AskContractOutput,
        Some(true) => step_on_chain(coin, facts),
        Some(false) => match facts.contract_confirmations {
            None => RecoveryStep::AskContractTx,
            Some(confirmations) => if confirmations is Some && confirmations->Some_0 > 0 {
                RecoveryStep::Discard
            } else {
                match facts.input_unspent {
                    None => RecoveryStep::AskInput(coin.contract_tx.input[0].previous_output),
                    Some(unspent) => if unspent && coin.protocol == ProtocolVersion::Taproot {
                        RecoveryStep::Discard
                    } else {
                        step_off_chain(coin, facts)
                    },
                }
            },
        },
    }
}

/// Whether a contract output was found with as many confirmations as the protocol asks for.
pub open spec fn deep_enough(coin: OutgoingView, depth: Option<Option<u32>>) -> bool {
    depth matches Some(Some(n)) && n >= coin.required_confirmations()
}

/// The contract of a coin is spent only once it is confirmed and unspent, with as many confirmations
/// as the protocol asks for.
pub proof fn law_spend_waits_for_timelock(coin: OutgoingView, facts: RecoveryFacts)
    requires
        recovery_step(coin, facts) == RecoveryStep::Spend || recovery_step(
            coin,
            facts,
        ) is Resolved,
    ensures
        deep_enough(coin, facts.depth),
{
}

/// Why a coin would be given up: its contract output is gone and the contract is confirmed, so
/// somebody spent it; or a Taproot contract, whose input is the wallet's own coin, was never
/// broadcast; or the contract cannot be broadcast for want of its inputs.
pub open spec fn nothing_to_recover(coin: OutgoingView, facts: RecoveryFacts) -> bool {
    ||| facts.contract_confirmations matches Some(Some(n)) && n > 0
    ||| coin.protocol == ProtocolVersion::Taproot && facts.input_unspent == Some(true)
    ||| facts.broadcast matches Some(Broadcast::Refused(text)) && !says_in_chain(text@)
        && says_inputs_missing(text@)
}

/// A coin is given up only where there is nothing to recover.
pub proof fn law_discard_has_reason(coin: OutgoingView, facts: RecoveryFacts)
    requires
        recovery_step(coin, facts) == RecoveryStep::Discard,
    ensures
        facts.contract_unspent == Some(false),
        nothing_to_recover(coin, facts),
{
}

/// A coin whose contract output is unspent is never given up.
pub proof fn law_unspent_contract_is_kept(coin: OutgoingView, facts: RecoveryFacts)
    requires
        facts.contract_unspent == Some(true),
    ensures
        recovery_step(coin, facts) != RecoveryStep::Discard,
{
}

/// Nothing is asked twice: each question and each broadcast comes only while its answer is not known.
pub proof fn law_recovery_asks_once(coin: OutgoingView, facts: RecoveryFacts)
    ensures
        match recovery_step(coin, facts) {
            RecoveryStep::AskContractOutput => facts.contract_unspent is None,
            RecoveryStep::AskContractTx => facts.contract_confirmations is None,
            RecoveryStep::AskInput(_) => facts.input_unspent is None,
            RecoveryStep::BroadcastContract => facts.broadcast is None,
            RecoveryStep::AskDepth => facts.depth is None,
            RecoveryStep::Spend => facts.spend is None,
            _ => true,
        },
{
}

impl RecoveryFacts {
    /// Nothing is known.
    pub fn new() -> (facts: Self)
        ensures
            facts == (RecoveryFacts {
                contract_unspent: None,
                contract_confirmations: None,
                input_unspent: None,
                broadcast: None,
                depth: None,
                spend: None,
            }),
    {
        RecoveryFacts {
            contract_unspent: None,
            contract_confirmations: None,
            input_unspent: None,
            broadcast: None,
            depth: None,
            spend: None,
        }
    }

    fn next_on_chain(&self, coin: &OutgoingSwapCoin) -> (step: RecoveryStep)
        ensures
            step == step_on_chain(coin@, *self),
    {
        let required: u32 = if coin.protocol == ProtocolVersion::Taproot {
            1
        } else {
            match coin.get_timelock() {
                Some(timelock) => timelock,
                None => 0,
            }
        };
        match self.depth {
            None => RecoveryStep::AskDepth,
            Some(None) => RecoveryStep::Skip,
            Some(Some(depth)) => if depth < required {
                RecoveryStep::Skip
            } else {
                match self.spend {
                    None => RecoveryStep::Spend,
                    Some(Some(txid)) => RecoveryStep::Resolved(txid),
                    Some(None) => RecoveryStep::Skip,
                }
            },
        }
    }

    fn next_off_chain(&self, coin: &OutgoingSwapCoin) -> (step: RecoveryStep)
        ensures
            step == step_off_chain(coin@, *self),
    {
        match &self.broadcast {
            None => RecoveryStep::BroadcastContract,
            Some(Broadcast::Unsigned) => RecoveryStep::Skip,
            Some(Broadcast::Accepted) => self.next_on_chain(coin),
            Some(Broadcast::Refused(text)) => {
                let text = text.as_str();
                if contains_text(text, "-27") || contains_text(text, "already in utxo set") {
                    self.next_on_chain(coin)
                } else if contains_text(text, "-25") || contains_text(
                    text,
                    "bad-txns-inputs-missingorspent",
                ) {
                    RecoveryStep::Discard
                } else {
                    RecoveryStep::Skip
                }
            },
        }
    }

    /// Decides what the recovery of a coin does next.
    pub fn next(&self, coin: &OutgoingSwapCoin) -> (step: RecoveryStep)
        requires
            recovery_step(coin@, *self) is AskInput ==> coin.contract_tx.input@.len() > 0,
        ensures
            step == recovery_step(coin@, *self),
    {
        match self.contract_unspent {
            None => RecoveryStep::AskContractOutput,
            Some(true) => self.next_on_chain(coin),
            Some(false) => {
                let confirmations = match self.contract_confirmations {
                    None => {
                        return RecoveryStep::AskContractTx;
                    },
                    Some(confirmations) => match confirmations {
                        Some(n) => n,
                        None => 0,
                    },
                };
                if confirmations > 0 {
                    return RecoveryStep::Discard;
                }
                match self.input_unspent {
                    None => RecoveryStep::AskInput(coin.contract_tx.input[0].previous_output),
                    Some(unspent) => if unspent && coin.protocol == ProtocolVersion::Taproot {
                        RecoveryStep::Discard
                    } else {
                        self.next_off_chain(coin)
                    },
                }
            },
        }
    }
}

/// How the try of a coin ended.
#[derive(Debug, Clone, Copy, PartialEq, Eq, Structural)]
pub enum RecoveryEnd {
    /// The coin stays for a later try.
    Kept,
    /// The coin is given up.
    Discarded,
    /// The contract was spent by the transaction.
    Resolved(Txid),
}

/// The contracts that were given up among the first `n` coins, in order.
pub open spec fn discarded_contracts(
    coins: AssocMap<Txid, OutgoingSwapCoin>,
    keys: Seq<Txid>,
    ends: Seq<RecoveryEnd>,
    n: nat,
) -> Seq<Txid>
    decreases n,
{
    if n == 0 {
        Seq::empty()
    } else {
        let before = discarded_contracts(coins, keys, ends, (n - 1) as nat);
        if ends[n - 1] == RecoveryEnd::Discarded {
            before.push(txid_of(coins.at(keys[n - 1]).contract_tx@))
        } else {
            before
        }
    }
}

/// The contracts that were spent among the first `n` coins, in order, with what spent them.
pub open spec fn resolved_contracts(
    coins: AssocMap<Txid, OutgoingSwapCoin>,
    keys: Seq<Txid>,
    ends: Seq<RecoveryEnd>,
    n: nat,
) -> Seq<(Txid, Txid)>
    decreases n,
{
    if n == 0 {
        Seq::empty()
    } else {
        let before = resolved_contracts(coins, keys, ends, (n - 1) as nat);
        match ends[n - 1] {
            RecoveryEnd::Resolved(txid) => before.push(
                (txid_of(coins.at(keys[n - 1]).contract_tx@), txid),
            ),
            _ => before,
        }
    }
}

/// Whether the try of a coin was among the first `n` and ended otherwise than with the coin kept.
pub open spec fn settled(keys: Seq<Txid>, ends: Seq<RecoveryEnd>, n: nat, key: Txid) -> bool {
    exists|i: int| 0 <= i < n && #[trigger] keys[i] == key && ends[i] != RecoveryEnd::Kept
}

/// Whether a map of coins is another one without the coins that were settled.
pub open spec fn without_settled(
    after: AssocMap<Txid, OutgoingSwapCoin>,
    before: AssocMap<Txid, OutgoingSwapCoin>,
    keys: Seq<Txid>,
    ends: Seq<RecoveryEnd>,
    n: nat,
) -> bool {
    &&& forall|k: Txid|
        #[trigger] after.has(k) == (before.has(k) && !settled(keys, ends, n, k))
    &&& forall|k: Txid| #[trigger] after.has(k) ==> after.at(k) == before.at(k)
}

/// The lock time and the sequence number of a transaction that spends a contract by its timelock.
/// Taproot locks the transaction until a height, which is zero for what is no height; the legacy
/// protocol locks the input for a number of blocks, of which sixteen bits count.
pub open spec fn timelock_fields(protocol: ProtocolVersion, timelock: u32) -> (u32, u32) {
    if protocol == ProtocolVersion::Taproot {
        (
            if timelock < 500_000_000 {
                timelock
            } else {
                0
            },
            0xFFFF_FFFE,
        )
    } else {
        (0, (timelock as u16) as u32)
    }
}

/// Once a coin is tried and its contract is deep enough, the chain accepts the transaction's locks:
/// its lock time is not above the height, and its sequence number does not ask for more
/// confirmations than there are.
pub proof fn law_recovery_is_due(coin: OutgoingView, height: u32, depth: u32)
    requires
        coin.recoverable_at(height),
        depth >= coin.required_confirmations(),
    ensures
        timelock_fields(coin.protocol, coin.timelock->Some_0).0 <= height,
        coin.protocol == ProtocolVersion::Legacy ==> timelock_fields(
            coin.protocol,
            coin.timelock->Some_0,
        ).1 <= depth,
{
    let t = coin.timelock->Some_0;
    assert((t as u16) as u32 <= t) by (bit_vector);
}

/// The value that a recovery pays out: that of the contract output less the fee.
pub fn recovery_amount(coin: &OutgoingSwapCoin, fee: u64) -> (amount: Result<u64, WalletError>)
    ensures
        match amount {
            Ok(a) => {
                &&& coin.timelock is Some
                &&& coin.contract_vout < coin@.contract_tx.output.len()
                &&& a == coin@.contract_tx.output[coin.contract_vout as int].value - fee
            },
            Err(e) => if coin.timelock is None {
                e.is_general("Could not extract timelock from swapcoin"@)
            } else if coin.contract_vout >= coin@.contract_tx.output.len() {
                e.is_general("No output in contract tx"@)
            } else {
                &&& coin@.contract_tx.output[coin.contract_vout as int].value < fee
                &&& e.is_general("Insufficient funds for recovery fee"@)
            },
        },
{
    if coin.get_timelock().is_none() {
        return Err(WalletError::general("Could not extract timelock from swapcoin"));
    }
    let vout = coin.get_contract_output_vout() as usize;
    if vout >= coin.contract_tx.output.len() {
        return Err(WalletError::general("No output in contract tx"));
    }
    let value = coin.contract_tx.output[vout].value;
    if value < fee {
        return Err(WalletError::general("Insufficient funds for recovery fee"));
    }
    Ok(value - fee)
}

impl<B: BlockchainBackend> Wallet<B> {
    /// The sent coins whose recovery is tried at a height, by their contracts.
    pub fn recover_timelocked_swapcoins(&self, current_height: u32) -> (keys: Vec<Txid>)
        requires
            self.well_formed(),
        ensures
            keys@ == recoverable_keys(self.store.outgoing_swapcoins.entries@, current_height),
            keys@.no_duplicates(),
            forall|i: int|
                0 <= i < keys@.len() ==> self.store.outgoing_swapcoins.has(#[trigger] keys@[i]),
    {
        let coins = &self.store.outgoing_swapcoins.entries;
        let mut keys: Vec<Txid> = Vec::new();
        let mut i: usize = 0;
        assert(coins@.take(0) =~= Seq::<(Txid, OutgoingSwapCoin)>::empty());
        while i < coins.len()
            invariant
                coins == self.store.outgoing_swapcoins.entries,
                i <= coins.len(),
                keys@ == recoverable_keys(coins@.take(i as int), current_height),
            decreases coins.len() - i,
        {
            assert(coins@.take(i + 1).drop_last() =~= coins@.take(i as int));
            let coin = &coins[i].1;
            let ready = if coin.my_privkey.is_some() {
                match coin.get_timelock() {
                    Some(timelock) => coin.protocol != ProtocolVersion::Taproot || current_height
                        >= timelock,
                    None => false,
                }
            } else {
                false
            };
            if ready {
                keys.push(coins[i].0);
            }
            i += 1;
        }
        proof {
            let all = coins@;
            assert(all.take(i as int) =~= all);
            assert forall|a: int, b: int| 0 <= a < b < all.len() implies (#[trigger] all[a]).0 != (
            #[trigger] all[b]).0 by {
                assert(self.store.outgoing_swapcoins.entries@[a].0@
                    != self.store.outgoing_swapcoins.entries@[b].0@);
            }
            lemma_recoverable_distinct(all, current_height);
            assert forall|k: int| 0 <= k < keys@.len() implies self.store.outgoing_swapcoins.has(
                #[trigger] keys@[k],
            ) by {
                law_recoverable_keys(all, current_height, keys@[k]);
                assert(recoverable_keys(all, current_height).contains(keys@[k]));
            }
        }
        keys
    }

    /// Ends a recovery: takes the coins that were given up and those whose contracts were spent out of
    /// the wallet, and tells which they are. The wallet is saved if any was.
    pub fn finish_recovery(&mut self, keys: &Vec<Txid>, ends: &Vec<RecoveryEnd>) -> (outcome:
        RecoveryOutcome)
        requires
            old(self).well_formed(),
            keys@.len() == ends@.len(),
            keys@.no_duplicates(),
            forall|i: int|
                0 <= i < keys@.len() ==> old(self).store.outgoing_swapcoins.has(
                    #[trigger] keys@[i],
                ),
        ensures
            final(self).well_formed(),
            final(self).rpc == old(self).rpc,
            final(self).store == (WalletStore {
                outgoing_swapcoins: final(self).store.outgoing_swapcoins,
                ..old(self).store
            }),
            without_settled(
                final(self).store.outgoing_swapcoins,
                old(self).store.outgoing_swapcoins,
                keys@,
                ends@,
                keys@.len(),
            ),
            outcome.discarded@ == discarded_contracts(
                old(self).store.outgoing_swapcoins,
                keys@,
                ends@,
                keys@.len(),
            ),
            outcome.resolved@ == resolved_contracts(
                old(self).store.outgoing_swapcoins,
                keys@,
                ends@,
                keys@.len(),
            ),
    {
        let ghost before = self.store.outgoing_swapcoins;
        let mut outcome = RecoveryOutcome::default();
        let mut i: usize = 0;
        assert(outcome.discarded@ =~= discarded_contracts(before, keys@, ends@, 0));
        assert(outcome.resolved@ =~= resolved_contracts(before, keys@, ends@, 0));
        while i < keys.len()
            invariant
                self.well_formed(),
                self.rpc == old(self).rpc,
                self.store == (WalletStore {
                    outgoing_swapcoins: self.store.outgoing_swapcoins,
                    ..old(self).store
                }),
                before == old(self).store.outgoing_swapcoins,
                keys@.len() == ends@.len(),
                keys@.no_duplicates(),
                forall|k: int| 0 <= k < keys@.len() ==> before.has(#[trigger] keys@[k]),
                i <= keys.len(),
                without_settled(self.store.outgoing_swapcoins, before, keys@, ends@, i as nat),
                outcome.discarded@ == discarded_contracts(before, keys@, ends@, i as nat),
                outcome.resolved@ == resolved_contracts(before, keys@, ends@, i as nat),
            decreases keys.len() - i,
        {
            let ghost so_far = self.store.outgoing_swapcoins;
            let key = keys[i];
            assert(!settled(keys@, ends@, i as nat, key));
            assert(so_far.has(key));
            let contract = match self.store.outgoing_swapcoins.get(&key) {
                Some(coin) => compute_txid(&coin.contract_tx),
                None => {
                    return outcome;
                },
            };
            match ends[i] {
                RecoveryEnd::Kept => {},
                RecoveryEnd::Discarded => {
                    outcome.discarded.push(contract);
                    let removed = self.store.outgoing_swapcoins.remove(&key);
                },
                RecoveryEnd::Resolved(txid) => {
                    outcome.resolved.push((contract, txid));
                    let removed = self.store.outgoing_swapcoins.remove(&key);
                },
            }
            proof {
                let after = self.store.outgoing_swapcoins;
                assert forall|k: Txid| #[trigger] after.has(k) == (before.has(k) && !settled(
                    keys@,
                    ends@,
                    (i + 1) as nat,
                    k,
                )) by {
                    if settled(keys@, ends@, i as nat, k) {
                        let j = choose|j: int|
                            0 <= j < i && #[trigger] keys@[j] == k && ends@[j] != RecoveryEnd::Kept;
                        assert(keys@[j] == k);
                        assert(settled(keys@, ends@, (i + 1) as nat, k));
                    } else if k != key || ends@[i as int] == RecoveryEnd::Kept {
                        assert(!settled(keys@, ends@, (i + 1) as nat, k));
                    } else {
                        assert(keys@[i as int] == k);
                        assert(settled(keys@, ends@, (i + 1) as nat, k));
                    }
                    assert(so_far.has(k) == (before.has(k) && !settled(keys@, ends@, i as nat, k)));
                }
                assert forall|k: Txid| #[trigger] after.has(k) implies after.at(k) == before.at(
                    k,
                ) by {
                    assert(so_far.has(k));
                }
            }
            i += 1;
        }
        outcome
    }

    /// Makes the transaction that spends a contract by its timelock, with no witness yet. It pays the value
    /// of the contract output less the fee to the first of the scripts, which belong to the wallet.
    pub fn create_timelock_recovery_tx(
        &self,
        coin: &OutgoingSwapCoin,
        fee: u64,
        scripts: &Vec<ScriptBuf>,
    ) -> (tx: Result<Transaction, WalletError>)
        ensures
            match tx {
                Ok(t) => {
                    let fields = timelock_fields(coin.protocol, coin.timelock->Some_0);
                    &&& coin.timelock is Some
                    &&& coin.contract_vout < coin@.contract_tx.output.len()
                    &&& coin@.contract_tx.output[coin.contract_vout as int].value >= fee
                    &&& scripts@.len() > 0
                    &&& t.version == 2
                    &&& t.lock_time == fields.0
                    &&& coin.protocol == ProtocolVersion::Taproot && coin.timelock->Some_0
                        < 500_000_000 ==> t.lock_time == coin.timelock->Some_0
                    &&& coin.protocol == ProtocolVersion::Legacy && coin.timelock->Some_0 < 65536
                        ==> t@.input[0].sequence == coin.timelock->Some_0 && t.lock_time == 0
                    &&& t@.input == seq![
                        TxInView {
                            previous_output: OutPoint {
                                txid: txid_of(coin.contract_tx@),
                                vout: coin.contract_vout,
                            },
                            script_sig: Seq::empty(),
                            sequence: fields.1,
                            witness: Seq::empty(),
                        },
                    ]
                    &&& t@.output == seq![
                        TxOutView {
                            value: (coin@.contract_tx.output[coin.contract_vout as int].value
                                - fee) as u64,
                            script_pubkey: scripts@[0]@,
                        },
                    ]
                },
                Err(e) => if coin.timelock is None {
                    e.is_general("Could not extract timelock from swapcoin"@)
                } else if coin.contract_vout >= coin@.contract_tx.output.len() {
                    e.is_general("No output in contract tx"@)
                } else if coin@.contract_tx.output[coin.contract_vout as int].value < fee {
                    e.is_general("Insufficient funds for recovery fee"@)
                } else {
                    scripts@.len() == 0 && e.is_general("Failed to get recovery address"@)
                },
            },
    {
        let amount: u64 = match recovery_amount(coin, fee) {
            Ok(amount) => amount,
            Err(e) => return Err(e),
        };
        if scripts.len() == 0 {
            return Err(WalletError::general("Failed to get recovery address"));
        }
        let timelock: u32 = match coin.get_timelock() {
            Some(timelock) => timelock,
            None => 0,
        };
        let (lock_time, sequence): (u32, u32) = if coin.protocol == ProtocolVersion::Taproot {
            (
                if timelock < 500_000_000 {
                    timelock
                } else {
                    0
                },
                0xFFFF_FFFE,
            )
        } else {
            (0, (timelock as u16) as u32)
        };
        let mut input: Vec<TxIn> = Vec::new();
        input.push(
            TxIn {
                previous_output: OutPoint::new(
                    compute_txid(&coin.contract_tx),
                    coin.get_contract_output_vout(),
                ),
                script_sig: ScriptBuf { bytes: Vec::new() },
                sequence,
                witness: Vec::new(),
            },
        );
        let mut output: Vec<TxOut> = Vec::new();
        output.push(TxOut { value: amount, script_pubkey: scripts[0].clone() });
        let tx = Transaction { version: 2, lock_time, input, output };
        proof {
            law_recovery_satisfies_the_contract(timelock);
            assert(tx.input@[0]@.script_sig =~= Seq::empty());
            assert(tx.input@[0]@.witness =~= Seq::empty());
            assert(tx@.input =~= seq![tx.input@[0]@]);
            assert(tx@.output =~= seq![tx.output@[0]@]);
        }
        Ok(tx)
    }
}

/// The locks of a recovery are those that the contract demands: the input of a legacy coin waits for as
/// many blocks as its timelock says, of which sixteen bits count, and is locked by nothing else; the
/// transaction of a Taproot coin waits for the height that its timelock is.
pub proof fn law_recovery_satisfies_the_contract(timelock: u32)
    ensures
        timelock < 65536 ==> timelock_fields(ProtocolVersion::Legacy, timelock).1 == timelock,
        timelock_fields(ProtocolVersion::Legacy, timelock).1 == timelock % 65536,
        timelock_fields(ProtocolVersion::Legacy, timelock).0 == 0,
        timelock < 500_000_000 ==> timelock_fields(ProtocolVersion::Taproot, timelock).0
            == timelock,
        timelock >= 500_000_000 ==> timelock_fields(ProtocolVersion::Taproot, timelock).0 == 0,
        timelock_fields(ProtocolVersion::Taproot, timelock).1 == 0xFFFF_FFFE,
{
    assert((timelock as u16) as u32 == timelock % 65536) by (bit_vector);
}

/// The sent coins that a recovery tries are those whose private key and timelock the wallet has, a
/// Taproot coin only from the height on that its timelock is.
pub proof fn law_every_due_coin_is_tried(
    entries: Seq<(Txid, OutgoingSwapCoin)>,
    height: u32,
    i: int,
)
    requires
        0 <= i < entries.len(),
        forall|a: int, b: int|
            0 <= a < b < entries.len() ==> (#[trigger] entries[a]).0 != (#[trigger] entries[b]).0,
    ensures
        recoverable_keys(entries, height).contains(entries[i].0) <==> {
            let coin = entries[i].1;
            &&& coin.my_privkey is Some
            &&& coin.timelock is Some
            &&& coin.protocol == ProtocolVersion::Legacy || coin.timelock->Some_0 <= height
        },
        recoverable_keys(entries, height).no_duplicates(),
{
    law_recoverable_keys(entries, height, entries[i].0);
    lemma_recoverable_distinct(entries, height);
}

/// The contract of a coin is spent once its output is confirmed often enough: once for Taproot, as often
/// as the timelock says for the legacy protocol. It is not spent before, and then it is.
pub proof fn law_recovery_spends_when_due(coin: OutgoingView, facts: RecoveryFacts, depth: u32)
    requires
        facts.contract_unspent == Some(true),
    ensures
        facts.depth is None ==> recovery_step(coin, facts) == RecoveryStep::AskDepth,
        facts.depth == Some(None::<u32>) ==> recovery_step(coin, facts) == RecoveryStep::Skip,
        facts.depth == Some(Some(depth)) && coin.timelock is Some ==> {
            let due = if coin.protocol == ProtocolVersion::Taproot {
                depth >= 1
            } else {
                depth >= coin.timelock->Some_0
            };
            &&& !due ==> recovery_step(coin, facts) == RecoveryStep::Skip
            &&& due && facts.spend is None ==> recovery_step(coin, facts) == RecoveryStep::Spend
            &&& due && facts.spend == Some(None::<Txid>) ==> recovery_step(coin, facts)
                == RecoveryStep::Skip
            &&& forall|txid: Txid|
                due && facts.spend == Some(Some(txid)) ==> #[trigger] recovery_step(coin, facts)
                    == RecoveryStep::Resolved(txid)
        },
{
}

/// A coin whose contract output is not there is given up exactly where the contract is confirmed, so that
/// somebody has spent the output; or where a Taproot contract was never broadcast; or where the backend
/// says that the inputs of the contract are missing. Where the contract can be brought on the chain, it is
/// broadcast first.
pub proof fn law_recovery_gives_up_only_what_is_lost(coin: OutgoingView, facts: RecoveryFacts)
    requires
        facts.contract_unspent == Some(false),
    ensures
        facts.contract_confirmations is None ==> recovery_step(coin, facts)
            == RecoveryStep::AskContractTx,
        facts.contract_confirmations matches Some(Some(n)) ==> n > 0 ==> recovery_step(coin, facts)
            == RecoveryStep::Discard,
        (facts.contract_confirmations == Some(None::<u32>) || facts.contract_confirmations == Some(
            Some(0u32),
        )) ==> {
            let step = recovery_step(coin, facts);
            let spent_or_legacy = facts.input_unspent == Some(false) || (facts.input_unspent == Some(
                true,
            ) && coin.protocol == ProtocolVersion::Legacy);
            &&& facts.input_unspent is None ==> step == RecoveryStep::AskInput(
                coin.contract_tx.input[0].previous_output,
            )
            &&& facts.input_unspent == Some(true) && coin.protocol == ProtocolVersion::Taproot
                ==> step == RecoveryStep::Discard
            &&& spent_or_legacy && facts.broadcast is None ==> step
                == RecoveryStep::BroadcastContract
            &&& spent_or_legacy && facts.broadcast == Some(Broadcast::Unsigned) ==> step
                == RecoveryStep::Skip
            &&& spent_or_legacy && facts.broadcast == Some(Broadcast::Accepted) ==> step
                == recovery_step(coin, (RecoveryFacts { contract_unspent: Some(true), ..facts }))
            &&& spent_or_legacy && facts.broadcast is Some && facts.broadcast->Some_0 is Refused ==> {
                let text = facts.broadcast->Some_0->Refused_0@;
                let in_chain = contains_seq(text, "-27"@) || contains_seq(
                    text,
                    "already in utxo set"@,
                );
                let missing = contains_seq(text, "-25"@) || contains_seq(
                    text,
                    "bad-txns-inputs-missingorspent"@,
                );
                &&& in_chain ==> step == recovery_step(
                    coin,
                    (RecoveryFacts { contract_unspent: Some(true), ..facts }),
                )
                &&& !in_chain && missing ==> step == RecoveryStep::Discard
                &&& !in_chain && !missing ==> step == RecoveryStep::Skip
            }
        },
{
}

/// Before anything else, a recovery asks whether the contract output is there.
pub proof fn law_recovery_asks_for_the_contract_first(coin: OutgoingView, facts: RecoveryFacts)
    ensures
        facts.contract_unspent is None <==> recovery_step(coin, facts)
            == RecoveryStep::AskContractOutput,
{
}

/// Each coin that was tried is told as what its try came to, and stays in the wallet only where it was
/// kept: a contract that was spent is told with what spent it, and one that was given up among those.
pub proof fn law_outcome_tells_each_end(
    after: AssocMap<Txid, OutgoingSwapCoin>,
    before: AssocMap<Txid, OutgoingSwapCoin>,
    keys: Seq<Txid>,
    ends: Seq<RecoveryEnd>,
    i: int,
)
    requires
        keys.len() == ends.len(),
        keys.no_duplicates(),
        0 <= i < keys.len(),
        before.has(keys[i]),
        without_settled(after, before, keys, ends, keys.len()),
    ensures
        after.has(keys[i]) <==> ends[i] == RecoveryEnd::Kept,
        ends[i] == RecoveryEnd::Discarded ==> discarded_contracts(before, keys, ends, keys.len()).contains(
            txid_of(before.at(keys[i]).contract_tx@),
        ),
        ends[i] is Resolved ==> resolved_contracts(before, keys, ends, keys.len()).contains(
            (txid_of(before.at(keys[i]).contract_tx@), ends[i]->Resolved_0),
        ),
        forall|k: Txid| before.has(k) && !keys.contains(k) ==> #[trigger] after.has(k),
        forall|k: Txid| #[trigger] after.has(k) ==> before.has(k) && after.at(k) == before.at(k),
{
    if ends[i] != RecoveryEnd::Kept {
        assert(keys[i] == keys[i]);
        assert(settled(keys, ends, keys.len(), keys[i]));
    }
    lemma_ends_told(before, keys, ends, keys.len(), i);
    assert forall|k: Txid| before.has(k) && !keys.contains(k) implies #[trigger] after.has(k) by {
        if settled(keys, ends, keys.len(), k) {
            let j = choose|j: int|
                0 <= j < keys.len() && #[trigger] keys[j] == k && ends[j] != RecoveryEnd::Kept;
            assert(keys.contains(k));
        }
    }
}

proof fn lemma_ends_told(
    coins: AssocMap<Txid, OutgoingSwapCoin>,
    keys: Seq<Txid>,
    ends: Seq<RecoveryEnd>,
    n: nat,
    i: int,
)
    requires
        0 <= i < n <= keys.len(),
        keys.len() == ends.len(),
    ensures
        ends[i] == RecoveryEnd::Discarded ==> discarded_contracts(coins, keys, ends, n).contains(
            txid_of(coins.at(keys[i]).contract_tx@),
        ),
        ends[i] is Resolved ==> resolved_contracts(coins, keys, ends, n).contains(
            (txid_of(coins.at(keys[i]).contract_tx@), ends[i]->Resolved_0),
        ),
    decreases n,
{
    let given_up = discarded_contracts(coins, keys, ends, n);
    let spent = resolved_contracts(coins, keys, ends, n);
    if i == n - 1 {
        if ends[i] == RecoveryEnd::Discarded {
            assert(given_up[given_up.len() - 1] == txid_of(coins.at(keys[i]).contract_tx@));
        }
        if ends[i] is Resolved {
            assert(spent[spent.len() - 1] == (
                txid_of(coins.at(keys[i]).contract_tx@),
                ends[i]->Resolved_0,
            ));
        }
    } else {
        lemma_ends_told(coins, keys, ends, (n - 1) as nat, i);
        let fewer = discarded_contracts(coins, keys, ends, (n - 1) as nat);
        let fewer_spent = resolved_contracts(coins, keys, ends, (n - 1) as nat);
        if ends[i] == RecoveryEnd::Discarded {
            let j = choose|j: int|
                0 <= j < fewer.len() && fewer[j] == txid_of(coins.at(keys[i]).contract_tx@);
            assert(given_up[j] == fewer[j]);
        }
        if ends[i] is Resolved {
            let pair = (txid_of(coins.at(keys[i]).contract_tx@), ends[i]->Resolved_0);
            let j = choose|j: int| 0 <= j < fewer_spent.len() && fewer_spent[j] == pair;
            assert(spent[j] == fewer_spent[j]);
        }
    }
}

/// What a recovery tells is what the tries came to: nothing is told as given up or as spent that was not.
pub proof fn law_outcome_tells_nothing_else(
    coins: AssocMap<Txid, OutgoingSwapCoin>,
    keys: Seq<Txid>,
    ends: Seq<RecoveryEnd>,
    n: nat,
    contract: Txid,
    spend: Txid,
)
    requires
        n <= keys.len(),
        keys.len() == ends.len(),
    ensures
        discarded_contracts(coins, keys, ends, n).contains(contract) ==> exists|i: int|
            0 <= i < n && #[trigger] ends[i] == RecoveryEnd::Discarded && contract == txid_of(
                coins.at(keys[i]).contract_tx@,
            ),
        resolved_contracts(coins, keys, ends, n).contains((contract, spend)) ==> exists|i: int|
            0 <= i < n && #[trigger] ends[i] == RecoveryEnd::Resolved(spend) && contract == txid_of(
                coins.at(keys[i]).contract_tx@,
            ),
    decreases n,
{
    if n > 0 {
        law_outcome_tells_nothing_else(coins, keys, ends, (n - 1) as nat, contract, spend);
        let given_up = discarded_contracts(coins, keys, ends, n);
        let fewer = discarded_contracts(coins, keys, ends, (n - 1) as nat);
        if given_up.contains(contract) {
            let j = choose|j: int| 0 <= j < given_up.len() && given_up[j] == contract;
            if j < fewer.len() {
                assert(fewer[j] == contract);
            } else {
                assert(ends[n - 1] == RecoveryEnd::Discarded);
            }
        }
        let spent = resolved_contracts(coins, keys, ends, n);
        let fewer_spent = resolved_contracts(coins, keys, ends, (n - 1) as nat);
        if spent.contains((contract, spend)) {
            let j = choose|j: int| 0 <= j < spent.len() && spent[j] == (contract, spend);
            if j < fewer_spent.len() {
                assert(fewer_spent[j] == (contract, spend));
            } else {
                assert(ends[n - 1] == RecoveryEnd::Resolved(spend));
            }
        }
    }
}

} // verus!
