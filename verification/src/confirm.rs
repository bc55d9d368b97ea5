//! The wait for transactions to confirm.
use vstd::prelude::*;
use vstd::string::*;
use crate::backend::BlockchainBackend;
use crate::error::WalletError;
use crate::primitives::Txid;
use crate::wallet::Wallet;

verus! {

/// The longest pause between two looks at the chain, in seconds: about one block.
pub const MAX_BACKOFF_SECS: u64 = 600;

/// What each further look adds to the pause before the next one, in seconds.
pub const SLEEP_INCREMENT_SECS: u64 = 10;

/// What the backend tells of a transaction.
#[derive(Debug, Clone, Copy, PartialEq, Eq, Structural)]
pub enum TxStatus {
    /// The backend gave an error.
    Unknown,
    /// The backend knows the transaction, and its confirmations where it gives them.
    Known(Option<u32>),
}

impl TxStatus {
    /// The confirmations, none where the backend does not give them, if the transaction is known.
    pub open spec fn spec_confirmations(self) -> Option<u32> {
        match self {
            TxStatus::Unknown => None,
            TxStatus::Known(Some(n)) => Some(n),
            TxStatus::Known(None) => Some(0),
        }
    }

    /// The confirmations, none where the backend does not give them, if the transaction is known.
    pub fn confirmations(&self) -> (confirmations: Option<u32>)
        ensures
            confirmations == self.spec_confirmations(),
    {
        match *self {
            TxStatus::Unknown => None,
            TxStatus::Known(Some(n)) => Some(n),
            TxStatus::Known(None) => Some(0),
        }
    }

    /// Whether the transaction has at least the given number of confirmations.
    pub open spec fn confirmed(self, required: u32) -> bool {
        self.spec_confirmations() is Some && self.spec_confirmations()->Some_0 >= required
    }
}

/// The height of the block that first confirmed a transaction with the given confirmations.
pub open spec fn confirm_height(current: u32, confirms: u32) -> int {
    (if current >= confirms {
        current - confirms
    } else {
        0
    }) + 1
}

/// The greatest height at which one of the transactions was confirmed.
pub open spec fn latest_height(current: u32, statuses: Seq<TxStatus>) -> int
    decreases statuses.len(),
{
    if statuses.len() == 0 {
        0
    } else {
        let before = latest_height(current, statuses.drop_last());
        let last = confirm_height(current, statuses.last().spec_confirmations()->Some_0);
        if last > before {
            last
        } else {
            before
        }
    }
}

/// Whether every transaction has enough confirmations.
pub open spec fn all_confirmed(statuses: Seq<TxStatus>, required: u32) -> bool {
    forall|i: int| 0 <= i < statuses.len() ==> (#[trigger] statuses[i]).confirmed(required)
}

/// The pause after the given number of looks.
pub open spec fn backoff(attempt: u64) -> int {
    if SLEEP_INCREMENT_SECS * attempt <= MAX_BACKOFF_SECS {
        SLEEP_INCREMENT_SECS * attempt
    } else {
        MAX_BACKOFF_SECS as int
    }
}

/// The pauses grow with each look, and never exceed the cap.
pub proof fn law_backoff_grows_to_cap(a: u64, b: u64)
    requires
        a <= b,
    ensures
        backoff(a) <= backoff(b) <= MAX_BACKOFF_SECS,
        1 <= a ==> SLEEP_INCREMENT_SECS <= backoff(a),
{
}

/// Where the chain is at least as high as a transaction has confirmations, a transaction with one
/// confirmation stands in the block at the tip, and each further confirmation is a block below.
pub proof fn law_confirm_height_counts_back(current: u32, confirms: u32)
    requires
        1 <= confirms <= current,
    ensures
        confirm_height(current, confirms) == current - confirms + 1,
        1 <= confirm_height(current, confirms) <= current,
{
}

/// The height that a wait ends with is that of one of the transactions, and none was confirmed
/// above it.
pub proof fn law_latest_height_is_greatest(current: u32, statuses: Seq<TxStatus>, i: int)
    requires
        0 <= i < statuses.len(),
    ensures
        confirm_height(current, statuses[i].spec_confirmations()->Some_0) <= latest_height(
            current,
            statuses,
        ),
        exists|j: int|
            0 <= j < statuses.len() && confirm_height(
                current,
                (#[trigger] statuses[j]).spec_confirmations()->Some_0,
            ) == latest_height(current, statuses),
    decreases statuses.len(),
{
    let rest = statuses.drop_last();
    let n = statuses.len() - 1;
    let last = confirm_height(current, statuses.last().spec_confirmations()->Some_0);
    assert(statuses[n] == statuses.last());
    if n > 0 {
        let k = if i < n {
            i
        } else {
            0
        };
        law_latest_height_is_greatest(current, rest, k);
        assert(rest[k] == statuses[k]);
        if last <= latest_height(current, rest) {
            let j = choose|j: int|
                0 <= j < rest.len() && confirm_height(
                    current,
                    (#[trigger] rest[j]).spec_confirmations()->Some_0,
                ) == latest_height(current, rest);
            assert(statuses[j] == rest[j]);
        }
    } else {
        assert(latest_height(current, rest) == 0);
    }
}

/// Looks at what the backend tells of the transactions: once all have enough confirmations, gives
/// the greatest height at which one was confirmed.
pub fn confirmed_height(current: u32, statuses: &Vec<TxStatus>, required: u32) -> (height: Option<
    u32,
>)
    requires
        required >= 1,
    ensures
        match height {
            Some(h) => all_confirmed(statuses@, required) && h == latest_height(
                current,
                statuses@,
            ),
            None => !all_confirmed(statuses@, required),
        },
{
    let mut greatest: u32 = 0;
    let mut i: usize = 0;
    assert(statuses@.take(0) =~= Seq::<TxStatus>::empty());
    while i < statuses.len()
        invariant
            required >= 1,
            i <= statuses.len(),
            all_confirmed(statuses@.take(i as int), required),
            greatest == latest_height(current, statuses@.take(i as int)),
        decreases statuses.len() - i,
    {
        let confirms = match statuses[i].confirmations() {
            Some(confirms) => confirms,
            None => {
                assert(!statuses@[i as int].confirmed(required));
                return None;
            },
        };
        if confirms < required {
            assert(!statuses@[i as int].confirmed(required));
            return None;
        }
        let below: u32 = if current >= confirms {
            current - confirms
        } else {
            0
        };
        let height = below + 1;
        proof {
            assert(statuses@.take(i + 1).drop_last() =~= statuses@.take(i as int));
            assert(statuses@.take(i + 1).last() == statuses@[i as int]);
            assert forall|j: int| 0 <= j < i + 1 implies (#[trigger] statuses@.take(
                i + 1,
            )[j]).confirmed(required) by {
                if j < i {
                    assert(statuses@.take(i as int)[j].confirmed(required));
                }
            }
        }
        if height > greatest {
            greatest = height;
        }
        i += 1;
    }
    assert(statuses@.take(i as int) =~= statuses@);
    Some(greatest)
}

/// A wait for transactions to confirm.
#[derive(Debug)]
pub struct ConfirmationWait {
    /// The confirmations that each transaction needs.
    pub required: u32,
    /// How often the chain was looked at.
    pub attempt: u64,
    /// The seconds to pause before the next look.
    pub pause: u64,
}

/// What a wait does next.
#[derive(Debug)]
pub enum WaitStep {
    /// Ask the backend for the height and for each transaction.
    Look,
    /// Sleep for one second.
    Sleep,
    /// Give up with the error.
    GiveUp(WalletError),
}

impl WaitStep {
    /// Whether the wait is given up with the message.
    pub open spec fn gives_up(self, message: Seq<char>) -> bool {
        self matches WaitStep::GiveUp(WalletError::Interrupted(m)) && m@ == message
    }
}

impl ConfirmationWait {
    /// Whether the wait asks for something.
    pub open spec fn well_formed(&self) -> bool {
        self.required >= 1
    }

    /// Decides what the wait does next. A request to shut down goes before a request to abort, and
    /// both go before anything else; then the pause is slept through, one second at a time.
    pub fn next(&mut self, shutdown: bool, abort: bool) -> (step: WaitStep)
        requires
            old(self).well_formed(),
        ensures
            final(self).well_formed(),
            final(self).required == old(self).required,
            shutdown ==> step.gives_up("Shutdown requested"@) && *final(self) == *old(self),
            !shutdown && abort ==> step.gives_up("Abort requested"@) && *final(self) == *old(self),
            !shutdown && !abort && old(self).pause > 0 ==> step is Sleep && final(self).pause
                == old(self).pause - 1 && final(self).attempt == old(self).attempt,
            !shutdown && !abort && old(self).pause == 0 ==> step is Look && final(self).pause == 0
                && final(self).attempt == (if old(self).attempt < u64::MAX {
                old(self).attempt + 1
            } else {
                u64::MAX as int
            }),
    {
        if shutdown {
            return WaitStep::GiveUp(WalletError::Interrupted("Shutdown requested".to_owned()));
        }
        if abort {
            return WaitStep::GiveUp(WalletError::Interrupted("Abort requested".to_owned()));
        }
        if self.pause > 0 {
            self.pause = self.pause - 1;
            return WaitStep::Sleep;
        }
        if self.attempt < u64::MAX {
            self.attempt = self.attempt + 1;
        }
        WaitStep::Look
    }

    /// Takes what the backend told. The wait ends with the greatest height at which a transaction
    /// was confirmed; where one is missing, it pauses.
    pub fn look(&mut self, current: u32, statuses: &Vec<TxStatus>) -> (height: Option<u32>)
        requires
            old(self).well_formed(),
        ensures
            final(self).well_formed(),
            final(self).required == old(self).required,
            final(self).attempt == old(self).attempt,
            match height {
                Some(h) => all_confirmed(statuses@, old(self).required) && h == latest_height(
                    current,
                    statuses@,
                ) && final(self).pause == old(self).pause,
                None => !all_confirmed(statuses@, old(self).required) && final(self).pause
                    == backoff(old(self).attempt),
            },
    {
        let height = confirmed_height(current, statuses, self.required);
        if height.is_none() {
            self.pause = if self.attempt <= MAX_BACKOFF_SECS / SLEEP_INCREMENT_SECS {
                SLEEP_INCREMENT_SECS * self.attempt
            } else {
                MAX_BACKOFF_SECS
            };
        }
        height
    }
}

impl<B: BlockchainBackend> Wallet<B> {
    /// Begins a wait for transactions to confirm, or none where there is nothing to wait for: the
    /// height is then zero.
    pub fn wait_for_tx_confirmation(&self, txids: &Vec<Txid>, required_confirms: u32) -> (wait:
        Option<ConfirmationWait>)
        ensures
            match wait {
                Some(w) => {
                    &&& required_confirms > 0
                    &&& txids@.len() > 0
                    &&& w == (ConfirmationWait {
                        required: required_confirms,
                        attempt: 0,
                        pause: 0,
                    })
                },
                None => required_confirms == 0 || txids@.len() == 0,
            },
    {
        if required_confirms == 0 || txids.len() == 0 {
            None
        } else {
            Some(ConfirmationWait { required: required_confirms, attempt: 0, pause: 0 })
        }
    }
}

/// The pause after a look is ten seconds for each look so far, and ten minutes at most.
pub proof fn law_pause_is_ten_seconds_a_look(attempt: u64)
    ensures
        attempt <= 60 ==> backoff(attempt) == 10 * attempt,
        attempt >= 60 ==> backoff(attempt) == 600,
{
}

/// A wait ends once each transaction has the confirmations that are asked for, and no sooner: one that the
/// backend does not know, or knows without confirmations, is waited for.
pub proof fn law_wait_ends_with_all_confirmed(statuses: Seq<TxStatus>, required: u32)
    requires
        required > 0,
    ensures
        all_confirmed(statuses, required) <==> forall|i: int|
            0 <= i < statuses.len() ==> ((#[trigger] statuses[i]) matches TxStatus::Known(Some(n))
                && n >= required),
{
    if all_confirmed(statuses, required) {
        assert forall|i: int| 0 <= i < statuses.len() implies ((#[trigger] statuses[i])
            matches TxStatus::Known(Some(n)) && n >= required) by {
            assert(statuses[i].confirmed(required));
        }
    }
}

/// The height that a wait ends with is that of the block of the transaction with the fewest confirmations.
pub proof fn law_wait_gives_the_last_block(
    current: u32,
    statuses: Seq<TxStatus>,
    least: u32,
    i: int,
)
    requires
        0 <= i < statuses.len(),
        statuses[i] == TxStatus::Known(Some(least)),
        1 <= least <= current,
        forall|j: int|
            0 <= j < statuses.len() ==> ((#[trigger] statuses[j]) matches TxStatus::Known(Some(n))
                && n >= least),
    ensures
        latest_height(current, statuses) == current - least + 1,
{
    law_latest_height_is_greatest(current, statuses, i);
    let j = choose|j: int|
        0 <= j < statuses.len() && confirm_height(
            current,
            (#[trigger] statuses[j]).spec_confirmations()->Some_0,
        ) == latest_height(current, statuses);
    assert(statuses[j] matches TxStatus::Known(Some(n)) && n >= least);
}

} // verus!
