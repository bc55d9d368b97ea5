//! Choosing the coins that pay a given amount.
use vstd::prelude::*;
use crate::bytes::views;
use crate::error::WalletError;
use crate::grouping::{
    amount_of, arrange, arranged, checked_total, coins_total, group_views, is_group, joined,
    lemma_groups_tally, lemma_joined_concat, lemma_joined_push, lemma_tally_concat,
    lemma_tally_push, lemma_tally_split, lemma_total_concat, lemma_total_is_tally, tally,
};
use crate::primitives::{contains_outpoint, OutPoint};
use crate::spend_info::{copy_coin, total_amount, Coin, CoinView};
use rust_coinselect::types::{CoinSelectionOpt, ExcessStrategy as Excess, OutputGroup as Group};

verus! {

/// The weight of a P2TR input: its 41 plain bytes, a 65-byte witness and two units to spare.
pub const P2TR_INPUT_WEIGHT: u64 = 231;

/// The weight of a transaction without inputs and outputs.
pub const TX_BASE_WEIGHT: u64 = 43;

/// The weight of an input without its witness.
pub const INPUT_BASE_WEIGHT: u64 = 164;

/// The weight of the output that pays the target.
pub const TARGET_OUTPUT_WEIGHT: u64 = 172;

/// The weight of the output that takes the change.
pub const CHANGE_OUTPUT_WEIGHT: u64 = 172;

/// The smallest change output that is no dust.
pub const MIN_CHANGE_VALUE: u64 = 294;

/// The largest number of target and change outputs that a payment is split into.
pub const MAX_SPLITS: u64 = 5;

/// The settings of `rust_coinselect`, which carry the fee rates that its algorithms weigh
/// inputs with.
#[verifier::external_type_specification]
#[verifier::external_body]
pub struct ExCoinSelectionOpt(rust_coinselect::types::CoinSelectionOpt);

/// What the fee rate of a payment comes to.
pub struct FeeQuote {
    /// The fee of a transaction of [`estimated_tx_vbytes`], in satoshis.
    pub estimated_fee: u64,
    /// The fee for making a change output and spending it later, in satoshis.
    pub cost_of_change: u64,
    /// The least fee rate, in satoshis per virtual byte.
    pub min_fee_rate: u64,
    /// The rates that the selection algorithms weigh inputs with.
    pub rates: CoinSelectionOpt,
}

/// The estimated weight of a payment with the given number of inputs and two outputs.
pub open spec fn spec_estimated_tx_weight(inputs: nat) -> nat {
    inputs * P2TR_INPUT_WEIGHT as nat + TX_BASE_WEIGHT as nat + CHANGE_OUTPUT_WEIGHT as nat
        + TARGET_OUTPUT_WEIGHT as nat
}

/// The number of inputs that a payment is estimated with before its coins are known: those that are
/// named by hand, or else two.
pub open spec fn estimated_inputs(manual: Option<Vec<OutPoint>>) -> nat {
    match manual {
        Some(outpoints) => outpoints@.len(),
        None => 2,
    }
}

/// The estimated virtual size of a payment before its coins are known: a quarter of its
/// estimated weight, rounded up.
pub fn estimated_tx_vbytes(manually_selected_outpoints: &Option<Vec<OutPoint>>) -> (vbytes: u64)
    requires
        spec_estimated_tx_weight(estimated_inputs(*manually_selected_outpoints)) + 3 <= u64::MAX,
    ensures
        vbytes == (spec_estimated_tx_weight(estimated_inputs(*manually_selected_outpoints)) + 3)
            / 4,
{
    let inputs: u64 = match manually_selected_outpoints {
        Some(outpoints) => outpoints.len() as u64,
        None => 2,
    };
    let weight = inputs * P2TR_INPUT_WEIGHT + TX_BASE_WEIGHT + CHANGE_OUTPUT_WEIGHT
        + TARGET_OUTPUT_WEIGHT;
    (weight + 3) / 4
}

/// The weight of the input that spends a coin.
pub open spec fn input_weight(c: CoinView) -> nat {
    (INPUT_BASE_WEIGHT + c.1.witness_size()) as nat
}

/// The weight of a coin's input, as a measure.
pub open spec fn weight_of() -> spec_fn(CoinView) -> nat {
    |c: CoinView| input_weight(c)
}

/// The weight of the inputs that spend a list of coins.
pub open spec fn total_weight(coins: Seq<CoinView>) -> nat {
    tally(coins, weight_of())
}

proof fn lemma_weight_bounds(coins: Seq<CoinView>)
    ensures
        total_weight(coins) <= 382 * coins.len(),
    decreases coins.len(),
{
    if coins.len() > 0 {
        lemma_weight_bounds(coins.drop_last());
    }
}

fn coins_weight(coins: &Vec<Coin>) -> (weight: u64)
    requires
        total_weight(views(coins@)) <= u64::MAX,
    ensures
        weight == total_weight(views(coins@)),
{
    let ghost all = views(coins@);
    let mut weight: u64 = 0;
    let mut i: usize = 0;
    while i < coins.len()
        invariant
            all == views(coins@),
            i <= coins.len(),
            total_weight(all) <= u64::MAX,
            weight == total_weight(all.take(i as int)),
        decreases coins.len() - i,
    {
        proof {
            assert(all.take(i + 1) =~= all.take(i as int).push(all[i as int]));
            lemma_tally_push(all.take(i as int), all[i as int], weight_of());
            lemma_tally_concat(all.take(i + 1), all.skip(i + 1), weight_of());
            assert(all.take(i + 1) + all.skip(i + 1) =~= all);
        }
        weight = weight + (INPUT_BASE_WEIGHT + coins[i].1.estimate_witness_size() as u64);
        i += 1;
    }
    assert(all.take(i as int) =~= all);
    weight
}

/// The outpoints that were named by hand.
pub open spec fn named(manual: Option<Vec<OutPoint>>) -> Seq<OutPoint> {
    match manual {
        Some(outpoints) => outpoints@,
        None => Seq::empty(),
    }
}

/// The coins of a class that were named by hand.
pub open spec fn by_hand(coins: Seq<CoinView>, manual: Seq<OutPoint>) -> Seq<CoinView> {
    coins.filter(|c: CoinView| manual.contains(c.0.outpoint()))
}

/// The coins of a class that were not named by hand.
pub open spec fn left_over(coins: Seq<CoinView>, manual: Seq<OutPoint>) -> Seq<CoinView> {
    coins.filter(|c: CoinView| !manual.contains(c.0.outpoint()))
}

fn split_by_hand(coins: &Vec<Coin>, manual: &Option<Vec<OutPoint>>) -> (parts: (
    Vec<Coin>,
    Vec<Coin>,
))
    ensures
        views(parts.0@) == by_hand(views(coins@), named(*manual)),
        views(parts.1@) == left_over(views(coins@), named(*manual)),
{
    let ghost all = views(coins@);
    let ghost outpoints = named(*manual);
    let ghost pred = |c: CoinView| outpoints.contains(c.0.outpoint());
    let ghost other = |c: CoinView| !outpoints.contains(c.0.outpoint());
    let mut hand: Vec<Coin> = Vec::new();
    let mut rest: Vec<Coin> = Vec::new();
    let mut i: usize = 0;
    proof {
        reveal(Seq::filter);
        assert(views(hand@) =~= all.take(0).filter(pred));
        assert(views(rest@) =~= all.take(0).filter(other));
    }
    while i < coins.len()
        invariant
            all == views(coins@),
            outpoints == named(*manual),
            pred == (|c: CoinView| outpoints.contains(c.0.outpoint())),
            other == (|c: CoinView| !outpoints.contains(c.0.outpoint())),
            i <= coins.len(),
            views(hand@) == all.take(i as int).filter(pred),
            views(rest@) == all.take(i as int).filter(other),
        decreases coins.len() - i,
    {
        let is_named = match manual {
            Some(list) => contains_outpoint(list, &coins[i].0.outpoint()),
            None => false,
        };
        let ghost before_hand = views(hand@);
        let ghost before_rest = views(rest@);
        proof {
            assert(all.take(i + 1) =~= all.take(i as int).push(all[i as int]));
            all.take(i as int).lemma_filter_push(all[i as int], pred);
            all.take(i as int).lemma_filter_push(all[i as int], other);
        }
        if is_named {
            hand.push(copy_coin(&coins[i]));
            assert(views(hand@) =~= before_hand.push(all[i as int]));
        } else {
            rest.push(copy_coin(&coins[i]));
            assert(views(rest@) =~= before_rest.push(all[i as int]));
        }
        i += 1;
    }
    assert(all.take(i as int) =~= all);
    (hand, rest)
}

/// The groups that are spent whole, in this order: the coins named by hand, then the addresses
/// that hold several coins.
pub open spec fn whole_groups(
    hand: Seq<CoinView>,
    reused: Seq<Seq<CoinView>>,
) -> Seq<Seq<CoinView>> {
    if hand.len() == 0 {
        reused
    } else {
        seq![hand] + reused
    }
}

/// Whether the first `n` groups cover `need` and no fewer do.
pub open spec fn covers_first(groups: Seq<Seq<CoinView>>, n: int, need: nat) -> bool {
    &&& 0 < n <= groups.len()
    &&& total_amount(joined(groups.take(n))) >= need
    &&& forall|m: int| 0 < m < n ==> total_amount(joined(#[trigger] groups.take(m))) < need
}

/// Whether no number of leading groups covers `need`.
pub open spec fn covers_never(groups: Seq<Seq<CoinView>>, need: nat) -> bool {
    forall|m: int| 0 < m <= groups.len() ==> total_amount(joined(#[trigger] groups.take(m))) < need
}

/// The sum of the values at the given positions.
pub open spec fn value_at(values: Seq<nat>, picks: Seq<usize>) -> nat
    decreases picks.len(),
{
    if picks.len() == 0 {
        0
    } else {
        value_at(values, picks.drop_last()) + values[picks.last() as int]
    }
}

/// Whether `picks` names different positions whose values reach `goal`.
pub open spec fn picks_reach(picks: Seq<usize>, values: Seq<nat>, goal: nat) -> bool {
    &&& picks.no_duplicates()
    &&& forall|i: int| 0 <= i < picks.len() ==> (#[trigger] picks[i]) < values.len()
    &&& value_at(values, picks) >= goal
}

/// The total values of a list of groups.
pub open spec fn group_totals(groups: Seq<Seq<CoinView>>) -> Seq<nat> {
    Seq::new(groups.len(), |h: int| total_amount(groups[h]))
}

/// The groups at the given positions, one behind the other.
pub open spec fn picked(groups: Seq<Seq<CoinView>>, picks: Seq<usize>) -> Seq<CoinView> {
    joined(Seq::new(picks.len(), |i: int| groups[picks[i] as int]))
}

/// The weight of a payment apart from the inputs that are still to be picked.
pub open spec fn base_weight(taken: Seq<CoinView>) -> nat {
    TX_BASE_WEIGHT as nat + total_weight(taken) + MAX_SPLITS as nat * (TARGET_OUTPUT_WEIGHT
        + CHANGE_OUTPUT_WEIGHT) as nat
}

/// The least fee of a payment of the given weight.
pub open spec fn min_absolute_fee(weight: nat, min_fee_rate: nat) -> nat {
    min_fee_rate * ((weight + 3) / 4)
}

/// What the picked coins must be worth: what the coins already taken leave open, a change
/// output that is no dust, and the least fee.
pub open spec fn pick_goal(taken: Seq<CoinView>, need: nat, quote: FeeQuote) -> nat {
    let open = if need > total_amount(taken) {
        (need - total_amount(taken)) as nat
    } else {
        0
    };
    open + MIN_CHANGE_VALUE as nat + min_absolute_fee(
        base_weight(taken),
        quote.min_fee_rate as nat,
    )
}

/// What a selection from one class of coins can come to. The coins named by hand and the
/// addresses with several coins are taken whole, in order, until they cover `need`. Where they
/// do not, they are all taken, and addresses with one coin are picked to reach
/// [`pick_goal`]; if none are found, the class yields nothing. They are found where
/// [`picks_are_owed`].
pub open spec fn class_outcome(
    chosen: Option<Seq<CoinView>>,
    coins: Seq<CoinView>,
    manual: Seq<OutPoint>,
    need: nat,
    quote: FeeQuote,
) -> bool {
    exists|reused: Seq<Seq<CoinView>>, single: Seq<Seq<CoinView>>|
        {
            &&& #[trigger] arranged(reused, single, left_over(coins, manual))
            &&& outcome_from(
                chosen,
                whole_groups(by_hand(coins, manual), reused),
                single,
                need,
                quote,
            )
        }
}

/// What a selection comes to once the groups are in order.
pub open spec fn outcome_from(
    chosen: Option<Seq<CoinView>>,
    groups: Seq<Seq<CoinView>>,
    single: Seq<Seq<CoinView>>,
    need: nat,
    quote: FeeQuote,
) -> bool {
    match chosen {
        Some(coins) => {
            ||| exists|n: int| #[trigger]
                covers_first(groups, n, need) && coins == joined(groups.take(n))
            ||| covers_never(groups, need) && exists|picks: Seq<usize>| #[trigger]
                picks_reach(picks, group_totals(single), pick_goal(joined(groups), need, quote))
                    && coins == joined(groups) + picked(single, picks)
        },
        None => covers_never(groups, need) && !picks_are_owed(joined(groups), single, need, quote),
    }
}

/// Whether a selection among the addresses with one coin must succeed: something is left open, and the
/// coins are worth it, with a change output, the least fee and a fee of 2000 satoshis per unit of weight
/// on top. No fee rate that is accepted asks for as much.
pub open spec fn picks_are_owed(
    taken: Seq<CoinView>,
    single: Seq<Seq<CoinView>>,
    need: nat,
    quote: FeeQuote,
) -> bool {
    &&& need > total_amount(taken)
    &&& total_amount(joined(single)) >= pick_goal(taken, need, quote) + 2000 * (base_weight(taken)
        + total_weight(joined(single)))
}

/// Whether every amount that a selection computes with fits in 64 bits.
pub open spec fn class_fits(coins: Seq<CoinView>, need: nat, quote: FeeQuote) -> bool {
    &&& total_amount(coins) <= u64::MAX
    &&& need + MIN_CHANGE_VALUE + (2 * quote.min_fee_rate + 2000) * (597 + total_weight(coins)
        + 344 * MAX_SPLITS) <= u64::MAX
}

/// An address as the selection algorithms see it.
pub struct OutputGroup {
    /// The value of its coins.
    pub value: u64,
    /// The weight of the inputs that spend them.
    pub weight: u64,
    /// The number of its coins.
    pub input_count: usize,
    /// When it came to the wallet, where that is known.
    pub creation_sequence: Option<u32>,
}

/// What becomes of the excess of a selection.
#[derive(Debug, Clone, Copy, PartialEq, Eq, Structural)]
pub enum ExcessStrategy {
    /// It raises the fee.
    ToFee,
    /// The recipient gets it.
    ToRecipient,
    /// It becomes change.
    ToChange,
}

/// The whole-number settings of a selection.
pub struct SelectionOptions {
    /// What is to be paid.
    pub target_value: u64,
    /// The least fee.
    pub min_absolute_fee: u64,
    /// The weight of the transaction without the inputs that are picked.
    pub base_weight: u64,
    /// The weight of the change output.
    pub change_weight: u64,
    /// The cost of making and spending the change output.
    pub change_cost: u64,
    /// The average weight of an input.
    pub avg_input_weight: u64,
    /// The average weight of an output.
    pub avg_output_weight: u64,
    /// The smallest change output.
    pub min_change_value: u64,
    /// What becomes of the excess.
    pub excess_strategy: ExcessStrategy,
}

/// The values of a list of output groups.
pub open spec fn output_values(groups: Seq<OutputGroup>) -> Seq<nat> {
    Seq::new(groups.len(), |h: int| groups[h].value as nat)
}

/// The sum of the first `n` values and of the first `n` weights of a list of output groups.
pub open spec fn output_sums(groups: Seq<OutputGroup>, n: nat) -> (nat, nat)
    decreases n,
{
    if n == 0 {
        (0, 0)
    } else {
        let before = output_sums(groups, (n - 1) as nat);
        (before.0 + groups[n - 1].value as nat, before.1 + groups[n - 1].weight as nat)
    }
}

/// Calls `rust_coinselect::selectcoin::select_coin`, which runs several algorithms, one of them
/// randomised, and gives the selection with the least change. Claimed of every outcome: the
/// selected positions are different, lie within the list, and their values reach the target
/// with the smallest change output and the least fee on top; a target of zero is refused; and a
/// selection comes where all values together reach the target with a fee of 2000 satoshis per unit
/// of weight besides. A fee rate that it accepts is at most 1000 satoshis per unit of weight, and
/// its first-in-first-out algorithm takes the fee of a rate that it refuses for zero. Which
/// selection comes, and on which other inputs none is found, is left open. Its sums must not
/// overflow.
#[verifier::external_body]
fn run_select_coin(
    groups: &Vec<OutputGroup>,
    options: &SelectionOptions,
    rates: &CoinSelectionOpt,
) -> (picks: Option<Vec<usize>>)
    requires
        output_sums(groups@, groups@.len()).0 <= u64::MAX,
        options.target_value + options.min_change_value + 2 * options.min_absolute_fee + 2000 * (
        options.base_weight + options.avg_input_weight + options.avg_output_weight + output_sums(
            groups@,
            groups@.len(),
        ).1) <= u64::MAX,
    ensures
        picks matches Some(p) ==> picks_reach(
            p@,
            output_values(groups@),
            (options.target_value + options.min_change_value + options.min_absolute_fee) as nat,
        ),
        options.target_value == 0 ==> picks is None,
        options.target_value > 0 && output_sums(groups@, groups@.len()).0 >= options.target_value
            + options.min_change_value + options.min_absolute_fee + 2000 * (options.base_weight
            + output_sums(groups@, groups@.len()).1) ==> picks is Some,
{
    let inputs: Vec<Group> = groups.iter().map(|g| Group {
        value: g.value, weight: g.weight, input_count: g.input_count, creation_sequence: g.creation_sequence,
    }).collect();
    let excess_strategy = match options.excess_strategy {
        ExcessStrategy::ToFee => Excess::ToFee,
        ExcessStrategy::ToRecipient => Excess::ToRecipient,
        ExcessStrategy::ToChange => Excess::ToChange,
    };
    let SelectionOptions { target_value, min_absolute_fee, base_weight, change_weight,
        change_cost, avg_input_weight, avg_output_weight, min_change_value, .. } = *options;
    let settings = CoinSelectionOpt { target_value, min_absolute_fee, base_weight, change_weight,
        change_cost, avg_input_weight, avg_output_weight, min_change_value, excess_strategy, ..rates.clone() };
    rust_coinselect::selectcoin::select_coin(&inputs, &settings).ok().map(|s| s.selected_inputs)
}

fn append_coins(target: &mut Vec<Coin>, group: &Vec<Coin>)
    ensures
        views(final(target)@) == views(old(target)@) + views(group@),
{
    let ghost before = views(target@);
    let ghost added = views(group@);
    let mut i: usize = 0;
    assert(views(target@) =~= before + added.take(0));
    while i < group.len()
        invariant
            added == views(group@),
            i <= group.len(),
            views(target@) == before + added.take(i as int),
        decreases group.len() - i,
    {
        let ghost now = views(target@);
        target.push(copy_coin(&group[i]));
        proof {
            assert(views(target@) =~= now.push(added[i as int]));
            assert(added.take(i + 1) =~= added.take(i as int).push(added[i as int]));
            assert(views(target@) =~= before + added.take(i + 1));
        }
        i += 1;
    }
    assert(added.take(i as int) =~= added);
}

/// Puts the coins of the picked addresses behind the coins that were taken already.
pub fn complete_selection(
    taken: Vec<Coin>,
    single: &Vec<Vec<Coin>>,
    picks: &Vec<usize>,
) -> (selection: Vec<Coin>)
    requires
        forall|i: int| 0 <= i < picks.len() ==> (#[trigger] picks@[i]) < single.len(),
    ensures
        views(selection@) == views(taken@) + picked(group_views(single@), picks@),
{
    let mut selection = taken;
    let ghost before = views(selection@);
    let ghost all = group_views(single@);
    let ghost chosen = Seq::new(picks@.len(), |i: int| all[picks@[i] as int]);
    let mut i: usize = 0;
    assert(views(selection@) =~= before + joined(chosen.take(0)));
    while i < picks.len()
        invariant
            all == group_views(single@),
            chosen == Seq::new(picks@.len(), |i: int| all[picks@[i] as int]),
            i <= picks.len(),
            forall|i: int| 0 <= i < picks.len() ==> (#[trigger] picks@[i]) < single.len(),
            views(selection@) == before + joined(chosen.take(i as int)),
        decreases picks.len() - i,
    {
        append_coins(&mut selection, &single[picks[i]]);
        proof {
            assert(chosen.take(i + 1) =~= chosen.take(i as int).push(chosen[i as int]));
            lemma_joined_push(chosen.take(i as int), chosen[i as int]);
            assert(chosen[i as int] == views(single@[picks@[i as int] as int]@));
            assert(views(selection@) =~= before + joined(chosen.take(i + 1)));
        }
        i += 1;
    }
    assert(chosen.take(i as int) =~= chosen);
    selection
}

/// Finishes a selection by what the search among the addresses with one coin has answered: with the
/// coins of the picked addresses behind those that were taken already, or not at all.
pub fn selection_from_answer(
    taken: Vec<Coin>,
    single: &Vec<Vec<Coin>>,
    answer: &Option<Vec<usize>>,
) -> (selection: Option<Vec<Coin>>)
    requires
        answer matches Some(picks) ==> forall|i: int|
            0 <= i < picks@.len() ==> (#[trigger] picks@[i]) < single@.len(),
    ensures
        match *answer {
            Some(picks) => selection matches Some(s) && views(s@) == views(taken@) + picked(
                group_views(single@),
                picks@,
            ),
            None => selection is None,
        },
{
    match answer {
        Some(picks) => Some(complete_selection(taken, single, picks)),
        None => None,
    }
}

proof fn lemma_joined_take(groups: Seq<Seq<CoinView>>, n: int, f: spec_fn(CoinView) -> nat)
    requires
        0 <= n <= groups.len(),
    ensures
        tally(joined(groups.take(n)), f) <= tally(joined(groups), f),
{
    lemma_joined_concat(groups.take(n), groups.skip(n));
    assert(groups.take(n) + groups.skip(n) =~= groups);
    lemma_tally_concat(joined(groups.take(n)), joined(groups.skip(n)), f);
}

/// Takes whole groups, in order, until they cover `need`. Gives whether they do, and the coins
/// taken.
fn take_whole(groups: &Vec<Vec<Coin>>, need: u64) -> (taken: (bool, Vec<Coin>))
    requires
        total_amount(joined(group_views(groups@))) <= u64::MAX,
    ensures
        taken.0 ==> exists|n: int| #[trigger]
            covers_first(group_views(groups@), n, need as nat) && views(taken.1@) == joined(
                group_views(groups@).take(n),
            ),
        !taken.0 ==> covers_never(group_views(groups@), need as nat) && views(taken.1@) == joined(
            group_views(groups@),
        ),
{
    let ghost all = group_views(groups@);
    let mut coins: Vec<Coin> = Vec::new();
    let mut total: u64 = 0;
    let mut h: usize = 0;
    assert(views(coins@) =~= joined(all.take(0)));
    while h < groups.len()
        invariant
            all == group_views(groups@),
            h <= groups.len(),
            total_amount(joined(all)) <= u64::MAX,
            views(coins@) == joined(all.take(h as int)),
            total == total_amount(joined(all.take(h as int))),
            forall|m: int|
                0 < m <= h ==> total_amount(joined(#[trigger] all.take(m))) < need,
        decreases groups.len() - h,
    {
        proof {
            assert(all.take(h + 1) =~= all.take(h as int).push(all[h as int]));
            lemma_joined_push(all.take(h as int), all[h as int]);
            assert(all[h as int] == views(groups@[h as int]@));
            lemma_total_concat(joined(all.take(h as int)), all[h as int]);
            lemma_joined_take(all, h + 1, amount_of());
            lemma_total_is_tally(joined(all));
            lemma_total_is_tally(joined(all.take(h + 1)));
        }
        total = total + coins_total(&groups[h]);
        append_coins(&mut coins, &groups[h]);
        h += 1;
        if total >= need {
            assert(covers_first(all, h as int, need as nat));
            return (true, coins);
        }
    }
    assert(all.take(h as int) =~= all);
    (false, coins)
}

/// What the selection algorithms see of a list of addresses.
pub open spec fn outputs_of(outputs: Seq<OutputGroup>, groups: Seq<Seq<CoinView>>) -> bool {
    &&& outputs.len() == groups.len()
    &&& forall|h: int|
        0 <= h < groups.len() ==> {
            &&& (#[trigger] outputs[h]).value == total_amount(groups[h])
            &&& outputs[h].weight == total_weight(groups[h])
            &&& outputs[h].input_count == groups[h].len()
            &&& outputs[h].creation_sequence is None
        }
}

fn output_groups(single: &Vec<Vec<Coin>>) -> (outputs: Vec<OutputGroup>)
    requires
        total_amount(joined(group_views(single@))) <= u64::MAX,
        total_weight(joined(group_views(single@))) <= u64::MAX,
    ensures
        outputs_of(outputs@, group_views(single@)),
{
    let ghost all = group_views(single@);
    let mut outputs: Vec<OutputGroup> = Vec::new();
    let mut h: usize = 0;
    while h < single.len()
        invariant
            all == group_views(single@),
            h <= single.len(),
            total_amount(joined(all)) <= u64::MAX,
            total_weight(joined(all)) <= u64::MAX,
            outputs_of(outputs@, all.take(h as int)),
        decreases single.len() - h,
    {
        proof {
            assert(all.take(h + 1) =~= all.take(h as int).push(all[h as int]));
            lemma_joined_push(all.take(h as int), all[h as int]);
            assert(all[h as int] == views(single@[h as int]@));
            lemma_total_concat(joined(all.take(h as int)), all[h as int]);
            lemma_tally_concat(joined(all.take(h as int)), all[h as int], weight_of());
            lemma_joined_take(all, h + 1, amount_of());
            lemma_joined_take(all, h + 1, weight_of());
            lemma_total_is_tally(joined(all));
            lemma_total_is_tally(joined(all.take(h + 1)));
        }
        let group = OutputGroup {
            value: coins_total(&single[h]),
            weight: coins_weight(&single[h]),
            input_count: single[h].len(),
            creation_sequence: None,
        };
        outputs.push(group);
        proof {
            assert forall|g: int| 0 <= g < all.take(h + 1).len() implies {
                &&& (#[trigger] outputs@[g]).value == total_amount(all.take(h + 1)[g])
                &&& outputs@[g].weight == total_weight(all.take(h + 1)[g])
                &&& outputs@[g].input_count == all.take(h + 1)[g].len()
                &&& outputs@[g].creation_sequence is None
            } by {
                if g < h {
                    assert(all.take(h as int)[g] == all.take(h + 1)[g]);
                }
            }
        }
        h += 1;
    }
    assert(all.take(h as int) =~= all);
    outputs
}

proof fn lemma_output_sums(outputs: Seq<OutputGroup>, groups: Seq<Seq<CoinView>>, n: nat)
    requires
        outputs_of(outputs, groups),
        n <= groups.len(),
    ensures
        output_sums(outputs, n).0 == total_amount(joined(groups.take(n as int))),
        output_sums(outputs, n).1 == total_weight(joined(groups.take(n as int))),
    decreases n,
{
    if n > 0 {
        lemma_output_sums(outputs, groups, (n - 1) as nat);
        assert(groups.take(n as int) =~= groups.take(n - 1).push(groups[n - 1]));
        lemma_joined_push(groups.take(n - 1), groups[n - 1]);
        lemma_total_concat(joined(groups.take(n - 1)), groups[n - 1]);
        lemma_tally_concat(joined(groups.take(n - 1)), groups[n - 1], weight_of());
        assert(outputs[n - 1].value == total_amount(groups[n - 1]));
    }
}

/// The groups of one class, together, are worth and weigh what the class is and does.
proof fn lemma_class_totals(
    coins: Seq<CoinView>,
    manual: Seq<OutPoint>,
    reused: Seq<Seq<CoinView>>,
    single: Seq<Seq<CoinView>>,
    f: spec_fn(CoinView) -> nat,
)
    requires
        arranged(reused, single, left_over(coins, manual)),
    ensures
        tally(joined(whole_groups(by_hand(coins, manual), reused)), f) + tally(joined(single), f)
            == tally(coins, f),
{
    let hand = by_hand(coins, manual);
    let rest = left_over(coins, manual);
    let pred = |c: CoinView| manual.contains(c.0.outpoint());
    lemma_tally_split(coins, pred, f);
    assert(rest == coins.filter(|c: CoinView| !pred(c))) by {
        assert((|c: CoinView| !pred(c)) =~= (|c: CoinView|
            !manual.contains(c.0.outpoint())));
    }
    let both = reused + single;
    assert forall|h: int| 0 <= h < both.len() implies is_group(#[trigger] both[h], rest) by {
        if h < reused.len() {
            assert(reused.contains(both[h]));
        } else {
            assert(single[h - reused.len()] == both[h]);
            assert(single.contains(both[h]));
        }
    }
    assert forall|g: int, h: int|
        0 <= g < both.len() && 0 <= h < both.len() && g != h implies both[g] != both[h] by {
        if g < reused.len() {
            assert(reused.contains(both[g]));
        } else {
            assert(both[g] == single[g - reused.len()]);
            assert(single.contains(both[g]));
        }
        if h < reused.len() {
            assert(reused.contains(both[h]));
        } else {
            assert(both[h] == single[h - reused.len()]);
            assert(single.contains(both[h]));
        }
    }
    assert forall|i: int| 0 <= i < rest.len() implies both.contains(
        crate::grouping::with_key(rest, crate::grouping::address_key((#[trigger] rest[i]).0)),
    ) by {
        let group = crate::grouping::with_key(rest, crate::grouping::address_key(rest[i].0));
        crate::grouping::lemma_with_key_contains(rest, i);
        assert(is_group(group, rest));
        if group.len() > 1 {
            assert(reused.contains(group));
            let h = choose|h: int| 0 <= h < reused.len() && reused[h] == group;
            assert(both[h] == group);
        } else {
            assert(single.contains(group));
            let h = choose|h: int| 0 <= h < single.len() && single[h] == group;
            assert(both[reused.len() + h] == group);
        }
    }
    lemma_groups_tally(both, rest, f);
    lemma_joined_concat(reused, single);
    lemma_tally_concat(joined(reused), joined(single), f);
    if hand.len() > 0 {
        lemma_joined_concat(seq![hand], reused);
        lemma_joined_push(Seq::<Seq<CoinView>>::empty(), hand);
        assert(Seq::<Seq<CoinView>>::empty().push(hand) =~= seq![hand]);
        assert(joined(Seq::<Seq<CoinView>>::empty()) =~= Seq::<CoinView>::empty());
        assert(joined(seq![hand]) =~= hand);
        lemma_tally_concat(hand, joined(reused), f);
    }
}

/// The average weight of the inputs that spend a class of coins.
fn average_input_weight(coins: &Vec<Coin>) -> (average: u64)
    requires
        coins.len() > 0,
        total_weight(views(coins@)) <= u64::MAX,
    ensures
        average == total_weight(views(coins@)) / coins.len() as nat,
        average <= 382,
{
    proof {
        let all = views(coins@);
        lemma_weight_bounds(all);
        let w = total_weight(all) as int;
        let n = coins.len() as int;
        assert(w / n <= 382) by (nonlinear_arith)
            requires
                0 <= w <= 382 * n,
                n > 0,
        ;
    }
    coins_weight(coins) / coins.len() as u64
}

/// The settings that a search among the addresses of a class with one coin is given, once coins were
/// taken already: what they leave open is the target.
pub fn selection_options(coins: &Vec<Coin>, taken: &Vec<Coin>, need: u64, quote: &FeeQuote) -> (o:
    SelectionOptions)
    requires
        coins@.len() > 0,
        class_fits(views(coins@), need as nat, *quote),
        total_amount(views(taken@)) <= total_amount(views(coins@)),
        total_weight(views(taken@)) <= total_weight(views(coins@)),
    ensures
        o.target_value == if need > total_amount(views(taken@)) {
            need - total_amount(views(taken@))
        } else {
            0
        },
        o.min_absolute_fee == min_absolute_fee(
            base_weight(views(taken@)),
            quote.min_fee_rate as nat,
        ),
        o.base_weight == base_weight(views(taken@)),
        o.change_weight == CHANGE_OUTPUT_WEIGHT,
        o.change_cost == quote.cost_of_change,
        o.avg_input_weight == total_weight(views(coins@)) / coins@.len(),
        o.avg_input_weight <= 382,
        o.avg_output_weight == (CHANGE_OUTPUT_WEIGHT + TARGET_OUTPUT_WEIGHT) / 2,
        o.min_change_value == MIN_CHANGE_VALUE,
        o.excess_strategy == ExcessStrategy::ToChange,
{
    let ghost k = 597 + total_weight(views(coins@)) + 344 * MAX_SPLITS;
    let ghost m = quote.min_fee_rate as int;
    proof {
        assert((2 * m + 2000) * k == 2 * (m * k) + 2000 * k && m * k >= 0) by (nonlinear_arith)
            requires
                m >= 0,
                k >= 0,
        ;
    }
    let avg_input_weight = average_input_weight(coins);
    let taken_total = coins_total(taken);
    let taken_weight = coins_weight(taken);
    let base = TX_BASE_WEIGHT + taken_weight + MAX_SPLITS * (TARGET_OUTPUT_WEIGHT
        + CHANGE_OUTPUT_WEIGHT);
    proof {
        let q = ((base + 3) / 4) as int;
        assert(m * q <= m * k) by (nonlinear_arith)
            requires
                0 <= q <= k,
                0 <= m,
        ;
    }
    SelectionOptions {
        target_value: if need > taken_total {
            need - taken_total
        } else {
            0
        },
        min_absolute_fee: quote.min_fee_rate * ((base + 3) / 4),
        base_weight: base,
        change_weight: CHANGE_OUTPUT_WEIGHT,
        change_cost: quote.cost_of_change,
        avg_input_weight,
        avg_output_weight: (CHANGE_OUTPUT_WEIGHT + TARGET_OUTPUT_WEIGHT) / 2,
        min_change_value: MIN_CHANGE_VALUE,
        excess_strategy: ExcessStrategy::ToChange,
    }
}

/// Selects from one class of coins.
#[verifier::rlimit(40)]
fn select_from_class(
    coins: &Vec<Coin>,
    need: u64,
    quote: &FeeQuote,
    manual: &Option<Vec<OutPoint>>,
) -> (chosen: Option<Vec<Coin>>)
    requires
        coins.len() > 0,
        class_fits(views(coins@), need as nat, *quote),
    ensures
        class_outcome(
            match chosen {
                Some(c) => Some(views(c@)),
                None => None,
            },
            views(coins@),
            named(*manual),
            need as nat,
            *quote,
        ),
{
    let ghost all = views(coins@);
    let ghost outpoints = named(*manual);
    let ghost k = 597 + total_weight(all) + 344 * MAX_SPLITS;
    let ghost r = (2 * quote.min_fee_rate + 2000) as int;
    proof {
        assert(r * k >= 2000 * k && r * k >= 2 * quote.min_fee_rate * k && r * k == 2
            * quote.min_fee_rate * k + 2000 * k) by (nonlinear_arith)
            requires
                r == 2 * quote.min_fee_rate + 2000,
                k >= 0,
        ;
    }
    let (hand, rest) = split_by_hand(coins, manual);
    let ghost hand_view = views(hand@);
    proof {
        let pred = |c: CoinView| outpoints.contains(c.0.outpoint());
        lemma_tally_split(all, pred, amount_of());
        assert(left_over(all, outpoints) == all.filter(|c: CoinView| !pred(c))) by {
            assert((|c: CoinView| !pred(c)) =~= (|c: CoinView|
                !outpoints.contains(c.0.outpoint())));
        }
        lemma_total_is_tally(all);
        lemma_total_is_tally(views(rest@));
    }
    let (mut groups, single) = arrange(&rest);
    let ghost reused = group_views(groups@);
    let ghost singles = group_views(single@);
    if hand.len() > 0 {
        groups.insert(0, hand);
        assert(group_views(groups@) =~= seq![hand_view] + reused);
    }
    let ghost whole = group_views(groups@);
    proof {
        assert(whole == whole_groups(by_hand(all, outpoints), reused));
        lemma_class_totals(all, outpoints, reused, singles, amount_of());
        lemma_class_totals(all, outpoints, reused, singles, weight_of());
        lemma_total_is_tally(joined(whole));
        lemma_total_is_tally(joined(singles));
    }
    let (covered, taken) = take_whole(&groups, need);
    if covered {
        return Some(taken);
    }
    let ghost taken_view = views(taken@);
    let outputs = output_groups(&single);
    proof {
        lemma_output_sums(outputs@, singles, singles.len());
        assert(singles.take(singles.len() as int) =~= singles);
        lemma_total_is_tally(taken_view);
    }
    let options = selection_options(coins, &taken, need, quote);
    proof {
        let base = options.base_weight as int;
        let q = ((base + 3) / 4) as int;
        let m = quote.min_fee_rate as int;
        assert(m * q <= m * k) by (nonlinear_arith)
            requires
                0 <= q <= k,
                0 <= m,
        ;
        assert(2 * m * k == 2 * (m * k)) by (nonlinear_arith);
        assert(output_values(outputs@) =~= group_totals(singles)) by {
            assert forall|h: int| 0 <= h < singles.len() implies output_values(outputs@)[h]
                == group_totals(singles)[h] by {
                assert(outputs@[h].value == total_amount(singles[h]));
            }
        }
        assert(pick_goal(taken_view, need as nat, *quote) == options.target_value
            + MIN_CHANGE_VALUE + options.min_absolute_fee);
    }
    let answer = run_select_coin(&outputs, &options, &quote.rates);
    proof {
        if answer is Some {
            assert(picks_reach(
                answer->Some_0@,
                group_totals(singles),
                pick_goal(joined(whole), need as nat, *quote),
            ));
        }
    }
    selection_from_answer(taken, &single, &answer)
}

/// The coins of a list that are confirmed, and neither locked nor excluded.
pub open spec fn available(
    coins: Seq<CoinView>,
    locked: Seq<OutPoint>,
    excluded: Seq<OutPoint>,
) -> Seq<CoinView> {
    coins.filter(
        |c: CoinView|
            c.0.confirmations > 0 && !locked.contains(c.0.outpoint()) && !excluded.contains(
                c.0.outpoint(),
            ),
    )
}

/// Leaves unconfirmed, locked and excluded coins out of a list.
pub fn available_coins(
    coins: &Vec<Coin>,
    locked: &Vec<OutPoint>,
    excluded: &Option<Vec<OutPoint>>,
) -> (kept: Vec<Coin>)
    ensures
        views(kept@) == available(views(coins@), locked@, named(*excluded)),
{
    let ghost all = views(coins@);
    let ghost out = named(*excluded);
    let ghost pred = |c: CoinView|
        c.0.confirmations > 0 && !locked@.contains(c.0.outpoint()) && !out.contains(
            c.0.outpoint(),
        );
    let mut kept: Vec<Coin> = Vec::new();
    let mut i: usize = 0;
    proof {
        reveal(Seq::filter);
        assert(views(kept@) =~= all.take(0).filter(pred));
    }
    while i < coins.len()
        invariant
            all == views(coins@),
            out == named(*excluded),
            pred == (|c: CoinView|
                c.0.confirmations > 0 && !locked@.contains(c.0.outpoint()) && !out.contains(
                    c.0.outpoint(),
                )),
            i <= coins.len(),
            views(kept@) == all.take(i as int).filter(pred),
        decreases coins.len() - i,
    {
        let outpoint = coins[i].0.outpoint();
        let is_excluded = match excluded {
            Some(list) => contains_outpoint(list, &outpoint),
            None => false,
        };
        let is_locked = contains_outpoint(locked, &outpoint);
        let ghost before = views(kept@);
        proof {
            assert(all.take(i + 1) =~= all.take(i as int).push(all[i as int]));
            all.take(i as int).lemma_filter_push(all[i as int], pred);
        }
        if coins[i].0.confirmations > 0 && !is_locked && !is_excluded {
            kept.push(copy_coin(&coins[i]));
            assert(views(kept@) =~= before.push(all[i as int]));
        }
        i += 1;
    }
    assert(all.take(i as int) =~= all);
    kept
}

/// Whether a coin of the list is named by hand.
fn any_named(coins: &Vec<Coin>, manual: &Option<Vec<OutPoint>>) -> (found: bool)
    ensures
        found == (by_hand(views(coins@), named(*manual)).len() > 0),
{
    let ghost all = views(coins@);
    let ghost outpoints = named(*manual);
    let ghost pred = |c: CoinView| outpoints.contains(c.0.outpoint());
    let mut i: usize = 0;
    while i < coins.len()
        invariant
            all == views(coins@),
            outpoints == named(*manual),
            pred == (|c: CoinView| outpoints.contains(c.0.outpoint())),
            i <= coins.len(),
            forall|j: int| 0 <= j < i ==> !pred(#[trigger] all[j]),
        decreases coins.len() - i,
    {
        let is_named = match manual {
            Some(list) => contains_outpoint(list, &coins[i].0.outpoint()),
            None => false,
        };
        if is_named {
            proof {
                all.lemma_filter_contains(pred, i as int);
            }
            return true;
        }
        assert(!pred(all[i as int]));
        i += 1;
    }
    proof {
        let hand = all.filter(pred);
        if hand.len() > 0 {
            all.lemma_filter_pred(pred, 0);
            all.lemma_filter_contains_rev(pred, hand[0]);
            let j = choose|j: int| 0 <= j < all.len() && all[j] == hand[0];
            assert(!pred(all[j]));
        }
    }
    false
}

/// Whether an outpoint is that of a coin of a list.
pub open spec fn holds_outpoint(coins: Seq<CoinView>, outpoint: OutPoint) -> bool {
    exists|j: int| 0 <= j < coins.len() && (#[trigger] coins[j]).0.outpoint() == outpoint
}

/// Whether the coins of a class are exactly those that were named, each named once.
pub open spec fn named_exactly(manual: Seq<OutPoint>, hand: Seq<CoinView>) -> bool {
    &&& manual.len() == hand.len()
    &&& forall|i: int| 0 <= i < manual.len() ==> holds_outpoint(hand, #[trigger] manual[i])
}

/// Whether a selection by hand that falls into one class falls into it whole.
pub open spec fn manual_fits(
    manual: Seq<OutPoint>,
    regular: Seq<CoinView>,
    swap: Seq<CoinView>,
    need: nat,
) -> bool {
    let hand_regular = by_hand(regular, manual);
    let hand_swap = by_hand(swap, manual);
    &&& hand_regular.len() > 0 && hand_swap.len() == 0 && need <= total_amount(regular)
        ==> named_exactly(manual, hand_regular)
    &&& hand_swap.len() > 0 && hand_regular.len() == 0 && need <= total_amount(swap)
        ==> named_exactly(manual, hand_swap)
}

/// What a selection comes to where one class of coins is left to try.
pub open spec fn last_class_outcome(
    result: Result<Seq<CoinView>, WalletError>,
    coins: Seq<CoinView>,
    manual: Seq<OutPoint>,
    need: nat,
    quote: FeeQuote,
) -> bool {
    match result {
        Ok(chosen) => class_outcome(Some(chosen), coins, manual, need, quote),
        Err(e) => class_outcome(None, coins, manual, need, quote) && e.is_insufficient(
            total_amount(coins),
            need + MIN_CHANGE_VALUE as nat,
        ),
    }
}

/// What a selection of coins comes to. Regular coins and swap coins are never mixed; regular
/// coins come first.
pub open spec fn selection_outcome(
    result: Result<Seq<CoinView>, WalletError>,
    regular: Seq<CoinView>,
    swap: Seq<CoinView>,
    manual: Seq<OutPoint>,
    need: nat,
    quote: FeeQuote,
) -> bool {
    let hand_regular = by_hand(regular, manual).len() > 0;
    let hand_swap = by_hand(swap, manual).len() > 0;
    let can_regular = need <= total_amount(regular);
    let can_swap = need <= total_amount(swap);
    if regular.len() == 0 && swap.len() == 0 {
        result matches Err(e) && e.is_insufficient(0, need)
    } else if hand_regular && hand_swap {
        result matches Err(e) && e.is_general(
            "Cannot mix regular and swap UTXOs in manual selection"@,
        )
    } else if hand_regular && !can_regular {
        result matches Err(e) && e.is_general(
            "Manual regular UTXOs selected but insufficient regular funds available"@,
        )
    } else if hand_swap && !can_swap {
        result matches Err(e) && e.is_general(
            "Manual swap UTXOs selected but insufficient swap funds available"@,
        )
    } else if hand_regular {
        last_class_outcome(result, regular, manual, need, quote)
    } else if hand_swap {
        last_class_outcome(result, swap, manual, need, quote)
    } else if !can_regular && !can_swap {
        result matches Err(e) && e.is_insufficient(
            if total_amount(regular) >= total_amount(swap) {
                total_amount(regular)
            } else {
                total_amount(swap)
            },
            need,
        )
    } else if !can_swap {
        last_class_outcome(result, regular, manual, need, quote)
    } else if !can_regular {
        last_class_outcome(result, swap, manual, need, quote)
    } else {
        ||| result is Ok && class_outcome(Some(result->Ok_0), regular, manual, need, quote)
        ||| class_outcome(None, regular, manual, need, quote) && last_class_outcome(
            result,
            swap,
            manual,
            need,
            quote,
        )
    }
}

/// The result of a selection, with each coin taken by its view.
pub open spec fn result_views(result: Result<Vec<Coin>, WalletError>) -> Result<
    Seq<CoinView>,
    WalletError,
> {
    match result {
        Ok(coins) => Ok(views(coins@)),
        Err(e) => Err(e),
    }
}

fn select_from_last_class(
    coins: &Vec<Coin>,
    need: u64,
    quote: &FeeQuote,
    manual: &Option<Vec<OutPoint>>,
) -> (result: Result<Vec<Coin>, WalletError>)
    requires
        coins.len() > 0,
        class_fits(views(coins@), need as nat, *quote),
    ensures
        last_class_outcome(
            result_views(result),
            views(coins@),
            named(*manual),
            need as nat,
            *quote,
        ),
{
    proof {
        lemma_fee_part(views(coins@), *quote);
    }
    match select_from_class(coins, need, quote, manual) {
        Some(chosen) => Ok(chosen),
        None => Err(
            WalletError::InsufficientFund {
                available: coins_total(coins),
                required: need + MIN_CHANGE_VALUE,
            },
        ),
    }
}

proof fn lemma_fee_part(coins: Seq<CoinView>, quote: FeeQuote)
    ensures
        (2 * quote.min_fee_rate + 2000) * (597 + total_weight(coins) + 344 * MAX_SPLITS)
            >= 0,
{
    let r = (2 * quote.min_fee_rate + 2000) as int;
    let k = (597 + total_weight(coins) + 344 * MAX_SPLITS) as int;
    assert(r * k >= 0) by (nonlinear_arith)
        requires
            r >= 0,
            k >= 0,
    ;
}

/// Selects coins worth `amount` and the estimated fee: from the class that was named by hand, or
/// from the regular coins, or else from the swap coins.
pub fn select_coins(
    regular: &Vec<Coin>,
    swap: &Vec<Coin>,
    amount: u64,
    quote: &FeeQuote,
    manual: &Option<Vec<OutPoint>>,
) -> (result: Result<Vec<Coin>, WalletError>)
    requires
        amount + quote.estimated_fee > 0,
        class_fits(views(regular@), (amount + quote.estimated_fee) as nat, *quote),
        class_fits(views(swap@), (amount + quote.estimated_fee) as nat, *quote),
        manual_fits(
            named(*manual),
            views(regular@),
            views(swap@),
            (amount + quote.estimated_fee) as nat,
        ),
    ensures
        selection_outcome(
            result_views(result),
            views(regular@),
            views(swap@),
            named(*manual),
            (amount + quote.estimated_fee) as nat,
            *quote,
        ),
{
    proof {
        lemma_fee_part(views(regular@), *quote);
    }
    let need = amount + quote.estimated_fee;
    if regular.len() == 0 && swap.len() == 0 {
        return Err(WalletError::InsufficientFund { available: 0, required: need });
    }
    let regular_total = coins_total(regular);
    let swap_total = coins_total(swap);
    let can_regular = need <= regular_total;
    let can_swap = need <= swap_total;
    let hand_regular = any_named(regular, manual);
    let hand_swap = any_named(swap, manual);
    if hand_regular && hand_swap {
        return Err(
            WalletError::general("Cannot mix regular and swap UTXOs in manual selection"),
        );
    }
    if hand_regular && !can_regular {
        return Err(
            WalletError::general(
                "Manual regular UTXOs selected but insufficient regular funds available",
            ),
        );
    }
    if hand_swap && !can_swap {
        return Err(
            WalletError::general("Manual swap UTXOs selected but insufficient swap funds available"),
        );
    }
    if hand_regular || (!hand_swap && can_regular && !can_swap) {
        return select_from_last_class(regular, need, quote, manual);
    }
    if hand_swap || (can_swap && !can_regular) {
        return select_from_last_class(swap, need, quote, manual);
    }
    if !can_regular {
        return Err(
            WalletError::InsufficientFund {
                available: if regular_total >= swap_total {
                    regular_total
                } else {
                    swap_total
                },
                required: need,
            },
        );
    }
    match select_from_class(regular, need, quote, manual) {
        Some(chosen) => Ok(chosen),
        None => select_from_last_class(swap, need, quote, manual),
    }
}

/// The weight of the inputs that spend a list of coins, if it fits in 64 bits.
fn checked_weight(coins: &Vec<Coin>) -> (weight: Option<u64>)
    ensures
        match weight {
            Some(w) => w == total_weight(views(coins@)),
            None => total_weight(views(coins@)) > u64::MAX,
        },
{
    let ghost all = views(coins@);
    let mut weight: u64 = 0;
    let mut i: usize = 0;
    while i < coins.len()
        invariant
            all == views(coins@),
            i <= coins.len(),
            weight == total_weight(all.take(i as int)),
        decreases coins.len() - i,
    {
        proof {
            assert(all.take(i + 1) =~= all.take(i as int).push(all[i as int]));
            lemma_tally_push(all.take(i as int), all[i as int], weight_of());
            lemma_tally_concat(all.take(i + 1), all.skip(i + 1), weight_of());
            assert(all.take(i + 1) + all.skip(i + 1) =~= all);
        }
        match weight.checked_add(INPUT_BASE_WEIGHT + coins[i].1.estimate_witness_size() as u64) {
            Some(sum) => {
                weight = sum;
            },
            None => {
                return None;
            },
        }
        i += 1;
    }
    assert(all.take(i as int) =~= all);
    Some(weight)
}

/// Whether a product of 64-bit numbers and a further number stay together within 64 bits.
fn product_fits(rest: u128, a: u128, b: u128) -> (fits: bool)
    requires
        rest <= 0x4_0000_0000_0000_0000,
        a >= 1,
    ensures
        fits == (rest + a * b <= u64::MAX),
{
    if a > 0xFFFF_FFFF_FFFF_FFFF || b > 0xFFFF_FFFF_FFFF_FFFF {
        if b == 0 {
            assert(a * b == 0) by (nonlinear_arith)
                requires
                    b == 0,
            ;
            return rest <= 0xFFFF_FFFF_FFFF_FFFF;
        }
        assert(a * b >= a && a * b >= b) by (nonlinear_arith)
            requires
                a >= 1,
                b >= 1,
        ;
        return false;
    }
    assert(a * b <= 0xFFFF_FFFF_FFFF_FFFF * 0xFFFF_FFFF_FFFF_FFFF) by (nonlinear_arith)
        requires
            a <= 0xFFFF_FFFF_FFFF_FFFF,
            b <= 0xFFFF_FFFF_FFFF_FFFF,
    ;
    let product = a * b;
    product <= 0xFFFF_FFFF_FFFF_FFFF && rest + product <= 0xFFFF_FFFF_FFFF_FFFF
}

/// Whether the amounts and weights of a class stay within 64 bits.
fn class_stays_small(coins: &Vec<Coin>, need: u128, quote: &FeeQuote) -> (small: bool)
    requires
        need <= 2 * u64::MAX,
    ensures
        small == class_fits(views(coins@), need as nat, *quote),
{
    if checked_total(coins).is_none() {
        return false;
    }
    let a: u128 = 2 * quote.min_fee_rate as u128 + 2000;
    let splits: u128 = 344 * MAX_SPLITS as u128;
    let ghost weight = total_weight(views(coins@));
    match checked_weight(coins) {
        Some(w) => product_fits(need + MIN_CHANGE_VALUE as u128, a, 597 + w as u128 + splits),
        None => {
            let ghost b = 597 + weight + 344 * MAX_SPLITS;
            assert((2 * quote.min_fee_rate + 2000) * b >= b) by (nonlinear_arith)
                requires
                    b >= 0,
                    2 * quote.min_fee_rate + 2000 >= 1,
            ;
            false
        },
    }
}

/// Whether the coins of a class are exactly those that were named.
fn are_named_exactly(manual: &Option<Vec<OutPoint>>, hand: &Vec<Coin>) -> (exactly: bool)
    ensures
        exactly == named_exactly(named(*manual), views(hand@)),
{
    let ghost held = views(hand@);
    let list = match manual {
        Some(list) => list,
        None => {
            return hand.len() == 0;
        },
    };
    if list.len() != hand.len() {
        return false;
    }
    let mut i: usize = 0;
    while i < list.len()
        invariant
            list@ == named(*manual),
            held == views(hand@),
            list@.len() == held.len(),
            i <= list.len(),
            forall|k: int| 0 <= k < i ==> holds_outpoint(held, #[trigger] list@[k]),
        decreases list.len() - i,
    {
        let mut j: usize = 0;
        while j < hand.len() && hand[j].0.outpoint() != list[i]
            invariant
                i < list@.len(),
                held == views(hand@),
                j <= hand.len(),
                forall|m: int| 0 <= m < j ==> (#[trigger] held[m]).0.outpoint() != list@[i as int],
            decreases hand.len() - j,
        {
            assert(held[j as int] == hand@[j as int]@);
            j += 1;
        }
        if j == hand.len() {
            assert(!holds_outpoint(held, named(*manual)[i as int]));
            return false;
        }
        assert(held[j as int].0.outpoint() == list@[i as int]);
        i += 1;
    }
    true
}

/// Whether coins can be selected: the amounts stay within 64 bits, and what was named by hand is one
/// whole choice.
pub fn can_select_coins(
    regular: &Vec<Coin>,
    swap: &Vec<Coin>,
    amount: u64,
    quote: &FeeQuote,
    manual: &Option<Vec<OutPoint>>,
) -> (possible: bool)
    ensures
        possible == {
            &&& amount + quote.estimated_fee > 0
            &&& class_fits(views(regular@), (amount + quote.estimated_fee) as nat, *quote)
            &&& class_fits(views(swap@), (amount + quote.estimated_fee) as nat, *quote)
            &&& manual_fits(
                named(*manual),
                views(regular@),
                views(swap@),
                (amount + quote.estimated_fee) as nat,
            )
        },
{
    let need: u128 = amount as u128 + quote.estimated_fee as u128;
    if need == 0 || !class_stays_small(regular, need, quote) || !class_stays_small(
        swap,
        need,
        quote,
    ) {
        return false;
    }
    let hand_regular = split_by_hand(regular, manual).0;
    let hand_swap = split_by_hand(swap, manual).0;
    if hand_regular.len() > 0 && hand_swap.len() == 0 && need <= coins_total(regular) as u128 {
        return are_named_exactly(manual, &hand_regular);
    }
    if hand_swap.len() > 0 && hand_regular.len() == 0 && need <= coins_total(swap) as u128 {
        return are_named_exactly(manual, &hand_swap);
    }
    true
}

proof fn lemma_value_at(groups: Seq<Seq<CoinView>>, picks: Seq<usize>)
    requires
        forall|i: int| 0 <= i < picks.len() ==> (#[trigger] picks[i]) < groups.len(),
    ensures
        total_amount(picked(groups, picks)) == value_at(group_totals(groups), picks),
    decreases picks.len(),
{
    let list = Seq::new(picks.len(), |i: int| groups[picks[i] as int]);
    if picks.len() > 0 {
        let shorter = picks.drop_last();
        lemma_value_at(groups, shorter);
        assert(list.drop_last() =~= Seq::new(shorter.len(), |i: int| groups[shorter[i] as int]));
        lemma_total_concat(joined(list.drop_last()), list.last());
        assert(picks.last() == picks[picks.len() - 1]);
    }
}

/// What a class yields is worth at least what was asked for, the estimated fee counted in.
pub proof fn law_selection_pays(
    chosen: Seq<CoinView>,
    coins: Seq<CoinView>,
    manual: Seq<OutPoint>,
    need: nat,
    quote: FeeQuote,
)
    requires
        class_outcome(Some(chosen), coins, manual, need, quote),
    ensures
        total_amount(chosen) >= need,
{
    let (reused, single) = choose|reused: Seq<Seq<CoinView>>, single: Seq<Seq<CoinView>>|
        {
            &&& #[trigger] arranged(reused, single, left_over(coins, manual))
            &&& outcome_from(
                Some(chosen),
                whole_groups(by_hand(coins, manual), reused),
                single,
                need,
                quote,
            )
        };
    let groups = whole_groups(by_hand(coins, manual), reused);
    if !(exists|n: int| #[trigger]
        covers_first(groups, n, need) && chosen == joined(groups.take(n))) {
        let goal = pick_goal(joined(groups), need, quote);
        let picks = choose|picks: Seq<usize>| #[trigger]
            picks_reach(picks, group_totals(single), goal) && chosen == joined(groups) + picked(
                single,
                picks,
            );
        lemma_value_at(single, picks);
        lemma_total_concat(joined(groups), picked(single, picks));
        let w = base_weight(joined(groups));
        let m = quote.min_fee_rate as nat;
        assert(min_absolute_fee(w, m) >= 0);
    }
}

/// A class of coins yields a selection where it is worth what is asked, with a change output, the
/// least fee and a fee of 2000 satoshis per unit of weight on top.
pub proof fn law_ample_coins_are_selected(
    coins: Seq<CoinView>,
    manual: Seq<OutPoint>,
    need: nat,
    quote: FeeQuote,
)
    requires
        need > 0,
        total_amount(coins) >= need + MIN_CHANGE_VALUE + min_absolute_fee(
            base_weight(coins),
            quote.min_fee_rate as nat,
        ) + 2000 * base_weight(coins),
    ensures
        !class_outcome(None, coins, manual, need, quote),
{
    if class_outcome(None, coins, manual, need, quote) {
        let (reused, single) = choose|reused: Seq<Seq<CoinView>>, single: Seq<Seq<CoinView>>|
            {
                &&& #[trigger] arranged(reused, single, left_over(coins, manual))
                &&& outcome_from(
                    None,
                    whole_groups(by_hand(coins, manual), reused),
                    single,
                    need,
                    quote,
                )
            };
        let groups = whole_groups(by_hand(coins, manual), reused);
        let taken = joined(groups);
        lemma_class_totals(coins, manual, reused, single, amount_of());
        lemma_class_totals(coins, manual, reused, single, weight_of());
        lemma_total_is_tally(coins);
        lemma_total_is_tally(taken);
        lemma_total_is_tally(joined(single));
        assert(total_amount(taken) < need) by {
            assert(groups.take(groups.len() as int) =~= groups);
            if groups.len() == 0 {
                assert(taken =~= Seq::empty());
            }
        }
        let q = ((base_weight(taken) + 3) / 4) as int;
        let k = ((base_weight(coins) + 3) / 4) as int;
        let m = quote.min_fee_rate as int;
        assert(m * q <= m * k) by (nonlinear_arith)
            requires
                0 <= q <= k,
                0 <= m,
        ;
    }
}

proof fn lemma_joined_contains(groups: Seq<Seq<CoinView>>, c: CoinView)
    requires
        joined(groups).contains(c),
    ensures
        exists|h: int| 0 <= h < groups.len() && (#[trigger] groups[h]).contains(c),
    decreases groups.len(),
{
    if groups.len() > 0 {
        let j = choose|j: int| 0 <= j < joined(groups).len() && joined(groups)[j] == c;
        let head = joined(groups.drop_last());
        if j < head.len() {
            assert(head[j] == c);
            lemma_joined_contains(groups.drop_last(), c);
            let h = choose|h: int|
                0 <= h < groups.drop_last().len() && (#[trigger] groups.drop_last()[h]).contains(c);
            assert(groups[h].contains(c));
        } else {
            assert(groups.last()[j - head.len()] == c);
            assert(groups[groups.len() - 1].contains(c));
        }
    }
}

proof fn lemma_contains_joined(groups: Seq<Seq<CoinView>>, h: int, c: CoinView)
    requires
        0 <= h < groups.len(),
        groups[h].contains(c),
    ensures
        joined(groups).contains(c),
    decreases groups.len(),
{
    let head = joined(groups.drop_last());
    if h == groups.len() - 1 {
        let j = choose|j: int| 0 <= j < groups[h].len() && groups[h][j] == c;
        assert(joined(groups)[head.len() + j] == c);
    } else {
        assert(groups.drop_last()[h].contains(c));
        lemma_contains_joined(groups.drop_last(), h, c);
        let j = choose|j: int| 0 <= j < head.len() && head[j] == c;
        assert(joined(groups)[j] == c);
    }
}

proof fn lemma_group_member(group: Seq<CoinView>, coins: Seq<CoinView>, c: CoinView)
    requires
        is_group(group, coins),
        group.contains(c),
    ensures
        coins.contains(c),
{
    let i = choose|i: int|
        0 <= i < coins.len() && group == crate::grouping::with_key(
            coins,
            crate::grouping::address_key((#[trigger] coins[i]).0),
        );
    let j = choose|j: int| 0 <= j < group.len() && group[j] == c;
    crate::grouping::lemma_with_key_uniform(
        coins,
        crate::grouping::address_key(coins[i].0),
        j,
    );
}

/// What a class yields comes from that class alone.
pub proof fn law_selection_within_class(
    chosen: Seq<CoinView>,
    coins: Seq<CoinView>,
    manual: Seq<OutPoint>,
    need: nat,
    quote: FeeQuote,
    c: CoinView,
)
    requires
        class_outcome(Some(chosen), coins, manual, need, quote),
        chosen.contains(c),
    ensures
        coins.contains(c),
{
    let rest = left_over(coins, manual);
    let hand = by_hand(coins, manual);
    let named_pred = |c: CoinView| manual.contains(c.0.outpoint());
    let other_pred = |c: CoinView| !manual.contains(c.0.outpoint());
    let (reused, single) = choose|reused: Seq<Seq<CoinView>>, single: Seq<Seq<CoinView>>|
        {
            &&& #[trigger] arranged(reused, single, rest)
            &&& outcome_from(Some(chosen), whole_groups(hand, reused), single, need, quote)
        };
    let groups = whole_groups(hand, reused);
    let part = choose|part: Seq<Seq<CoinView>>| #[trigger]
        joined(part).contains(c) && (forall|h: int|
            0 <= h < part.len() ==> groups.contains(#[trigger] part[h]) || single.contains(part[h]));
    assert(exists|part: Seq<Seq<CoinView>>| #[trigger]
        joined(part).contains(c) && (forall|h: int|
            0 <= h < part.len() ==> groups.contains(#[trigger] part[h]) || single.contains(
                part[h],
            ))) by {
        if exists|n: int| #[trigger]
            covers_first(groups, n, need) && chosen == joined(groups.take(n)) {
            let n = choose|n: int| #[trigger]
                covers_first(groups, n, need) && chosen == joined(groups.take(n));
            let p = groups.take(n);
            assert forall|h: int| 0 <= h < p.len() implies groups.contains(#[trigger] p[h])
                || single.contains(p[h]) by {
                assert(groups[h] == p[h]);
            }
            assert(joined(p).contains(c));
        } else {
            let goal = pick_goal(joined(groups), need, quote);
            let picks = choose|picks: Seq<usize>| #[trigger]
                picks_reach(picks, group_totals(single), goal) && chosen == joined(groups) + picked(
                    single,
                    picks,
                );
            let list = Seq::new(picks.len(), |i: int| single[picks[i] as int]);
            let p = groups + list;
            lemma_joined_concat(groups, list);
            assert forall|h: int| 0 <= h < p.len() implies groups.contains(#[trigger] p[h])
                || single.contains(p[h]) by {
                if h < groups.len() {
                    assert(groups[h] == p[h]);
                } else {
                    assert(picks[h - groups.len()] < group_totals(single).len());
                    assert(single[picks[h - groups.len()] as int] == p[h]);
                }
            }
            assert(joined(p).contains(c));
        }
    }
    lemma_joined_contains(part, c);
    let h = choose|h: int| 0 <= h < part.len() && (#[trigger] part[h]).contains(c);
    let g = part[h];
    if hand.len() > 0 && g == hand {
        coins.lemma_filter_contains_rev(named_pred, c);
    } else {
        if groups.contains(g) {
            let i = choose|i: int| 0 <= i < groups.len() && groups[i] == g;
            if hand.len() > 0 {
                assert(reused[i - 1] == g);
            }
            assert(reused.contains(g));
        }
        assert(is_group(g, rest));
        lemma_group_member(g, rest, c);
        coins.lemma_filter_contains_rev(other_pred, c);
    }
}

/// The coins named by hand come first, all of them.
pub proof fn law_selection_by_hand_first(
    chosen: Seq<CoinView>,
    coins: Seq<CoinView>,
    manual: Seq<OutPoint>,
    need: nat,
    quote: FeeQuote,
)
    requires
        class_outcome(Some(chosen), coins, manual, need, quote),
    ensures
        by_hand(coins, manual).is_prefix_of(chosen),
{
    let rest = left_over(coins, manual);
    let hand = by_hand(coins, manual);
    let (reused, single) = choose|reused: Seq<Seq<CoinView>>, single: Seq<Seq<CoinView>>|
        {
            &&& #[trigger] arranged(reused, single, rest)
            &&& outcome_from(Some(chosen), whole_groups(hand, reused), single, need, quote)
        };
    let groups = whole_groups(hand, reused);
    if hand.len() == 0 {
        assert(chosen.take(0) =~= hand);
    } else {
        assert forall|n: int| 0 < n <= groups.len() implies hand.is_prefix_of(
            joined(#[trigger] groups.take(n)),
        ) by {
            let first = Seq::<Seq<CoinView>>::empty().push(hand);
            lemma_joined_push(Seq::<Seq<CoinView>>::empty(), hand);
            assert(joined(Seq::<Seq<CoinView>>::empty()) =~= Seq::<CoinView>::empty());
            assert(joined(first) =~= hand);
            assert(groups.take(n) =~= first + groups.take(n).skip(1));
            lemma_joined_concat(first, groups.take(n).skip(1));
        }
        if exists|n: int| #[trigger]
            covers_first(groups, n, need) && chosen == joined(groups.take(n)) {
        } else {
            assert(groups.take(groups.len() as int) =~= groups);
            assert(hand.is_prefix_of(joined(groups)));
            let goal = pick_goal(joined(groups), need, quote);
            let picks = choose|picks: Seq<usize>| #[trigger]
                picks_reach(picks, group_totals(single), goal) && chosen == joined(groups) + picked(
                    single,
                    picks,
                );
            assert(chosen.take(hand.len() as int) =~= hand);
        }
    }
}

/// Addresses that hold several coins are spent first: where a coin is chosen that was not named
/// by hand and is alone at its address, every coin of every address that holds several is chosen
/// too.
pub proof fn law_reused_addresses_first(
    chosen: Seq<CoinView>,
    coins: Seq<CoinView>,
    manual: Seq<OutPoint>,
    need: nat,
    quote: FeeQuote,
    lone: CoinView,
    other: CoinView,
)
    requires
        class_outcome(Some(chosen), coins, manual, need, quote),
        chosen.contains(lone),
        !manual.contains(lone.0.outpoint()),
        crate::grouping::with_key(
            left_over(coins, manual),
            crate::grouping::address_key(lone.0),
        ).len() == 1,
        left_over(coins, manual).contains(other),
        crate::grouping::with_key(
            left_over(coins, manual),
            crate::grouping::address_key(other.0),
        ).len() > 1,
    ensures
        chosen.contains(other),
{
    let rest = left_over(coins, manual);
    let hand = by_hand(coins, manual);
    let named_pred = |c: CoinView| manual.contains(c.0.outpoint());
    let (reused, single) = choose|reused: Seq<Seq<CoinView>>, single: Seq<Seq<CoinView>>|
        {
            &&& #[trigger] arranged(reused, single, rest)
            &&& outcome_from(Some(chosen), whole_groups(hand, reused), single, need, quote)
        };
    let groups = whole_groups(hand, reused);
    let other_group = crate::grouping::with_key(rest, crate::grouping::address_key(other.0));
    let i = choose|i: int| 0 <= i < rest.len() && rest[i] == other;
    crate::grouping::lemma_with_key_contains(rest, i);
    assert(is_group(other_group, rest));
    assert(reused.contains(other_group));
    let r = choose|r: int| 0 <= r < reused.len() && reused[r] == other_group;
    let at = if hand.len() == 0 {
        r
    } else {
        r + 1
    };
    assert(groups[at] == other_group);
    lemma_contains_joined(groups, at, other);
    if exists|n: int| #[trigger]
        covers_first(groups, n, need) && chosen == joined(groups.take(n)) {
        let n = choose|n: int| #[trigger]
            covers_first(groups, n, need) && chosen == joined(groups.take(n));
        let part = groups.take(n);
        lemma_joined_contains(part, lone);
        let h = choose|h: int| 0 <= h < part.len() && (#[trigger] part[h]).contains(lone);
        let g = part[h];
        assert(g == groups[h]);
        let j = choose|j: int| 0 <= j < g.len() && g[j] == lone;
        if hand.len() > 0 && h == 0 {
            coins.lemma_filter_pred(named_pred, j);
        } else {
            let k = if hand.len() == 0 {
                h
            } else {
                h - 1
            };
            assert(reused[k] == g);
            assert(reused.contains(g));
            let m = choose|m: int|
                0 <= m < rest.len() && g == crate::grouping::with_key(
                    rest,
                    crate::grouping::address_key((#[trigger] rest[m]).0),
                );
            crate::grouping::lemma_with_key_uniform(
                rest,
                crate::grouping::address_key(rest[m].0),
                j,
            );
        }
        assert(false);
    } else {
        let goal = pick_goal(joined(groups), need, quote);
        let picks = choose|picks: Seq<usize>| #[trigger]
            picks_reach(picks, group_totals(single), goal) && chosen == joined(groups) + picked(
                single,
                picks,
            );
        let j = choose|j: int| 0 <= j < joined(groups).len() && joined(groups)[j] == other;
        assert(chosen[j] == other);
    }
}

/// Regular coins and swap coins are never mixed: a selection comes from one class alone.
pub proof fn law_no_mixing(
    result: Result<Seq<CoinView>, WalletError>,
    regular: Seq<CoinView>,
    swap: Seq<CoinView>,
    manual: Seq<OutPoint>,
    need: nat,
    quote: FeeQuote,
)
    requires
        selection_outcome(result, regular, swap, manual, need, quote),
        result is Ok,
    ensures
        (forall|c: CoinView| #[trigger] result->Ok_0.contains(c) ==> regular.contains(c)) || (
        forall|c: CoinView| #[trigger] result->Ok_0.contains(c) ==> swap.contains(c)),
        total_amount(result->Ok_0) >= need,
{
    let chosen = result->Ok_0;
    if class_outcome(Some(chosen), regular, manual, need, quote) {
        law_selection_pays(chosen, regular, manual, need, quote);
        assert forall|c: CoinView| #[trigger] chosen.contains(c) implies regular.contains(c) by {
            law_selection_within_class(chosen, regular, manual, need, quote, c);
        }
    } else {
        law_selection_pays(chosen, swap, manual, need, quote);
        assert forall|c: CoinView| #[trigger] chosen.contains(c) implies swap.contains(c) by {
            law_selection_within_class(chosen, swap, manual, need, quote, c);
        }
    }
}

/// A coin is left out of a choice where it is unconfirmed, locked or excluded, and is in it otherwise, behind
/// those before it, whatever its kind and its address.
pub proof fn law_free_coins_are_considered(
    coins: Seq<CoinView>,
    c: CoinView,
    locked: Seq<OutPoint>,
    excluded: Seq<OutPoint>,
)
    ensures
        available(Seq::<CoinView>::empty(), locked, excluded).len() == 0,
        ({
            let outpoint = OutPoint { txid: c.0.txid, vout: c.0.vout };
            &&& c.0.confirmations > 0 && !locked.contains(outpoint) && !excluded.contains(outpoint)
                ==> available(coins.push(c), locked, excluded) == available(
                coins,
                locked,
                excluded,
            ).push(c)
            &&& c.0.confirmations == 0 || locked.contains(outpoint) || excluded.contains(outpoint)
                ==> available(coins.push(c), locked, excluded) == available(coins, locked, excluded)
        }),
{
    reveal(Seq::filter);
    coins.lemma_filter_push(
        c,
        |c: CoinView|
            c.0.confirmations > 0 && !locked.contains(c.0.outpoint()) && !excluded.contains(
                c.0.outpoint(),
            ),
    );
}

/// A payment is estimated to weigh what its inputs and two outputs weigh: 387 units, and 231 for each input.
/// The inputs that were named count, or two where none were named.
pub proof fn law_estimate_counts_inputs(inputs: nat, outpoints: Vec<OutPoint>)
    ensures
        spec_estimated_tx_weight(0) == 387,
        spec_estimated_tx_weight(inputs + 1) == spec_estimated_tx_weight(inputs) + 231,
        estimated_inputs(None) == 2,
        estimated_inputs(Some(outpoints)) == outpoints@.len(),
{
    assert((inputs + 1) * 231 == inputs * 231 + 231) by (nonlinear_arith);
}

/// A payment weighs 1763 units without inputs, and each coin that it spends adds 164 and its witness. The
/// least fee is the least rate for each virtual byte, four units of weight or a part of them.
pub proof fn law_inputs_add_their_weight(taken: Seq<CoinView>, c: CoinView, weight: nat, rate: nat)
    ensures
        base_weight(Seq::<CoinView>::empty()) == 1763,
        base_weight(taken.push(c)) == base_weight(taken) + 164 + c.1.witness_size(),
        min_absolute_fee(4 * weight, rate) == rate * weight,
        min_absolute_fee(4 * weight + 1, rate) == rate * (weight + 1),
        min_absolute_fee(4 * weight + 2, rate) == rate * (weight + 1),
        min_absolute_fee(4 * weight + 3, rate) == rate * (weight + 1),
{
    lemma_tally_push(taken, c, weight_of());
    assert((4 * weight + 3) / 4 == weight);
    assert((4 * weight + 1 + 3) / 4 == weight + 1);
    assert((4 * weight + 2 + 3) / 4 == weight + 1);
    assert((4 * weight + 3 + 3) / 4 == weight + 1);
}

proof fn lemma_total_holds(coins: Seq<CoinView>, c: CoinView)
    requires
        coins.contains(c),
    ensures
        total_amount(coins) >= c.0.amount,
    decreases coins.len(),
{
    let i = choose|i: int| 0 <= i < coins.len() && coins[i] == c;
    if i < coins.len() - 1 {
        assert(coins.drop_last()[i] == c);
        lemma_total_holds(coins.drop_last(), c);
    }
}

/// Where funds are said to be lacking, what is said to be there is not less than a coin that could have been
/// chosen, unless it is enough for the payment; and what is said to be required is not less than the payment.
pub proof fn law_lacking_funds_are_told_truly(
    error: WalletError,
    regular: Seq<CoinView>,
    swap: Seq<CoinView>,
    manual: Seq<OutPoint>,
    need: nat,
    quote: FeeQuote,
    c: CoinView,
)
    requires
        selection_outcome(Err(error), regular, swap, manual, need, quote),
        error is InsufficientFund,
        regular.contains(c) || swap.contains(c),
    ensures
        error->available >= c.0.amount || error->available >= need,
        error->required >= need,
{
    if regular.contains(c) {
        lemma_total_holds(regular, c);
    }
    if swap.contains(c) {
        lemma_total_holds(swap, c);
    }
}

/// Whether a class of coins is worth what is asked at every rate: with a change output, and a fee of 2000
/// satoshis and the least rate per unit of weight on top, each coin taken to weigh 382 units.
pub open spec fn is_ample(coins: Seq<CoinView>, need: nat, quote: FeeQuote) -> bool {
    total_amount(coins) >= need + 294 + (quote.min_fee_rate + 2000) * (1766 + 382 * coins.len())
}

proof fn lemma_ample(coins: Seq<CoinView>, manual: Seq<OutPoint>, need: nat, quote: FeeQuote)
    requires
        need > 0,
        is_ample(coins, need, quote),
    ensures
        !class_outcome(None, coins, manual, need, quote),
        need <= total_amount(coins),
{
    lemma_weight_bounds(coins);
    let m = quote.min_fee_rate as int;
    let w = base_weight(coins) as int;
    let q = (w + 3) / 4;
    let k = 1766 + 382 * coins.len();
    assert(m * q + 2000 * w <= (m + 2000) * k && (m + 2000) * k >= 0) by (nonlinear_arith)
        requires
            0 <= q <= k,
            0 <= w <= k,
            0 <= m,
    ;
    law_ample_coins_are_selected(coins, manual, need, quote);
}

/// A payment that the coins are ample for is paid, where no coin is named by hand. Where the regular coins
/// are ample, they pay it; swap coins do only where the regular ones are not.
pub proof fn law_ample_wallet_pays(
    result: Result<Seq<CoinView>, WalletError>,
    regular: Seq<CoinView>,
    swap: Seq<CoinView>,
    need: nat,
    quote: FeeQuote,
)
    requires
        selection_outcome(result, regular, swap, Seq::empty(), need, quote),
        need > 0,
    ensures
        is_ample(regular, need, quote) ==> result is Ok && forall|c: CoinView| #[trigger]
            result->Ok_0.contains(c) ==> regular.contains(c),
        is_ample(swap, need, quote) ==> result is Ok,
        need > total_amount(regular) && need > total_amount(swap) ==> result is Err,
        result is Ok && need > total_amount(regular) ==> forall|c: CoinView| #[trigger]
            result->Ok_0.contains(c) ==> swap.contains(c),
{
    let none = Seq::<OutPoint>::empty();
    lemma_nothing_by_hand(regular);
    lemma_nothing_by_hand(swap);
    if regular.len() == 0 {
        assert(total_amount(regular) == 0);
    }
    if swap.len() == 0 {
        assert(total_amount(swap) == 0);
    }
    lemma_scale(regular, quote);
    lemma_scale(swap, quote);
    if is_ample(regular, need, quote) {
        lemma_ample(regular, none, need, quote);
        assert forall|c: CoinView| #[trigger] result->Ok_0.contains(c) implies regular.contains(
            c,
        ) by {
            law_selection_within_class(result->Ok_0, regular, none, need, quote, c);
        }
    }
    if is_ample(swap, need, quote) {
        lemma_ample(swap, none, need, quote);
    }
    if result is Ok && need > total_amount(regular) {
        assert forall|c: CoinView| #[trigger] result->Ok_0.contains(c) implies swap.contains(c) by {
            law_selection_within_class(result->Ok_0, swap, none, need, quote, c);
        }
    }
}

proof fn lemma_scale(coins: Seq<CoinView>, quote: FeeQuote)
    ensures
        (quote.min_fee_rate + 2000) * (1766 + 382 * coins.len()) >= 0,
{
    let r = (quote.min_fee_rate + 2000) as int;
    let k = (1766 + 382 * coins.len()) as int;
    assert(r * k >= 0) by (nonlinear_arith)
        requires
            r >= 0,
            k >= 0,
    ;
}

proof fn lemma_nothing_by_hand(coins: Seq<CoinView>)
    ensures
        by_hand(coins, Seq::empty()).len() == 0,
{
    let pred = |c: CoinView| Seq::<OutPoint>::empty().contains(c.0.outpoint());
    let hand = coins.filter(pred);
    if hand.len() > 0 {
        coins.lemma_filter_pred(pred, 0);
    }
}

/// Every coin that was named by hand is spent, where a selection comes about. Coins of both classes cannot be
/// named together, nor coins of a class that does not cover the payment.
pub proof fn law_named_coins_are_spent(
    result: Result<Seq<CoinView>, WalletError>,
    regular: Seq<CoinView>,
    swap: Seq<CoinView>,
    manual: Seq<OutPoint>,
    need: nat,
    quote: FeeQuote,
    c: CoinView,
)
    requires
        selection_outcome(result, regular, swap, manual, need, quote),
        manual.contains(OutPoint { txid: c.0.txid, vout: c.0.vout }),
        regular.contains(c) || swap.contains(c),
    ensures
        result is Ok ==> result->Ok_0.contains(c),
        regular.contains(c) && result is Ok ==> forall|d: CoinView| #[trigger]
            swap.contains(d) ==> !manual.contains(OutPoint { txid: d.0.txid, vout: d.0.vout }),
        regular.contains(c) && need > total_amount(regular) ==> result is Err,
        swap.contains(c) && need > total_amount(swap) ==> result is Err,
{
    let pred = |c: CoinView| manual.contains(c.0.outpoint());
    assert(manual.contains(c.0.outpoint()));
    if regular.contains(c) {
        lemma_named_by_hand(regular, manual, c);
    }
    if swap.contains(c) {
        lemma_named_by_hand(swap, manual, c);
    }
    assert forall|d: CoinView|
        regular.contains(c) && result is Ok && #[trigger] swap.contains(d) implies !manual.contains(
        OutPoint { txid: d.0.txid, vout: d.0.vout },
    ) by {
        if manual.contains(d.0.outpoint()) {
            lemma_named_by_hand(swap, manual, d);
        }
    }
    if result is Ok {
        let chosen = result->Ok_0;
        let class = if regular.contains(c) {
            regular
        } else {
            swap
        };
        law_selection_by_hand_first(chosen, class, manual, need, quote);
        let hand = by_hand(class, manual);
        lemma_named_by_hand(class, manual, c);
        let j = choose|j: int| 0 <= j < hand.len() && hand[j] == c;
        assert(chosen.take(hand.len() as int) =~= hand);
        assert(chosen[j] == chosen.take(hand.len() as int)[j]);
    }
}

proof fn lemma_named_by_hand(coins: Seq<CoinView>, manual: Seq<OutPoint>, c: CoinView)
    requires
        coins.contains(c),
        manual.contains(c.0.outpoint()),
    ensures
        by_hand(coins, manual).contains(c),
        by_hand(coins, manual).len() > 0,
{
    let pred = |c: CoinView| manual.contains(c.0.outpoint());
    let i = choose|i: int| 0 <= i < coins.len() && coins[i] == c;
    coins.lemma_filter_contains(pred, i);
}

/// A selection spends every coin of an address or none of those that were not named by hand: where it holds
/// such a coin, it holds every other coin of the class at the same address.
pub proof fn law_addresses_are_spent_whole(
    chosen: Seq<CoinView>,
    coins: Seq<CoinView>,
    manual: Seq<OutPoint>,
    need: nat,
    quote: FeeQuote,
    c: CoinView,
    other: CoinView,
)
    requires
        class_outcome(Some(chosen), coins, manual, need, quote),
        chosen.contains(c),
        coins.contains(other),
        !manual.contains(c.0.outpoint()),
        !manual.contains(other.0.outpoint()),
        c.0.address is Some,
        c.0.address == other.0.address,
    ensures
        chosen.contains(other),
{
    let rest = left_over(coins, manual);
    let hand = by_hand(coins, manual);
    let named_pred = |c: CoinView| manual.contains(c.0.outpoint());
    let other_pred = |c: CoinView| !manual.contains(c.0.outpoint());
    let at = choose|i: int| 0 <= i < coins.len() && coins[i] == other;
    coins.lemma_filter_contains(other_pred, at);
    assert(rest.contains(other));
    let (reused, single) = choose|reused: Seq<Seq<CoinView>>, single: Seq<Seq<CoinView>>|
        {
            &&& #[trigger] arranged(reused, single, rest)
            &&& outcome_from(Some(chosen), whole_groups(hand, reused), single, need, quote)
        };
    let groups = whole_groups(hand, reused);
    let part = lemma_chosen_parts(chosen, groups, single, need, quote);
    lemma_joined_contains(part, c);
    let h = choose|h: int| 0 <= h < part.len() && (#[trigger] part[h]).contains(c);
    let g = part[h];
    if hand.len() > 0 && g == hand {
        let j = choose|j: int| 0 <= j < g.len() && g[j] == c;
        coins.lemma_filter_pred(named_pred, j);
        assert(false);
    }
    if groups.contains(g) {
        let i = choose|i: int| 0 <= i < groups.len() && groups[i] == g;
        if hand.len() > 0 {
            assert(reused[i - 1] == g);
        }
        assert(reused.contains(g));
    }
    assert(is_group(g, rest));
    let m = choose|m: int|
        0 <= m < rest.len() && g == crate::grouping::with_key(
            rest,
            crate::grouping::address_key((#[trigger] rest[m]).0),
        );
    let key = crate::grouping::address_key(rest[m].0);
    let j = choose|j: int| 0 <= j < g.len() && g[j] == c;
    crate::grouping::lemma_with_key_uniform(rest, key, j);
    let o = choose|o: int| 0 <= o < rest.len() && rest[o] == other;
    rest.lemma_filter_contains(|c: CoinView| crate::grouping::address_key(c.0) == key, o);
    assert(g.contains(other));
    lemma_contains_joined(part, h, other);
}

/// The groups that a selection is made of.
proof fn lemma_chosen_parts(
    chosen: Seq<CoinView>,
    groups: Seq<Seq<CoinView>>,
    single: Seq<Seq<CoinView>>,
    need: nat,
    quote: FeeQuote,
) -> (part: Seq<Seq<CoinView>>)
    requires
        outcome_from(Some(chosen), groups, single, need, quote),
    ensures
        chosen == joined(part),
        forall|h: int|
            0 <= h < part.len() ==> groups.contains(#[trigger] part[h]) || single.contains(part[h]),
{
    if exists|n: int| #[trigger]
        covers_first(groups, n, need) && chosen == joined(groups.take(n)) {
        let n = choose|n: int| #[trigger]
            covers_first(groups, n, need) && chosen == joined(groups.take(n));
        let part = groups.take(n);
        assert forall|h: int| 0 <= h < part.len() implies groups.contains(#[trigger] part[h])
            || single.contains(part[h]) by {
            assert(groups[h] == part[h]);
        }
        part
    } else {
        let goal = pick_goal(joined(groups), need, quote);
        let picks = choose|picks: Seq<usize>| #[trigger]
            picks_reach(picks, group_totals(single), goal) && chosen == joined(groups) + picked(
                single,
                picks,
            );
        let list = Seq::new(picks.len(), |i: int| single[picks[i] as int]);
        let part = groups + list;
        lemma_joined_concat(groups, list);
        assert forall|h: int| 0 <= h < part.len() implies groups.contains(#[trigger] part[h])
            || single.contains(part[h]) by {
            if h < groups.len() {
                assert(groups[h] == part[h]);
            } else {
                assert(picks[h - groups.len()] < group_totals(single).len());
                assert(single[picks[h - groups.len()] as int] == part[h]);
            }
        }
        part
    }
}

/// A selection ends with what it is needed for: what stands before its last part does not cover the payment.
/// That part is the coins named by hand, the coins of one address, or coins that are each alone at theirs; with
/// the last, the payment is covered with a change output that is no dust on top.
#[verifier::spinoff_prover]
#[verifier::rlimit(40)]
pub proof fn law_selection_has_nothing_to_spare(
    chosen: Seq<CoinView>,
    coins: Seq<CoinView>,
    manual: Seq<OutPoint>,
    need: nat,
    quote: FeeQuote,
)
    requires
        class_outcome(Some(chosen), coins, manual, need, quote),
        need > 0,
    ensures
        exists|m: int|
            {
                &&& 0 <= m < chosen.len()
                &&& total_amount(#[trigger] chosen.take(m)) < need
                &&& is_last_part(chosen.skip(m), coins, manual) || (are_lone(
                    chosen.skip(m),
                    left_over(coins, manual),
                ) && total_amount(chosen) >= need + 294)
            },
{
    let rest = left_over(coins, manual);
    let hand = by_hand(coins, manual);
    let named_pred = |c: CoinView| manual.contains(c.0.outpoint());
    let (reused, single) = choose|reused: Seq<Seq<CoinView>>, single: Seq<Seq<CoinView>>|
        {
            &&& #[trigger] arranged(reused, single, rest)
            &&& outcome_from(Some(chosen), whole_groups(hand, reused), single, need, quote)
        };
    let groups = whole_groups(hand, reused);
    if exists|n: int| #[trigger]
        covers_first(groups, n, need) && chosen == joined(groups.take(n)) {
        let n = choose|n: int| #[trigger]
            covers_first(groups, n, need) && chosen == joined(groups.take(n));
        let before = groups.take(n - 1);
        let last = groups[n - 1];
        assert(groups.take(n) =~= before.push(last));
        lemma_joined_push(before, last);
        let m = joined(before).len() as int;
        assert(chosen.take(m) =~= joined(before));
        assert(chosen.skip(m) =~= last);
        if n == 1 {
            assert(joined(before) =~= Seq::<CoinView>::empty());
        }
        if hand.len() > 0 && n == 1 {
            assert forall|j: int| 0 <= j < last.len() implies manual.contains(
                (#[trigger] last[j]).0.outpoint(),
            ) by {
                coins.lemma_filter_pred(named_pred, j);
            }
        } else {
            let r = if hand.len() == 0 {
                n - 1
            } else {
                n - 2
            };
            assert(reused[r] == last);
            assert(reused.contains(last));
            let i = choose|i: int|
                0 <= i < rest.len() && last == crate::grouping::with_key(
                    rest,
                    crate::grouping::address_key((#[trigger] rest[i]).0),
                );
            assert forall|j: int, k: int|
                0 <= j < last.len() && 0 <= k < last.len() implies crate::grouping::address_key(
                (#[trigger] last[j]).0,
            ) == crate::grouping::address_key((#[trigger] last[k]).0) by {
                crate::grouping::lemma_with_key_uniform(
                    rest,
                    crate::grouping::address_key(rest[i].0),
                    j,
                );
                crate::grouping::lemma_with_key_uniform(
                    rest,
                    crate::grouping::address_key(rest[i].0),
                    k,
                );
            }
        }
        assert(is_last_part(chosen.skip(m), coins, manual));
    } else {
        let goal = pick_goal(joined(groups), need, quote);
        let picks = choose|picks: Seq<usize>| #[trigger]
            picks_reach(picks, group_totals(single), goal) && chosen == joined(groups) + picked(
                single,
                picks,
            );
        let m = joined(groups).len() as int;
        let tail = picked(single, picks);
        assert(chosen.take(m) =~= joined(groups));
        assert(chosen.skip(m) =~= tail);
        assert(groups.take(groups.len() as int) =~= groups);
        if groups.len() == 0 {
            assert(joined(groups) =~= Seq::<CoinView>::empty());
        }
        lemma_value_at(single, picks);
        lemma_total_concat(joined(groups), tail);
        let w = base_weight(joined(groups));
        let rate = quote.min_fee_rate as nat;
        assert(rate * ((w + 3) / 4) >= 0) by (nonlinear_arith)
            requires
                rate >= 0,
                w >= 0,
        ;
        if tail.len() == 0 {
            assert(total_amount(tail) == 0);
        }
        assert forall|j: int| 0 <= j < tail.len() implies is_lone(#[trigger] tail[j], rest) by {
            lemma_picked_lone(single, picks, rest, tail[j]);
        }
        assert(are_lone(chosen.skip(m), rest));
    }
}

proof fn lemma_picked_lone(
    single: Seq<Seq<CoinView>>,
    picks: Seq<usize>,
    rest: Seq<CoinView>,
    c: CoinView,
)
    requires
        forall|g: Seq<CoinView>| #[trigger] single.contains(g) ==> is_group(g, rest) && g.len() == 1,
        forall|i: int| 0 <= i < picks.len() ==> (#[trigger] picks[i]) < single.len(),
        picked(single, picks).contains(c),
    ensures
        is_lone(c, rest),
{
    let list = Seq::new(picks.len(), |i: int| single[picks[i] as int]);
    lemma_joined_contains(list, c);
    let h = choose|h: int| 0 <= h < list.len() && (#[trigger] list[h]).contains(c);
    assert(picks[h] < single.len());
    let g = list[h];
    assert(single[picks[h] as int] == g);
    assert(single.contains(g));
    let i = choose|i: int|
        0 <= i < rest.len() && g == crate::grouping::with_key(
            rest,
            crate::grouping::address_key((#[trigger] rest[i]).0),
        );
    let j = choose|j: int| 0 <= j < g.len() && g[j] == c;
    crate::grouping::lemma_with_key_uniform(rest, crate::grouping::address_key(rest[i].0), j);
}

/// Whether coins are what was named by hand, or all at one address.
pub open spec fn is_last_part(
    part: Seq<CoinView>,
    coins: Seq<CoinView>,
    manual: Seq<OutPoint>,
) -> bool {
    ||| forall|j: int| 0 <= j < part.len() ==> manual.contains((#[trigger] part[j]).0.outpoint())
    ||| forall|j: int, k: int|
        0 <= j < part.len() && 0 <= k < part.len() ==> crate::grouping::address_key(
            (#[trigger] part[j]).0,
        ) == crate::grouping::address_key((#[trigger] part[k]).0)
}

/// Whether a coin is the only one of a list at its address.
pub open spec fn is_lone(c: CoinView, coins: Seq<CoinView>) -> bool {
    crate::grouping::with_key(coins, crate::grouping::address_key(c.0)).len() == 1
}

/// Whether each coin is the only one of a list at its address.
pub open spec fn are_lone(part: Seq<CoinView>, coins: Seq<CoinView>) -> bool {
    forall|j: int| 0 <= j < part.len() ==> is_lone(#[trigger] part[j], coins)
}

/// Of the addresses that hold several coins, those that are worth less are spent first.
pub proof fn law_smaller_addresses_first(
    chosen: Seq<CoinView>,
    coins: Seq<CoinView>,
    manual: Seq<OutPoint>,
    need: nat,
    quote: FeeQuote,
    small: CoinView,
    large: CoinView,
)
    requires
        class_outcome(Some(chosen), coins, manual, need, quote),
        left_over(coins, manual).contains(small),
        left_over(coins, manual).contains(large),
        !manual.contains(large.0.outpoint()),
        ({
            let at_small = crate::grouping::with_key(
                left_over(coins, manual),
                crate::grouping::address_key(small.0),
            );
            let at_large = crate::grouping::with_key(
                left_over(coins, manual),
                crate::grouping::address_key(large.0),
            );
            &&& at_small.len() > 1
            &&& at_large.len() > 1
            &&& total_amount(at_small) < total_amount(at_large)
        }),
        chosen.contains(large),
    ensures
        chosen.contains(small),
{
    let rest = left_over(coins, manual);
    let hand = by_hand(coins, manual);
    let named_pred = |c: CoinView| manual.contains(c.0.outpoint());
    let (reused, single) = choose|reused: Seq<Seq<CoinView>>, single: Seq<Seq<CoinView>>|
        {
            &&& #[trigger] arranged(reused, single, rest)
            &&& outcome_from(Some(chosen), whole_groups(hand, reused), single, need, quote)
        };
    let groups = whole_groups(hand, reused);
    let at_small = crate::grouping::with_key(rest, crate::grouping::address_key(small.0));
    let at_large = crate::grouping::with_key(rest, crate::grouping::address_key(large.0));
    let i = choose|i: int| 0 <= i < rest.len() && rest[i] == small;
    let k = choose|k: int| 0 <= k < rest.len() && rest[k] == large;
    crate::grouping::lemma_with_key_contains(rest, i);
    crate::grouping::lemma_with_key_contains(rest, k);
    assert(is_group(at_small, rest));
    assert(is_group(at_large, rest));
    assert(reused.contains(at_small));
    assert(reused.contains(at_large));
    let r = choose|r: int| 0 <= r < reused.len() && reused[r] == at_small;
    let t = choose|t: int| 0 <= t < reused.len() && reused[t] == at_large;
    assert(r < t) by {
        if t < r {
            assert(total_amount(reused[t]) <= total_amount(reused[r]));
        }
    }
    let shift: int = if hand.len() == 0 {
        0
    } else {
        1
    };
    assert(groups[r + shift] == at_small);
    lemma_contains_joined(groups, r + shift, small);
    if exists|n: int| #[trigger]
        covers_first(groups, n, need) && chosen == joined(groups.take(n)) {
        let n = choose|n: int| #[trigger]
            covers_first(groups, n, need) && chosen == joined(groups.take(n));
        let part = groups.take(n);
        lemma_joined_contains(part, large);
        let h = choose|h: int| 0 <= h < part.len() && (#[trigger] part[h]).contains(large);
        let g = part[h];
        assert(g == groups[h]);
        let j = choose|j: int| 0 <= j < g.len() && g[j] == large;
        if hand.len() > 0 && h == 0 {
            coins.lemma_filter_pred(named_pred, j);
            assert(false);
        }
        assert(reused[h - shift] == g);
        assert(reused.contains(g));
        let m = choose|m: int|
            0 <= m < rest.len() && g == crate::grouping::with_key(
                rest,
                crate::grouping::address_key((#[trigger] rest[m]).0),
            );
        crate::grouping::lemma_with_key_uniform(rest, crate::grouping::address_key(rest[m].0), j);
        assert(g == at_large);
        assert(h - shift == t);
        assert(part[r + shift] == at_small);
        lemma_contains_joined(part, r + shift, small);
    } else {
        let goal = pick_goal(joined(groups), need, quote);
        let picks = choose|picks: Seq<usize>| #[trigger]
            picks_reach(picks, group_totals(single), goal) && chosen == joined(groups) + picked(
                single,
                picks,
            );
        let j = choose|j: int| 0 <= j < joined(groups).len() && joined(groups)[j] == small;
        assert(chosen[j] == small);
    }
}

/// Coins at the same address are told to be so, and coins at different addresses are told apart; coins
/// without an address go by their scripts.
pub proof fn law_coins_group_by_address(a: CoinView, b: CoinView)
    ensures
        a.0.address is Some && b.0.address is Some ==> (crate::grouping::address_key(a.0)
            == crate::grouping::address_key(b.0) <==> a.0.address == b.0.address),
        a.0.address is None && b.0.address is None && a.0.script_pub_key == b.0.script_pub_key
            ==> crate::grouping::address_key(a.0) == crate::grouping::address_key(b.0),
        a.0.address is None && b.0.address is None && crate::grouping::script_display(
            a.0.script_pub_key,
        ) != crate::grouping::script_display(b.0.script_pub_key) ==> crate::grouping::address_key(
            a.0,
        ) != crate::grouping::address_key(b.0),
{
    if a.0.address is None && b.0.address is None {
        let x = crate::grouping::script_display(a.0.script_pub_key);
        let y = crate::grouping::script_display(b.0.script_pub_key);
        let p = "script_"@;
        assert((p + x).skip(p.len() as int) =~= x);
        assert((p + y).skip(p.len() as int) =~= y);
    }
}

/// What is yet to be picked is what the payment needs beyond what was taken, a change output of 294 satoshis, and
/// the least fee of a payment that spends what was taken.
pub proof fn law_picks_pay_change_and_fee(
    taken: Seq<CoinView>,
    need: nat,
    quote: FeeQuote,
    weight: nat,
)
    requires
        need >= total_amount(taken),
        base_weight(taken) == 4 * weight,
    ensures
        pick_goal(taken, need, quote) == need - total_amount(taken) + 294 + quote.min_fee_rate
            * weight,
{
    assert((4 * weight + 3) / 4 == weight);
}

/// Where funds are said to be lacking, the message is exact: either neither class of coins covers the payment, and
/// the larger of the two is told against what is needed; or a class covers it without a selection coming about, and
/// the class is told against what is needed with a change output of 294 satoshis.
pub proof fn law_lacking_funds_are_told_exactly(
    error: WalletError,
    regular: Seq<CoinView>,
    swap: Seq<CoinView>,
    manual: Seq<OutPoint>,
    need: nat,
    quote: FeeQuote,
)
    requires
        need > 0,
        selection_outcome(Err(error), regular, swap, manual, need, quote),
    ensures
        error matches WalletError::InsufficientFund { available, required } ==> {
            ||| required == need && need > available && available >= total_amount(regular)
                && available >= total_amount(swap) && (available == total_amount(regular)
                || available == total_amount(swap))
            ||| required == need + 294 && need <= available && available == total_amount(regular)
                && class_outcome(None, regular, manual, need, quote)
            ||| required == need + 294 && need <= available && available == total_amount(swap)
                && class_outcome(None, swap, manual, need, quote)
        },
        error is InsufficientFund || error is General,
        need <= total_amount(regular) && need <= total_amount(swap) && manual.len() == 0 ==> error
            is InsufficientFund && class_outcome(None, regular, manual, need, quote)
            && class_outcome(None, swap, manual, need, quote),
{
    if manual.len() == 0 {
        assert(manual =~= Seq::empty());
        lemma_nothing_by_hand(regular);
        lemma_nothing_by_hand(swap);
    }
    if regular.len() == 0 {
        assert(total_amount(regular) == 0);
    }
    if swap.len() == 0 {
        assert(total_amount(swap) == 0);
    }
}

/// Swap coins are spent only where the regular ones do not cover the payment, or no selection of them came about,
/// or swap coins were named by hand.
pub proof fn law_regular_coins_go_first(
    chosen: Seq<CoinView>,
    regular: Seq<CoinView>,
    swap: Seq<CoinView>,
    need: nat,
    quote: FeeQuote,
    c: CoinView,
)
    requires
        need > 0,
        selection_outcome(Ok(chosen), regular, swap, Seq::empty(), need, quote),
        chosen.contains(c),
        !regular.contains(c),
    ensures
        swap.contains(c),
        need > total_amount(regular) || class_outcome(None, regular, Seq::empty(), need, quote),
        need <= total_amount(swap),
{
    let none = Seq::<OutPoint>::empty();
    lemma_nothing_by_hand(regular);
    lemma_nothing_by_hand(swap);
    if class_outcome(Some(chosen), regular, none, need, quote) {
        law_selection_within_class(chosen, regular, none, need, quote, c);
    }
    if class_outcome(Some(chosen), swap, none, need, quote) {
        law_selection_within_class(chosen, swap, none, need, quote, c);
    }
}

/// The coins that are named are those of the list that was given, and none where none was.
pub proof fn law_names_are_those_given(outpoints: Vec<OutPoint>)
    ensures
        named(Some(outpoints)) == outpoints@,
        named(None).len() == 0,
{
}

/// A coin that is named goes to those by hand and every other one is left over, each in its order.
pub proof fn law_naming_parts_the_coins(coins: Seq<CoinView>, c: CoinView, manual: Seq<OutPoint>)
    ensures
        ({
            let outpoint = OutPoint { txid: c.0.txid, vout: c.0.vout };
            &&& manual.contains(outpoint) ==> by_hand(coins.push(c), manual) == by_hand(
                coins,
                manual,
            ).push(c) && left_over(coins.push(c), manual) == left_over(coins, manual)
            &&& !manual.contains(outpoint) ==> by_hand(coins.push(c), manual) == by_hand(
                coins,
                manual,
            ) && left_over(coins.push(c), manual) == left_over(coins, manual).push(c)
        }),
        by_hand(Seq::empty(), manual).len() == 0,
        left_over(Seq::empty(), manual).len() == 0,
{
    reveal(Seq::filter);
    coins.lemma_filter_push(c, |c: CoinView| manual.contains(c.0.outpoint()));
    coins.lemma_filter_push(c, |c: CoinView| !manual.contains(c.0.outpoint()));
}

/// Where coins that were named by hand cover the payment, no others are spent, even where they cover it to the
/// satoshi.
pub proof fn law_sufficient_names_are_all_that_is_spent(
    chosen: Seq<CoinView>,
    coins: Seq<CoinView>,
    manual: Seq<OutPoint>,
    need: nat,
    quote: FeeQuote,
)
    requires
        class_outcome(Some(chosen), coins, manual, need, quote),
        by_hand(coins, manual).len() > 0,
        total_amount(by_hand(coins, manual)) >= need,
    ensures
        chosen == by_hand(coins, manual),
{
    let rest = left_over(coins, manual);
    let hand = by_hand(coins, manual);
    let (reused, single) = choose|reused: Seq<Seq<CoinView>>, single: Seq<Seq<CoinView>>|
        {
            &&& #[trigger] arranged(reused, single, rest)
            &&& outcome_from(Some(chosen), whole_groups(hand, reused), single, need, quote)
        };
    let groups = whole_groups(hand, reused);
    let first = groups.take(1);
    assert(first.drop_last() =~= Seq::<Seq<CoinView>>::empty());
    assert(joined(first.drop_last()) =~= Seq::<CoinView>::empty());
    assert(first.last() == hand);
    assert(joined(first) =~= hand);
    assert(total_amount(joined(groups.take(1))) >= need);
}

proof fn lemma_filter_distinct(coins: Seq<CoinView>, pred: spec_fn(CoinView) -> bool)
    requires
        coins.no_duplicates(),
    ensures
        coins.filter(pred).no_duplicates(),
    decreases coins.len(),
{
    reveal(Seq::filter);
    if coins.len() > 0 {
        let before = coins.drop_last();
        let last = coins.last();
        lemma_filter_distinct(before, pred);
        assert(coins =~= before.push(last));
        before.lemma_filter_push(last, pred);
        if before.filter(pred).contains(last) {
            before.lemma_filter_contains_rev(pred, last);
            let i = choose|i: int| 0 <= i < before.len() && before[i] == last;
            assert(coins[i] == coins[coins.len() - 1]);
        }
        if pred(last) {
            let kept = before.filter(pred);
            assert forall|i: int, j: int|
                0 <= i < kept.len() + 1 && 0 <= j < kept.len() + 1 && i != j implies kept.push(
                last,
            )[i] != kept.push(last)[j] by {
                if i == kept.len() {
                    assert(kept.contains(kept[j]));
                } else if j == kept.len() {
                    assert(kept.contains(kept[i]));
                }
            }
        }
    }
}

/// Whether groups have no coin twice and no coin in common.
spec fn are_apart(groups: Seq<Seq<CoinView>>) -> bool {
    &&& forall|h: int| 0 <= h < groups.len() ==> (#[trigger] groups[h]).no_duplicates()
    &&& forall|h: int, k: int, c: CoinView|
        0 <= h < k < groups.len() && #[trigger] groups[h].contains(c) ==> !(
        #[trigger] groups[k].contains(c))
}

proof fn lemma_joined_distinct(groups: Seq<Seq<CoinView>>)
    requires
        are_apart(groups),
    ensures
        joined(groups).no_duplicates(),
    decreases groups.len(),
{
    if groups.len() > 0 {
        let before = groups.drop_last();
        let n = groups.len() - 1;
        assert forall|h: int| 0 <= h < before.len() implies (
        #[trigger] before[h]).no_duplicates() by {
            assert(groups[h].no_duplicates());
        }
        assert forall|h: int, k: int, c: CoinView|
            0 <= h < k < before.len() && #[trigger] before[h].contains(c) implies !(
        #[trigger] before[k].contains(c)) by {
            assert(groups[h].contains(c));
            assert(groups[k] == before[k]);
        }
        lemma_joined_distinct(before);
        let a = joined(before);
        let b = groups.last();
        assert(groups[n].no_duplicates());
        assert forall|i: int, j: int| 0 <= i < a.len() && 0 <= j < b.len() implies a[i] != b[j] by {
            if a[i] == b[j] {
                assert(a.contains(a[i]));
                lemma_joined_contains(before, a[i]);
                let h = choose|h: int| 0 <= h < before.len() && (#[trigger] before[h]).contains(a[i]);
                assert(groups[h].contains(a[i]));
                assert(groups[n].contains(a[i]));
            }
        }
        vstd::seq_lib::lemma_no_dup_in_concat(a, b);
    }
}

proof fn lemma_group_of(g: Seq<CoinView>, rest: Seq<CoinView>, c: CoinView)
    requires
        is_group(g, rest),
        g.contains(c),
    ensures
        g == crate::grouping::with_key(rest, crate::grouping::address_key(c.0)),
        rest.contains(c),
{
    let m = choose|m: int|
        0 <= m < rest.len() && g == crate::grouping::with_key(
            rest,
            crate::grouping::address_key((#[trigger] rest[m]).0),
        );
    let j = choose|j: int| 0 <= j < g.len() && g[j] == c;
    crate::grouping::lemma_with_key_uniform(rest, crate::grouping::address_key(rest[m].0), j);
}

proof fn lemma_group_distinct(g: Seq<CoinView>, rest: Seq<CoinView>)
    requires
        rest.no_duplicates(),
        is_group(g, rest),
    ensures
        g.no_duplicates(),
{
    let m = choose|m: int|
        0 <= m < rest.len() && g == crate::grouping::with_key(
            rest,
            crate::grouping::address_key((#[trigger] rest[m]).0),
        );
    let key = crate::grouping::address_key(rest[m].0);
    lemma_filter_distinct(rest, |c: CoinView| crate::grouping::address_key(c.0) == key);
}

/// No coin is spent twice: a selection among coins that are all different holds each at most once.
pub proof fn law_no_coin_is_spent_twice(
    chosen: Seq<CoinView>,
    coins: Seq<CoinView>,
    manual: Seq<OutPoint>,
    need: nat,
    quote: FeeQuote,
)
    requires
        class_outcome(Some(chosen), coins, manual, need, quote),
        coins.no_duplicates(),
    ensures
        chosen.no_duplicates(),
{
    let rest = left_over(coins, manual);
    let hand = by_hand(coins, manual);
    let (reused, single) = choose|reused: Seq<Seq<CoinView>>, single: Seq<Seq<CoinView>>|
        {
            &&& #[trigger] arranged(reused, single, rest)
            &&& outcome_from(Some(chosen), whole_groups(hand, reused), single, need, quote)
        };
    let groups = whole_groups(hand, reused);
    if exists|n: int| #[trigger]
        covers_first(groups, n, need) && chosen == joined(groups.take(n)) {
        let n = choose|n: int| #[trigger]
            covers_first(groups, n, need) && chosen == joined(groups.take(n));
        lemma_parts_apart(coins, manual, reused, single, Seq::empty(), groups.take(n), n);
    } else {
        let goal = pick_goal(joined(groups), need, quote);
        let picks = choose|picks: Seq<usize>| #[trigger]
            picks_reach(picks, group_totals(single), goal) && chosen == joined(groups) + picked(
                single,
                picks,
            );
        let list = Seq::new(picks.len(), |i: int| single[picks[i] as int]);
        lemma_joined_concat(groups, list);
        assert(groups.take(groups.len() as int) =~= groups);
        lemma_parts_apart(
            coins,
            manual,
            reused,
            single,
            picks,
            groups + list,
            groups.len() as int,
        );
    }
}

proof fn lemma_parts_apart(
    coins: Seq<CoinView>,
    manual: Seq<OutPoint>,
    reused: Seq<Seq<CoinView>>,
    single: Seq<Seq<CoinView>>,
    picks: Seq<usize>,
    part: Seq<Seq<CoinView>>,
    n: int,
)
    requires
        coins.no_duplicates(),
        arranged(reused, single, left_over(coins, manual)),
        0 <= n <= whole_groups(by_hand(coins, manual), reused).len(),
        part == whole_groups(by_hand(coins, manual), reused).take(n) + Seq::new(
            picks.len(),
            |i: int| single[picks[i] as int],
        ),
        picks.no_duplicates(),
        forall|i: int| 0 <= i < picks.len() ==> (#[trigger] picks[i]) < single.len(),
    ensures
        joined(part).no_duplicates(),
{
    let rest = left_over(coins, manual);
    let hand = by_hand(coins, manual);
    let named_pred = |c: CoinView| manual.contains(c.0.outpoint());
    let other_pred = |c: CoinView| !manual.contains(c.0.outpoint());
    lemma_filter_distinct(coins, named_pred);
    lemma_filter_distinct(coins, other_pred);
    let groups = whole_groups(hand, reused);
    let shift: int = if hand.len() == 0 {
        0
    } else {
        1
    };
    assert forall|h: int| 0 <= h < part.len() implies (#[trigger] part[h]).no_duplicates() && (shift
        == 1 && h == 0 && h < n || is_group(part[h], rest)) by {
        if h < n {
            assert(part[h] == groups[h]);
            if h >= shift {
                assert(reused[h - shift] == part[h]);
                assert(reused.contains(part[h]));
                lemma_group_distinct(part[h], rest);
            }
        } else {
            assert(picks[h - n] < single.len());
            assert(single[picks[h - n] as int] == part[h]);
            assert(single.contains(part[h]));
            lemma_group_distinct(part[h], rest);
        }
    }
    assert forall|h: int, k: int, c: CoinView|
        0 <= h < k < part.len() && #[trigger] part[h].contains(c) implies !(
    #[trigger] part[k].contains(c)) by {
        if part[k].contains(c) {
            assert(part[k].no_duplicates());
            lemma_group_of(part[k], rest, c);
            if shift == 1 && h == 0 && h < n {
                assert(part[0] == groups[0]);
                let j = choose|j: int| 0 <= j < hand.len() && hand[j] == c;
                coins.lemma_filter_pred(named_pred, j);
                let r = choose|r: int| 0 <= r < rest.len() && rest[r] == c;
                coins.lemma_filter_pred(other_pred, r);
            } else {
                assert(part[h].no_duplicates());
                lemma_group_of(part[h], rest, c);
                assert(part[h] == part[k]);
                if k < n {
                    assert(part[h] == reused[h - shift] && part[k] == reused[k - shift]);
                } else if h < n {
                    assert(reused[h - shift] == part[h]);
                    assert(reused.contains(part[h]));
                    assert(picks[k - n] < single.len());
                    assert(single[picks[k - n] as int] == part[k]);
                    assert(single.contains(part[k]));
                } else {
                    assert(picks[h - n] < single.len() && picks[k - n] < single.len());
                    assert(single[picks[h - n] as int] == single[picks[k - n] as int]);
                    assert(picks[h - n] == picks[k - n]);
                }
            }
        }
    }
    lemma_joined_distinct(part);
}

/// A selection can be made for any payment within the supply of the currency: among up to a hundred thousand coins,
/// at a least rate of up to a million satoshis.
pub proof fn law_payments_within_the_supply_fit(
    coins: Seq<CoinView>,
    need: nat,
    quote: FeeQuote,
)
    requires
        total_amount(coins) <= 2_100_000_000_000_000,
        need <= 2_100_000_000_000_000,
        coins.len() <= 100_000,
        quote.min_fee_rate <= 1_000_000,
    ensures
        class_fits(coins, need, quote),
{
    lemma_weight_bounds(coins);
    let r = (2 * quote.min_fee_rate + 2000) as int;
    let k = (597 + total_weight(coins) + 344 * MAX_SPLITS) as int;
    assert(r * k <= 2_002_000 * 40_000_000) by (nonlinear_arith)
        requires
            0 <= r <= 2_002_000,
            0 <= k <= 40_000_000,
    ;
}

/// What was named by hand is a choice where nothing was named, or where each name is that of a coin of one class and
/// there are as many coins as names.
pub proof fn law_whole_choices_fit(
    manual: Seq<OutPoint>,
    regular: Seq<CoinView>,
    swap: Seq<CoinView>,
    need: nat,
)
    ensures
        manual.len() == 0 ==> manual_fits(manual, regular, swap, need),
        by_hand(swap, manual).len() == 0 && by_hand(regular, manual).len() == manual.len() && (
        forall|i: int| 0 <= i < manual.len() ==> holds_outpoint(regular, #[trigger] manual[i]))
            ==> manual_fits(manual, regular, swap, need),
        by_hand(regular, manual).len() == 0 && by_hand(swap, manual).len() == manual.len() && (
        forall|i: int| 0 <= i < manual.len() ==> holds_outpoint(swap, #[trigger] manual[i]))
            ==> manual_fits(manual, regular, swap, need),
{
    if manual.len() == 0 {
        assert(manual =~= Seq::empty());
        lemma_nothing_by_hand(regular);
        lemma_nothing_by_hand(swap);
    }
    lemma_held_by_hand(regular, manual);
    lemma_held_by_hand(swap, manual);
}

proof fn lemma_held_by_hand(coins: Seq<CoinView>, manual: Seq<OutPoint>)
    ensures
        forall|i: int|
            0 <= i < manual.len() && holds_outpoint(coins, #[trigger] manual[i])
                ==> holds_outpoint(by_hand(coins, manual), manual[i]),
{
    let hand = by_hand(coins, manual);
    assert forall|i: int|
        0 <= i < manual.len() && holds_outpoint(coins, #[trigger] manual[i]) implies holds_outpoint(
        hand,
        manual[i],
    ) by {
        let j = choose|j: int|
            0 <= j < coins.len() && (#[trigger] coins[j]).0.outpoint() == manual[i];
        lemma_named_by_hand(coins, manual, coins[j]);
        let k = choose|k: int| 0 <= k < hand.len() && hand[k] == coins[j];
        assert(hand[k].0.outpoint() == manual[i]);
    }
}

} // verus!
