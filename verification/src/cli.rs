//! The decisions of the command line programs.
use vstd::prelude::*;
use vstd::string::*;
use crate::backend::{Auth, BackendConfig, ElectrumConfig, RPCConfig};
use crate::bytes::option_view;
use crate::decoy::{default_privacy, PrivacyConfig};
use crate::listing::Category;
use crate::primitives::{OutPoint, ProtocolVersion};
use crate::text::{
    contains_seq, decimal, decimal_text, law_text_contains_its_parts, same_text, trimmed,
    trimmed_end, trimmed_end_of, trimmed_of,
};

verus! {

/// The port that a maker listens at before it has found one of its own.
pub const DEFAULT_NETWORK_PORT: u16 = 6102;

/// A text in lower case, by the Unicode rules.
pub uninterp spec fn lowercase_of(text: Seq<char>) -> Seq<char>;

/// Calls `str::to_lowercase`. The contract names the text as a function of the argument.
#[verifier::external_body]
fn lowercase(text: &str) -> (lower: String)
    ensures
        lower@ == lowercase_of(text@),
{
    text.to_lowercase()
}

/// The protocol that a text in lower case names.
pub open spec fn protocol_named(lower: Seq<char>) -> Option<ProtocolVersion> {
    if lower == "legacy"@ {
        Some(ProtocolVersion::Legacy)
    } else if lower == "taproot"@ {
        Some(ProtocolVersion::Taproot)
    } else {
        None
    }
}

/// Reads the name of a protocol that is written in lower case.
pub fn protocol_of(lower: &str) -> (protocol: Option<ProtocolVersion>)
    ensures
        protocol == protocol_named(lower@),
{
    if same_text(lower, "legacy") {
        Some(ProtocolVersion::Legacy)
    } else if same_text(lower, "taproot") {
        Some(ProtocolVersion::Taproot)
    } else {
        None
    }
}

/// Reads the name of a protocol, in upper or lower case. Another text gives an error.
pub fn parse_protocol(s: &str) -> (protocol: Result<ProtocolVersion, String>)
    ensures
        match protocol {
            Ok(p) => protocol_named(lowercase_of(s@)) == Some(p),
            Err(e) => protocol_named(lowercase_of(s@)) is None && e@ == "Unknown protocol '"@ + s@
                + "'. Use 'legacy' or 'taproot'."@,
        },
{
    match protocol_of(lowercase(s).as_str()) {
        Some(protocol) => Ok(protocol),
        None => {
            let mut message = "Unknown protocol '".to_owned();
            message.append(s);
            message.append("'. Use 'legacy' or 'taproot'.");
            Err(message)
        },
    }
}

/// Whether an answer in lower case, without white space around it, is a yes.
pub open spec fn says_yes(answer: Seq<char>) -> bool {
    answer == "y"@ || answer == "yes"@
}

/// Reads an answer in lower case, without white space around it: any other than a yes is a no.
pub fn reads_yes(answer: &str) -> (yes: bool)
    ensures
        yes == says_yes(answer@),
{
    same_text(answer, "y") || same_text(answer, "yes")
}

/// Whether an answer to the question of whether to go on is a yes. Any other answer is a no.
pub fn is_yes(answer: &str) -> (yes: bool)
    ensures
        yes == says_yes(lowercase_of(trimmed_of(answer@))),
{
    reads_yes(lowercase(trimmed(answer).as_str()).as_str())
}

/// How a maker behaved so far.
#[derive(Debug, Clone, Copy, PartialEq, Eq, Structural)]
pub enum MakerState {
    /// It works.
    Good,
    /// It broke the rules.
    Bad,
    /// It does not answer.
    Unresponsive,
}

/// How many makers are in each state.
#[derive(Debug, Clone, Copy, PartialEq, Eq, Structural)]
pub struct StateCounts {
    /// Those that work.
    pub good: usize,
    /// Those that broke the rules.
    pub bad: usize,
    /// Those that do not answer.
    pub unresponsive: usize,
}

/// The number of makers in a state.
pub open spec fn count_of(states: Seq<MakerState>, state: MakerState) -> nat
    decreases states.len(),
{
    if states.len() == 0 {
        0
    } else {
        count_of(states.drop_last(), state) + if states.last() == state {
            1nat
        } else {
            0nat
        }
    }
}

/// Every maker is in one state, so the counts add up to the number of makers.
pub proof fn law_counts_add_up(states: Seq<MakerState>)
    ensures
        count_of(states, MakerState::Good) + count_of(states, MakerState::Bad) + count_of(
            states,
            MakerState::Unresponsive,
        ) == states.len(),
    decreases states.len(),
{
    if states.len() > 0 {
        law_counts_add_up(states.drop_last());
    }
}

/// Counts the makers in each state.
pub fn count_states(states: &Vec<MakerState>) -> (counts: StateCounts)
    ensures
        counts.good == count_of(states@, MakerState::Good),
        counts.bad == count_of(states@, MakerState::Bad),
        counts.unresponsive == count_of(states@, MakerState::Unresponsive),
{
    let mut counts = StateCounts { good: 0, bad: 0, unresponsive: 0 };
    let mut i: usize = 0;
    while i < states.len()
        invariant
            i <= states.len(),
            counts.good == count_of(states@.take(i as int), MakerState::Good),
            counts.bad == count_of(states@.take(i as int), MakerState::Bad),
            counts.unresponsive == count_of(states@.take(i as int), MakerState::Unresponsive),
        decreases states.len() - i,
    {
        proof {
            assert(states@.take(i + 1).drop_last() =~= states@.take(i as int));
            assert(states@.take(i + 1).last() == states@[i as int]);
            law_counts_add_up(states@.take(i as int));
        }
        match states[i] {
            MakerState::Good => {
                counts.good = counts.good + 1;
            },
            MakerState::Bad => {
                counts.bad = counts.bad + 1;
            },
            MakerState::Unresponsive => {
                counts.unresponsive = counts.unresponsive + 1;
            },
        }
        i += 1;
    }
    assert(states@.take(i as int) =~= states@);
    counts
}

/// What a maker offers, in text.
#[derive(Debug)]
pub struct OfferTexts {
    /// The fee of any swap.
    pub base_fee: String,
    /// The fee that grows with the amount, in percent.
    pub amount_fee: String,
    /// The fee that grows with time, in percent.
    pub time_fee: String,
    /// The smallest swap.
    pub min_size: String,
    /// The largest swap.
    pub max_size: String,
    /// The confirmations that the maker asks for.
    pub confirms: String,
    /// The shortest locktime.
    pub locktime: String,
    /// The output of the maker's fidelity bond.
    pub outpoint: String,
    /// The value of the bond.
    pub bond_value: String,
    /// The height at which the bond expires.
    pub expiry: String,
}

/// The text that shows a maker without its offer.
pub open spec fn maker_text(
    address: Seq<char>,
    protocol: Option<Seq<char>>,
    state: Seq<char>,
) -> Seq<char> {
    "\n    Maker\n    ─────\n    Address        : "@ + address + "\n    Protocol       : "@
        + match protocol {
        Some(p) => p,
        None => "Unknown"@,
    } + "\n    State          : "@ + state + "\n    "@
}

/// The text that shows what a maker offers.
pub open spec fn offer_text(offer: OfferTexts) -> Seq<char> {
    "\n\n    Offer\n    ─────\n    Base Fee       : "@ + offer.base_fee@
        + "\n    Amount Fee %   : "@ + offer.amount_fee@ + "\n    Time Fee %     : "@
        + offer.time_fee@ + "\n\n    Limits\n    ──────\n    Min Size       : "@
        + offer.min_size@ + "\n    Max Size       : "@ + offer.max_size@
        + "\n    Required Conf. : "@ + offer.confirms@ + "\n    Min Locktime   : "@
        + offer.locktime@
        + "\n\n    Fidelity Bond\n    ─────────────\n    Outpoint       : "@ + offer.outpoint@
        + "\n    Value          : "@ + offer.bond_value@ + "\n    Expiry         : "@
        + offer.expiry@ + "\n    "@
}

/// Writes what a maker offers below the text that shows the maker.
pub fn write_offer(header: &str, offer: &OfferTexts) -> (text: String)
    ensures
        text@ == header@ + offer_text(*offer),
{
    let mut text = header.to_owned();
    text.append("\n\n    Offer\n    ─────\n    Base Fee       : ");
    text.append(offer.base_fee.as_str());
    text.append("\n    Amount Fee %   : ");
    text.append(offer.amount_fee.as_str());
    text.append("\n    Time Fee %     : ");
    text.append(offer.time_fee.as_str());
    text.append("\n\n    Limits\n    ──────\n    Min Size       : ");
    text.append(offer.min_size.as_str());
    text.append("\n    Max Size       : ");
    text.append(offer.max_size.as_str());
    text.append("\n    Required Conf. : ");
    text.append(offer.confirms.as_str());
    text.append("\n    Min Locktime   : ");
    text.append(offer.locktime.as_str());
    text.append("\n\n    Fidelity Bond\n    ─────────────\n    Outpoint       : ");
    text.append(offer.outpoint.as_str());
    text.append("\n    Value          : ");
    text.append(offer.bond_value.as_str());
    text.append("\n    Expiry         : ");
    text.append(offer.expiry.as_str());
    text.append("\n    ");
    assert(text@ =~= header@ + offer_text(*offer));
    text
}

/// A maker that is known.
#[derive(Debug)]
pub struct MakerOfferCandidate {
    /// Its address.
    pub address: String,
    /// The name of its protocol, where that is known.
    pub protocol: Option<String>,
    /// How it behaved so far.
    pub state: MakerState,
    /// The same in words.
    pub state_text: String,
    /// What it offers, where that is known.
    pub offer: Option<OfferTexts>,
}

/// The text that shows a maker, and what it offers where that is known.
pub open spec fn candidate_text(candidate: MakerOfferCandidate) -> Seq<char> {
    let header = maker_text(
        candidate.address@,
        option_view(candidate.protocol),
        candidate.state_text@,
    );
    match candidate.offer {
        None => header,
        Some(offer) => trimmed_end_of(header) + offer_text(offer),
    }
}

/// Shows a maker, and what it offers where that is known.
pub fn display_offer(candidate: &MakerOfferCandidate) -> (text: String)
    ensures
        text@ == candidate_text(*candidate),
{
    let mut header = "\n    Maker\n    ─────\n    Address        : ".to_owned();
    header.append(candidate.address.as_str());
    header.append("\n    Protocol       : ");
    match &candidate.protocol {
        Some(name) => {
            header.append(name.as_str());
        },
        None => {
            header.append("Unknown");
        },
    }
    header.append("\n    State          : ");
    header.append(candidate.state_text.as_str());
    header.append("\n    ");
    match &candidate.offer {
        None => header,
        Some(offer) => write_offer(trimmed_end(header.as_str()).as_str(), offer),
    }
}

/// The states of the makers of a list.
pub open spec fn states_of(makers: Seq<MakerOfferCandidate>) -> Seq<MakerState> {
    Seq::new(makers.len(), |i: int| makers[i].state)
}

/// The line that sums up the makers of a list.
pub open spec fn summary_text(states: Seq<MakerState>) -> Seq<char> {
    "\nOfferbook summary → good: "@ + decimal(count_of(states, MakerState::Good)) + ", bad: "@
        + decimal(count_of(states, MakerState::Bad)) + ", unresponsive: "@ + decimal(
        count_of(states, MakerState::Unresponsive),
    ) + " (total: "@ + decimal(states.len()) + ")"@
}

/// Shows all makers, one after the other, and a line that sums them up.
pub fn display_makers_with_summary(makers: &Vec<MakerOfferCandidate>) -> (lines: Vec<String>)
    ensures
        lines@.len() == makers@.len() + 1,
        forall|i: int|
            0 <= i < makers@.len() ==> (#[trigger] lines@[i])@ == candidate_text(makers@[i]),
        lines@.last()@ == summary_text(states_of(makers@)),
{
    let mut lines: Vec<String> = Vec::new();
    let mut states: Vec<MakerState> = Vec::new();
    let mut i: usize = 0;
    while i < makers.len()
        invariant
            i <= makers.len(),
            lines@.len() == i,
            states@.len() == i,
            forall|j: int| 0 <= j < i ==> (#[trigger] lines@[j])@ == candidate_text(makers@[j]),
            forall|j: int| 0 <= j < i ==> (#[trigger] states@[j]) == makers@[j].state,
        decreases makers.len() - i,
    {
        lines.push(display_offer(&makers[i]));
        states.push(makers[i].state);
        i += 1;
    }
    assert(states@ =~= states_of(makers@));
    let counts = count_states(&states);
    let mut summary = "\nOfferbook summary → good: ".to_owned();
    summary.append(decimal_text(counts.good as u64).as_str());
    summary.append(", bad: ");
    summary.append(decimal_text(counts.bad as u64).as_str());
    summary.append(", unresponsive: ");
    summary.append(decimal_text(counts.unresponsive as u64).as_str());
    summary.append(" (total: ");
    summary.append(decimal_text(makers.len() as u64).as_str());
    summary.append(")");
    lines.push(summary);
    lines
}

/// The commands of the taker.
#[derive(Debug, Clone, Copy, PartialEq, Eq, Structural)]
pub enum Command {
    /// List all outputs.
    ListUtxo,
    /// List the regular outputs.
    ListUtxoRegular,
    /// List the outputs that were received in swaps.
    ListUtxoSwap,
    /// List the outputs that a timelock opens.
    ListUtxoContract,
    /// Show the balances.
    GetBalances,
    /// Show a new address.
    GetNewAddress,
    /// Pay to an address.
    SendToAddress,
    /// Ask the network for offers, and show them.
    FetchOffers,
    /// Show the offers that are known.
    ListOffers,
    /// Ask one maker for its offer.
    PollMaker,
    /// Forget a maker.
    RemoveMaker,
    /// Swap coins.
    Coinswap,
    /// Recover from failed swaps.
    Recover,
    /// Back the wallet up.
    Backup,
    /// Restore the wallet from a backup.
    Restore,
}

impl Command {
    /// Whether the log of a command goes to the terminal too.
    pub fn logs_to_terminal(self) -> (shown: bool)
        ensures
            shown == (self == Command::Recover || self == Command::FetchOffers || self
                == Command::Backup || self == Command::Restore || self == Command::Coinswap),
    {
        match self {
            Command::Recover
            | Command::FetchOffers
            | Command::Backup
            | Command::Restore
            | Command::Coinswap => true,
            _ => false,
        }
    }

    /// The category of coins that a command lists, if it lists any.
    pub fn listed_category(self) -> (category: Option<Category>)
        ensures
            category == match self {
                Command::ListUtxo => Some(Category::All),
                Command::ListUtxoRegular => Some(Category::Descriptor),
                Command::ListUtxoSwap => Some(Category::IncomingSwap),
                Command::ListUtxoContract => Some(Category::Timelock),
                _ => None,
            },
    {
        match self {
            Command::ListUtxo => Some(Category::All),
            Command::ListUtxoRegular => Some(Category::Descriptor),
            Command::ListUtxoSwap => Some(Category::IncomingSwap),
            Command::ListUtxoContract => Some(Category::Timelock),
            _ => None,
        }
    }
}

/// What a program is told about its backend.
#[derive(Debug)]
pub struct BackendArgs {
    /// The address of the node.
    pub rpc: String,
    /// The user of the node.
    pub user: String,
    /// The user's password.
    pub password: String,
    /// The address of the node's notifications.
    pub zmq: String,
    /// The address of the Electrum server, if one is to be used.
    pub electrum_url: Option<String>,
    /// The name of the wallet, if one is given.
    pub wallet_name: Option<String>,
}

/// The name of the wallet that a program opens.
pub open spec fn chosen_name(given: Option<String>, default_name: Seq<char>) -> Seq<char> {
    match given {
        Some(name) => name@,
        None => default_name,
    }
}

/// Chooses the backend: the Electrum server if one is given, and the node otherwise. The wallet gets
/// the default name where none is given.
pub fn choose_backend(args: BackendArgs, default_name: &str) -> (backend: BackendConfig)
    ensures
        match args.electrum_url {
            Some(url) => {
                &&& backend matches BackendConfig::Electrum(c)
                &&& c.url == url
                &&& c.wallet_name@ == chosen_name(args.wallet_name, default_name@)
                &&& c.privacy == default_privacy()
            },
            None => {
                &&& backend matches BackendConfig::Bitcoind(c)
                &&& c.url == args.rpc
                &&& c.auth == Auth::UserPass(args.user, args.password)
                &&& c.wallet_name@ == chosen_name(args.wallet_name, default_name@)
                &&& c.zmq_addr == args.zmq
            },
        },
{
    let wallet_name = match args.wallet_name {
        Some(name) => name,
        None => default_name.to_owned(),
    };
    match args.electrum_url {
        Some(url) => BackendConfig::Electrum(
            ElectrumConfig { url, wallet_name, privacy: PrivacyConfig::default() },
        ),
        None => BackendConfig::Bitcoind(
            RPCConfig {
                url: args.rpc,
                auth: Auth::UserPass(args.user, args.password),
                wallet_name,
                zmq_addr: args.zmq,
            },
        ),
    }
}

/// What a swap is asked for.
#[derive(Debug)]
pub struct SwapParams {
    /// The protocol.
    pub protocol: ProtocolVersion,
    /// The amount to send, in satoshis.
    pub send_amount: u64,
    /// The number of makers.
    pub maker_count: usize,
    /// The coins to spend, where they were chosen by hand.
    pub manually_selected_outpoints: Option<Vec<OutPoint>>,
    /// The makers to swap with, where they were named.
    pub preferred_makers: Option<Vec<String>>,
}

/// Puts together what a swap is asked for. Makers are preferred where any are named.
pub fn swap_params(
    protocol: ProtocolVersion,
    send_amount: u64,
    maker_count: usize,
    manually_selected_outpoints: Option<Vec<OutPoint>>,
    maker_addresses: Vec<String>,
) -> (params: SwapParams)
    ensures
        params.protocol == protocol,
        params.send_amount == send_amount,
        params.maker_count == maker_count,
        params.manually_selected_outpoints == manually_selected_outpoints,
        params.preferred_makers == if maker_addresses@.len() == 0 {
            None
        } else {
            Some(maker_addresses)
        },
{
    let preferred_makers = if maker_addresses.len() == 0 {
        None
    } else {
        Some(maker_addresses)
    };
    SwapParams {
        protocol,
        send_amount,
        maker_count,
        manually_selected_outpoints,
        preferred_makers,
    }
}

/// The port from which a maker looks for one to listen at, if it has none of its own yet.
pub fn network_port_search(network_port: u16) -> (start: Option<u16>)
    ensures
        start == if network_port == DEFAULT_NETWORK_PORT {
            Some(network_port)
        } else {
            None
        },
{
    if network_port == DEFAULT_NETWORK_PORT {
        Some(network_port)
    } else {
        None
    }
}

/// The port from which a maker looks for one to take commands at.
pub fn rpc_port_search(rpc_port: u16) -> (start: u16)
    requires
        rpc_port >= 2,
    ensures
        start == rpc_port - 2,
{
    rpc_port - 2
}

/// A maker counts in its own state and in no other.
pub proof fn law_maker_counts_in_its_state(
    states: Seq<MakerState>,
    state: MakerState,
    other: MakerState,
)
    requires
        other != state,
    ensures
        count_of(Seq::<MakerState>::empty(), state) == 0,
        count_of(states.push(state), state) == count_of(states, state) + 1,
        count_of(states.push(state), other) == count_of(states, other),
{
    assert(states.push(state).drop_last() =~= states);
}

/// Each of the two protocols goes by its name, and no other name stands for one.
pub proof fn law_protocols_go_by_their_names(lower: Seq<char>)
    ensures
        protocol_named("legacy"@) == Some(ProtocolVersion::Legacy),
        protocol_named("taproot"@) == Some(ProtocolVersion::Taproot),
        lower != "legacy"@ && lower != "taproot"@ ==> protocol_named(lower) is None,
{
    reveal_strlit("legacy");
    reveal_strlit("taproot");
    assert("legacy"@[0] != "taproot"@[0]);
}

/// An answer is a yes where it is `y` or `yes`, and a no otherwise: an empty answer is a no.
pub proof fn law_only_a_yes_is_a_yes(answer: Seq<char>)
    ensures
        says_yes(seq!['y']),
        says_yes(seq!['y', 'e', 's']),
        answer != seq!['y'] && answer != seq!['y', 'e', 's'] ==> !says_yes(answer),
        !says_yes(Seq::empty()),
{
    reveal_strlit("y");
    reveal_strlit("yes");
    assert("y"@ =~= seq!['y']);
    assert("yes"@ =~= seq!['y', 'e', 's']);
}

/// A wallet is opened under the name that was given, or under the default one.
pub proof fn law_given_name_is_chosen(name: String, default_name: Seq<char>)
    ensures
        chosen_name(Some(name), default_name) == name@,
        chosen_name(None, default_name) == default_name,
{
}

proof fn lemma_entry(text: Seq<char>, before: Seq<char>, entry: Seq<char>, after: Seq<char>)
    requires
        text == before + entry + after,
    ensures
        contains_seq(text, entry),
{
    law_text_contains_its_parts(before, entry, after);
}

/// The text of an offer gives each of its values under its own label.
#[verifier::spinoff_prover]
#[verifier::rlimit(60)]
pub proof fn law_offer_is_shown_in_full(offer: OfferTexts)
    ensures
        contains_seq(
            offer_text(offer),
            "\n\n    Offer\n    ─────\n    Base Fee       : "@ + offer.base_fee@,
        ),
        contains_seq(
            offer_text(offer),
            "\n    Amount Fee %   : "@ + offer.amount_fee@,
        ),
        contains_seq(
            offer_text(offer),
            "\n    Time Fee %     : "@ + offer.time_fee@,
        ),
        contains_seq(
            offer_text(offer),
            "\n\n    Limits\n    ──────\n    Min Size       : "@ + offer.min_size@,
        ),
        contains_seq(
            offer_text(offer),
            "\n    Max Size       : "@ + offer.max_size@,
        ),
        contains_seq(
            offer_text(offer),
            "\n    Required Conf. : "@ + offer.confirms@,
        ),
        contains_seq(
            offer_text(offer),
            "\n    Min Locktime   : "@ + offer.locktime@,
        ),
        contains_seq(
            offer_text(offer),
            "\n\n    Fidelity Bond\n    ─────────────\n    Outpoint       : "@ + offer.outpoint@,
        ),
        contains_seq(
            offer_text(offer),
            "\n    Value          : "@ + offer.bond_value@,
        ),
        contains_seq(
            offer_text(offer),
            "\n    Expiry         : "@ + offer.expiry@,
        ),
{
    let text = offer_text(offer);
    let base_fee = "\n\n    Offer\n    ─────\n    Base Fee       : "@ + offer.base_fee@;
    let amount_fee = "\n    Amount Fee %   : "@ + offer.amount_fee@;
    let time_fee = "\n    Time Fee %     : "@ + offer.time_fee@;
    let min_size = "\n\n    Limits\n    ──────\n    Min Size       : "@ + offer.min_size@;
    let max_size = "\n    Max Size       : "@ + offer.max_size@;
    let confirms = "\n    Required Conf. : "@ + offer.confirms@;
    let locktime = "\n    Min Locktime   : "@ + offer.locktime@;
    let outpoint = "\n\n    Fidelity Bond\n    ─────────────\n    Outpoint       : "@ + offer.outpoint@;
    let bond_value = "\n    Value          : "@ + offer.bond_value@;
    let expiry = "\n    Expiry         : "@ + offer.expiry@;
    let after_expiry = "\n    "@;
    let after_bond_value = expiry + after_expiry;
    let after_outpoint = bond_value + after_bond_value;
    let after_locktime = outpoint + after_outpoint;
    let after_confirms = locktime + after_locktime;
    let after_max_size = confirms + after_confirms;
    let after_min_size = max_size + after_max_size;
    let after_time_fee = min_size + after_min_size;
    let after_amount_fee = time_fee + after_time_fee;
    let after_base_fee = amount_fee + after_amount_fee;
    let to_base_fee = Seq::<char>::empty();
    let to_amount_fee = to_base_fee + base_fee;
    let to_time_fee = to_amount_fee + amount_fee;
    let to_min_size = to_time_fee + time_fee;
    let to_max_size = to_min_size + min_size;
    let to_confirms = to_max_size + max_size;
    let to_locktime = to_confirms + confirms;
    let to_outpoint = to_locktime + locktime;
    let to_bond_value = to_outpoint + outpoint;
    let to_expiry = to_bond_value + bond_value;
    assert(text =~= to_base_fee + base_fee + after_base_fee);
    lemma_entry(text, to_base_fee, base_fee, after_base_fee);
    assert(text =~= to_amount_fee + amount_fee + after_amount_fee);
    lemma_entry(text, to_amount_fee, amount_fee, after_amount_fee);
    assert(text =~= to_time_fee + time_fee + after_time_fee);
    lemma_entry(text, to_time_fee, time_fee, after_time_fee);
    assert(text =~= to_min_size + min_size + after_min_size);
    lemma_entry(text, to_min_size, min_size, after_min_size);
    assert(text =~= to_max_size + max_size + after_max_size);
    lemma_entry(text, to_max_size, max_size, after_max_size);
    assert(text =~= to_confirms + confirms + after_confirms);
    lemma_entry(text, to_confirms, confirms, after_confirms);
    assert(text =~= to_locktime + locktime + after_locktime);
    lemma_entry(text, to_locktime, locktime, after_locktime);
    assert(text =~= to_outpoint + outpoint + after_outpoint);
    lemma_entry(text, to_outpoint, outpoint, after_outpoint);
    assert(text =~= to_bond_value + bond_value + after_bond_value);
    lemma_entry(text, to_bond_value, bond_value, after_bond_value);
    assert(text =~= to_expiry + expiry + after_expiry);
    lemma_entry(text, to_expiry, expiry, after_expiry);
}

/// The text of a maker without an offer gives its address, its protocol, or that it is unknown, and its state.
pub proof fn law_maker_is_shown(address: Seq<char>, protocol: Option<Seq<char>>, state: Seq<char>)
    ensures
        contains_seq(
            maker_text(address, protocol, state),
            "\n    Maker\n    ─────\n    Address        : "@ + address,
        ),
        contains_seq(
            maker_text(address, protocol, state),
            "\n    Protocol       : "@ + (if protocol is Some {
                protocol->Some_0
            } else {
                "Unknown"@
            }),
        ),
        contains_seq(
            maker_text(address, protocol, state),
            "\n    State          : "@ + state,
        ),
{
    let none = Seq::<char>::empty();
    let a = "\n    Maker\n    ─────\n    Address        : "@ + address;
    let p = "\n    Protocol       : "@ + (if protocol is Some {
        protocol->Some_0
    } else {
        "Unknown"@
    });
    let s = "\n    State          : "@ + state;
    let end = "\n    "@;
    let whole = a + p + s + end;
    assert(maker_text(address, protocol, state) =~= whole);
    law_text_contains_its_parts(none, a, p + s + end);
    assert(none + a + (p + s + end) =~= whole);
    law_text_contains_its_parts(a, p, s + end);
    assert(a + p + (s + end) =~= whole);
    law_text_contains_its_parts(a + p, s, end);
}

/// A maker is shown by its own address, protocol and state, and what it offers behind them; the line that sums makers
/// up counts those in each state.
pub proof fn law_candidate_is_shown_with_its_offer(candidate: MakerOfferCandidate, states: Seq<MakerState>)
    ensures
        candidate.offer is None ==> candidate_text(candidate) == maker_text(
            candidate.address@,
            option_view(candidate.protocol),
            candidate.state_text@,
        ),
        candidate.offer matches Some(offer) ==> offer_text(offer).is_suffix_of(
            candidate_text(candidate),
        ),
        contains_seq(
            summary_text(states),
            "\nOfferbook summary → good: "@ + decimal(count_of(states, MakerState::Good)),
        ),
        contains_seq(
            summary_text(states),
            ", bad: "@ + decimal(count_of(states, MakerState::Bad)),
        ),
        contains_seq(
            summary_text(states),
            ", unresponsive: "@ + decimal(count_of(states, MakerState::Unresponsive)),
        ),
        contains_seq(summary_text(states), " (total: "@ + decimal(states.len())),
{
    let none = Seq::<char>::empty();
    let g = "\nOfferbook summary → good: "@ + decimal(count_of(states, MakerState::Good));
    let b = ", bad: "@ + decimal(count_of(states, MakerState::Bad));
    let u = ", unresponsive: "@ + decimal(count_of(states, MakerState::Unresponsive));
    let t = " (total: "@ + decimal(states.len());
    let end = ")"@;
    let whole = g + b + u + t + end;
    assert(summary_text(states) =~= whole);
    law_text_contains_its_parts(none, g, b + u + t + end);
    assert(none + g + (b + u + t + end) =~= whole);
    law_text_contains_its_parts(g, b, u + t + end);
    assert(g + b + (u + t + end) =~= whole);
    law_text_contains_its_parts(g + b, u, t + end);
    assert((g + b) + u + (t + end) =~= whole);
    law_text_contains_its_parts(g + b + u, t, end);
}

} // verus!
