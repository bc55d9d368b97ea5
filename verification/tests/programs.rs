use coinswap_wallet::backend::{Auth, BackendConfig};
use coinswap_wallet::cli::{
    choose_backend, count_states, display_makers_with_summary, display_offer, is_yes,
    network_port_search, parse_protocol, protocol_of, reads_yes, rpc_port_search, swap_params,
    BackendArgs, Command, MakerOfferCandidate, MakerState, OfferTexts, StateCounts,
};
use coinswap_wallet::decoy::PrivacyConfig;
use coinswap_wallet::listing::Category;
use coinswap_wallet::primitives::{OutPoint, ProtocolVersion, Txid};
use coinswap_wallet::text::{trimmed, trimmed_end};

fn args(electrum_url: Option<&str>, wallet_name: Option<&str>) -> BackendArgs {
    BackendArgs {
        rpc: "127.0.0.1:38332".to_string(),
        user: "user".to_string(),
        password: "password".to_string(),
        zmq: "tcp://127.0.0.1:28332".to_string(),
        electrum_url: electrum_url.map(|s| s.to_string()),
        wallet_name: wallet_name.map(|s| s.to_string()),
    }
}

#[test]
fn protocols_are_named_in_any_case() {
    assert_eq!(parse_protocol("legacy"), Ok(ProtocolVersion::Legacy));
    assert_eq!(parse_protocol("TapRoot"), Ok(ProtocolVersion::Taproot));
    assert_eq!(
        parse_protocol("Other"),
        Err("Unknown protocol 'Other'. Use 'legacy' or 'taproot'.".to_string())
    );
    assert_eq!(protocol_of("taproot"), Some(ProtocolVersion::Taproot));
    assert_eq!(protocol_of("Taproot"), None);
}

#[test]
fn only_a_yes_is_a_yes() {
    assert!(is_yes("y\n"));
    assert!(is_yes("  YES \n"));
    assert!(!is_yes(""));
    assert!(!is_yes("no"));
    assert!(!is_yes("yess"));
    assert!(reads_yes("y"));
    assert!(reads_yes("yes"));
    assert!(!reads_yes("YES"));
}

#[test]
fn white_space_is_taken_off_at_the_ends() {
    for text in ["", " ", "\t a b \r\n", "x", "\u{3000}x\u{2009}y\u{a0}", "\n\n", "\u{200b} x"] {
        assert_eq!(trimmed(text), text.trim());
        assert_eq!(trimmed_end(text), text.trim_end());
    }
    for c in (0..=0x10FFFF).filter_map(char::from_u32) {
        let text = String::from(c);
        assert_eq!(trimmed(&text).is_empty(), c.is_whitespace());
    }
}

#[test]
fn makers_are_counted_by_state() {
    let states = vec![
        MakerState::Good,
        MakerState::Bad,
        MakerState::Good,
        MakerState::Unresponsive,
    ];
    let counts = count_states(&states);
    assert_eq!(counts, StateCounts { good: 2, bad: 1, unresponsive: 1 });
    assert_eq!(counts.good + counts.bad + counts.unresponsive, states.len());
    assert_eq!(count_states(&vec![]), StateCounts { good: 0, bad: 0, unresponsive: 0 });
}

#[test]
fn makers_are_shown_with_their_offers() {
    let header = "\n    Maker\n    ─────\n    Address        : a.onion\n    Protocol       : Unknown\n    State          : good\n    ";
    let text = |s: &str| s.to_string();
    let mut maker = MakerOfferCandidate {
        address: text("a.onion"),
        protocol: None,
        state: MakerState::Good,
        state_text: text("good"),
        offer: None,
    };
    assert_eq!(display_offer(&maker), header);
    maker.protocol = Some(text("Legacy"));
    maker.offer = Some(OfferTexts {
        base_fee: text("100"),
        amount_fee: text("0.1000"),
        time_fee: text("0.0050"),
        min_size: text("10"),
        max_size: text("20"),
        confirms: text("1"),
        locktime: text("30"),
        outpoint: text("ab:0"),
        bond_value: text("7"),
        expiry: text("900"),
    });
    let shown = display_offer(&maker);
    let expected = "\n    Maker\n    ─────\n    Address        : a.onion\n    Protocol       : Legacy\n    State          : good\n\n    Offer\n    ─────\n    Base Fee       : 100\n    Amount Fee %   : 0.1000\n    Time Fee %     : 0.0050\n\n    Limits\n    ──────\n    Min Size       : 10\n    Max Size       : 20\n    Required Conf. : 1\n    Min Locktime   : 30\n\n    Fidelity Bond\n    ─────────────\n    Outpoint       : ab:0\n    Value          : 7\n    Expiry         : 900\n    ";
    assert_eq!(shown, expected);
    let other = MakerOfferCandidate {
        address: text("b.onion"),
        protocol: None,
        state: MakerState::Bad,
        state_text: text("bad"),
        offer: None,
    };
    let shown_other = display_offer(&other);
    assert_eq!(
        display_makers_with_summary(&vec![maker, other]),
        vec![
            text(expected),
            shown_other,
            text("\nOfferbook summary → good: 1, bad: 1, unresponsive: 0 (total: 2)"),
        ]
    );
}

#[test]
fn commands_log_and_list() {
    assert!(Command::Recover.logs_to_terminal());
    assert!(Command::Restore.logs_to_terminal());
    assert!(!Command::ListOffers.logs_to_terminal());
    assert_eq!(Command::ListUtxo.listed_category(), Some(Category::All));
    assert_eq!(Command::ListUtxoRegular.listed_category(), Some(Category::Descriptor));
    assert_eq!(Command::ListUtxoSwap.listed_category(), Some(Category::IncomingSwap));
    assert_eq!(Command::ListUtxoContract.listed_category(), Some(Category::Timelock));
    assert_eq!(Command::GetBalances.listed_category(), None);
}

#[test]
fn an_electrum_server_goes_before_the_node() {
    match choose_backend(args(Some("tcp://localhost:50001"), None), "taker-wallet") {
        BackendConfig::Electrum(c) => {
            assert_eq!(c.url, "tcp://localhost:50001");
            assert_eq!(c.wallet_name, "taker-wallet");
            assert_eq!(c.privacy, PrivacyConfig::default());
        }
        _ => panic!("the server is due"),
    }
    match choose_backend(args(None, Some("mine")), "taker-wallet") {
        BackendConfig::Bitcoind(c) => {
            assert_eq!(c.url, "127.0.0.1:38332");
            assert_eq!(c.auth, Auth::UserPass("user".to_string(), "password".to_string()));
            assert_eq!(c.wallet_name, "mine");
            assert_eq!(c.zmq_addr, "tcp://127.0.0.1:28332");
        }
        _ => panic!("the node is due"),
    }
}

#[test]
fn swaps_prefer_makers_that_are_named() {
    let place = OutPoint::new(Txid::from_bytes(&vec![1; 32]), 2);
    let params = swap_params(ProtocolVersion::Taproot, 20_000, 2, Some(vec![place]), vec![]);
    assert_eq!(params.protocol, ProtocolVersion::Taproot);
    assert_eq!(params.send_amount, 20_000);
    assert_eq!(params.maker_count, 2);
    assert_eq!(params.manually_selected_outpoints, Some(vec![place]));
    assert_eq!(params.preferred_makers, None);
    let named = vec!["a.onion".to_string()];
    let params = swap_params(ProtocolVersion::Legacy, 1, 3, None, named.clone());
    assert_eq!(params.preferred_makers, Some(named));
}

#[test]
fn makers_look_for_ports() {
    assert_eq!(network_port_search(6102), Some(6102));
    assert_eq!(network_port_search(6103), None);
    assert_eq!(rpc_port_search(6103), 6101);
}
