use coinswap_wallet::backend::{BitcoindBackend, RPCConfig};
use coinswap_wallet::bytes::ScriptBuf;
use coinswap_wallet::coin_select::{
    estimated_tx_vbytes, select_coins, selection_from_answer, selection_options,
    ExcessStrategy as Excess, FeeQuote,
};
use coinswap_wallet::error::WalletError;
use coinswap_wallet::keys::Xpriv;
use coinswap_wallet::primitives::{AddressType, KeychainKind, Network, OutPoint, Txid};
use coinswap_wallet::spend_info::{Balances, ListUnspentResultEntry, UTXOSpendInfo};
use coinswap_wallet::store::WalletStore;
use coinswap_wallet::wallet::Wallet;
use rust_coinselect::types::{CoinSelectionOpt, ExcessStrategy};

fn wallet() -> Wallet<BitcoindBackend> {
    let key = bitcoin::bip32::Xpriv::new_master(bitcoin::Network::Regtest, &[7u8; 32]).unwrap();
    let master = Xpriv { bytes: key.encode().to_vec() };
    Wallet {
        rpc: BitcoindBackend { config: RPCConfig::default() },
        store: WalletStore::new("w".to_string(), Network::Regtest, master, None),
    }
}

fn utxo(n: u8, address: u8, amount: u64, confirmations: u32) -> ListUnspentResultEntry {
    ListUnspentResultEntry {
        txid: Txid::from_bytes(&vec![n; 32]),
        vout: 0,
        address: Some(format!("address-{address}")),
        label: None,
        redeem_script: None,
        witness_script: None,
        script_pub_key: ScriptBuf::from_bytes(vec![address]),
        amount,
        confirmations,
        spendable: true,
        solvable: true,
        descriptor: Some(format!("tr([aabbccdd/1/{n}]02)")),
        safe: true,
    }
}

fn regular(amount: u64) -> UTXOSpendInfo {
    UTXOSpendInfo::SeedCoin {
        path: "m/0/1".to_string(),
        input_value: amount,
        address_type: AddressType::P2TR,
    }
}

fn swept(amount: u64) -> UTXOSpendInfo {
    UTXOSpendInfo::SweptCoin {
        path: "m/0/1".to_string(),
        input_value: amount,
        address_type: AddressType::P2TR,
    }
}

fn received(n: u8) -> UTXOSpendInfo {
    UTXOSpendInfo::IncomingSwapCoin { multisig_redeemscript: ScriptBuf::from_bytes(vec![n]) }
}

fn quote(estimated_fee: u64) -> FeeQuote {
    FeeQuote {
        estimated_fee,
        cost_of_change: 656,
        min_fee_rate: 2,
        rates: CoinSelectionOpt {
            target_value: 0,
            target_feerate: 0.5,
            long_term_feerate: Some(10.0),
            min_absolute_fee: 0,
            base_weight: 0,
            change_weight: 0,
            change_cost: 0,
            avg_input_weight: 0,
            avg_output_weight: 0,
            min_change_value: 0,
            excess_strategy: ExcessStrategy::ToChange,
        },
    }
}

fn with_coins(
    coins: Vec<(ListUnspentResultEntry, UTXOSpendInfo)>,
) -> Wallet<BitcoindBackend> {
    let mut wallet = wallet();
    for (utxo, info) in coins {
        let outpoint = utxo.outpoint();
        wallet.store.utxo_cache.insert(outpoint, (utxo, info));
    }
    wallet
}

fn place(n: u8) -> OutPoint {
    OutPoint::new(Txid::from_bytes(&vec![n; 32]), 0)
}

fn places(coins: &[(ListUnspentResultEntry, UTXOSpendInfo)]) -> Vec<OutPoint> {
    coins.iter().map(|c| c.0.outpoint()).collect()
}

#[test]
fn sizes_are_estimated_before_coins_are_known() {
    assert_eq!(estimated_tx_vbytes(&None), 213);
    assert_eq!(estimated_tx_vbytes(&Some(vec![])), 97);
    assert_eq!(estimated_tx_vbytes(&Some(vec![place(1)])), 155);
    assert_eq!(estimated_tx_vbytes(&Some(vec![place(1), place(2)])), 213);
    assert_eq!(estimated_tx_vbytes(&Some(vec![place(1), place(2), place(3)])), 270);
}

#[test]
fn a_search_is_given_what_the_taken_coins_leave_open() {
    let coins = vec![
        (utxo(1, 1, 50_000, 1), regular(50_000)),
        (utxo(2, 2, 6_000, 1), regular(6_000)),
        (utxo(4, 2, 5_000, 1), regular(5_000)),
    ];
    let taken = vec![
        (utxo(2, 2, 6_000, 1), regular(6_000)),
        (utxo(4, 2, 5_000, 1), regular(5_000)),
    ];
    let options = selection_options(&coins, &taken, 20_500, &quote(500));
    assert_eq!(options.target_value, 9_500);
    assert_eq!(options.min_absolute_fee, 1_112);
    assert_eq!(options.base_weight, 2_221);
    assert_eq!(options.change_weight, 172);
    assert_eq!(options.change_cost, 656);
    assert_eq!(options.avg_input_weight, 229);
    assert_eq!(options.avg_output_weight, 172);
    assert_eq!(options.min_change_value, 294);
    assert_eq!(options.excess_strategy, Excess::ToChange);
    assert_eq!(selection_options(&coins, &taken, 11_000, &quote(500)).target_value, 0);
}

#[test]
fn the_answer_of_a_search_decides() {
    let coin = |n: u8| (utxo(n, n, 10, 1), regular(10));
    let single = vec![vec![coin(1)], vec![coin(2)], vec![coin(3)]];
    let picked = selection_from_answer(vec![coin(9)], &single, &Some(vec![2, 0])).unwrap();
    assert_eq!(places(&picked), vec![place(9), place(3), place(1)]);
    let picked = selection_from_answer(vec![coin(9)], &single, &Some(vec![])).unwrap();
    assert_eq!(places(&picked), vec![place(9)]);
    assert!(selection_from_answer(vec![coin(9)], &single, &None).is_none());
}

#[test]
fn ample_coins_are_found_at_every_rate() {
    for rate in [-1.0, 0.0, 0.25, 10.0, 5_000.0] {
        let coins = (1..=6u8)
            .map(|n| (utxo(n, n, 10_000_000, 1), regular(10_000_000)))
            .collect();
        let mut quote = quote(500);
        quote.rates.target_feerate = rate;
        let chosen = with_coins(coins).coin_select(20_000, &quote, &None, &None, &vec![]).unwrap();
        assert!(!chosen.is_empty());
    }
}

#[test]
fn reused_addresses_go_first() {
    let wallet = with_coins(vec![
        (utxo(1, 1, 50_000, 1), regular(50_000)),
        (utxo(2, 2, 6_000, 1), regular(6_000)),
        (utxo(3, 3, 40_000, 1), regular(40_000)),
        (utxo(4, 2, 5_000, 1), regular(5_000)),
    ]);
    let chosen = wallet.coin_select(10_000, &quote(500), &None, &None, &vec![]).unwrap();
    assert_eq!(places(&chosen), vec![place(2), place(4)]);
}

#[test]
fn single_addresses_fill_up_what_is_missing() {
    let wallet = with_coins(vec![
        (utxo(1, 1, 50_000, 1), regular(50_000)),
        (utxo(2, 2, 6_000, 1), regular(6_000)),
        (utxo(4, 2, 5_000, 1), regular(5_000)),
    ]);
    let chosen = wallet.coin_select(20_000, &quote(500), &None, &None, &vec![]).unwrap();
    assert_eq!(places(&chosen), vec![place(2), place(4), place(1)]);
}

#[test]
fn selections_pay_what_is_asked() {
    let coins = (1..=20u8)
        .map(|n| (utxo(n, n, 1_000 * n as u64, 1), regular(1_000 * n as u64)))
        .collect();
    let wallet = with_coins(coins);
    for amount in [1_000, 25_000, 90_000] {
        let chosen = wallet.coin_select(amount, &quote(500), &None, &None, &vec![]).unwrap();
        let total: u64 = chosen.iter().map(|c| c.0.amount).sum();
        assert!(total >= amount + 500);
        let mut seen = places(&chosen);
        let count = seen.len();
        seen.sort_by_key(|o| (o.txid.hi, o.txid.lo, o.vout));
        seen.dedup();
        assert_eq!(seen.len(), count);
    }
}

#[test]
fn regular_coins_go_before_swap_coins_and_are_never_mixed() {
    let wallet = with_coins(vec![
        (utxo(1, 1, 50_000, 1), swept(50_000)),
        (utxo(2, 2, 60_000, 1), regular(60_000)),
    ]);
    let chosen = wallet.coin_select(10_000, &quote(500), &None, &None, &vec![]).unwrap();
    assert_eq!(places(&chosen), vec![place(2)]);

    let wallet = with_coins(vec![
        (utxo(1, 1, 50_000, 1), swept(50_000)),
        (utxo(2, 2, 6_000, 1), regular(6_000)),
    ]);
    let chosen = wallet.coin_select(10_000, &quote(500), &None, &None, &vec![]).unwrap();
    assert_eq!(places(&chosen), vec![place(1)]);

    match wallet.coin_select(55_000, &quote(500), &None, &None, &vec![]) {
        Err(WalletError::InsufficientFund { available, required }) => {
            assert_eq!(available, 50_000);
            assert_eq!(required, 55_500);
        }
        _ => panic!("an error is due"),
    }
}

#[test]
fn an_empty_wallet_has_nothing_to_select() {
    match wallet().coin_select(1_000, &quote(500), &None, &None, &vec![]) {
        Err(WalletError::InsufficientFund { available, required }) => {
            assert_eq!(available, 0);
            assert_eq!(required, 1_500);
        }
        _ => panic!("an error is due"),
    }
}

#[test]
fn coins_named_by_hand_go_first() {
    let wallet = with_coins(vec![
        (utxo(1, 1, 30_000, 1), regular(30_000)),
        (utxo(2, 2, 6_000, 1), regular(6_000)),
        (utxo(3, 2, 5_000, 1), regular(5_000)),
    ]);
    let by_hand = Some(vec![place(1)]);
    let chosen = wallet.coin_select(10_000, &quote(500), &by_hand, &None, &vec![]).unwrap();
    assert_eq!(places(&chosen), vec![place(1)]);
}

#[test]
fn selections_by_hand_are_refused_where_they_cannot_be() {
    let message = |result: Result<Vec<_>, WalletError>| match result {
        Err(WalletError::General(m)) => m,
        _ => panic!("an error is due"),
    };
    let wallet = with_coins(vec![
        (utxo(1, 1, 50_000, 1), swept(50_000)),
        (utxo(2, 2, 60_000, 1), regular(60_000)),
    ]);
    let both = Some(vec![place(1), place(2)]);
    assert_eq!(
        message(wallet.coin_select(1_000, &quote(1), &both, &None, &vec![])),
        "Cannot mix regular and swap UTXOs in manual selection"
    );
    let one = Some(vec![place(2)]);
    assert_eq!(
        message(wallet.coin_select(70_000, &quote(1), &one, &None, &vec![])),
        "Manual regular UTXOs selected but insufficient regular funds available"
    );
    let one = Some(vec![place(1)]);
    assert_eq!(
        message(wallet.coin_select(55_000, &quote(1), &one, &None, &vec![])),
        "Manual swap UTXOs selected but insufficient swap funds available"
    );
}

#[test]
fn a_class_that_cannot_pay_the_fee_is_insufficient() {
    let wallet = with_coins(vec![(utxo(1, 1, 10_600, 1), regular(10_600))]);
    match wallet.coin_select(10_000, &quote(500), &None, &None, &vec![]) {
        Err(WalletError::InsufficientFund { available, required }) => {
            assert_eq!(available, 10_600);
            assert_eq!(required, 10_794);
        }
        _ => panic!("an error is due"),
    }
}

#[test]
fn locked_excluded_and_unconfirmed_coins_are_not_selected() {
    let wallet = with_coins(vec![
        (utxo(1, 1, 50_000, 1), regular(50_000)),
        (utxo(2, 2, 50_000, 1), regular(50_000)),
        (utxo(3, 3, 50_000, 0), regular(50_000)),
        (utxo(4, 4, 60_000, 3), regular(60_000)),
    ]);
    let excluded = Some(vec![place(2)]);
    let chosen =
        wallet.coin_select(10_000, &quote(500), &None, &excluded, &vec![place(1)]).unwrap();
    assert_eq!(places(&chosen), vec![place(4)]);
}

#[test]
fn bonds_contracts_and_sent_coins_are_not_selected() {
    let script = ScriptBuf::new();
    let wallet = with_coins(vec![
        (utxo(1, 1, 90_000, 1), UTXOSpendInfo::FidelityBondCoin { index: 0, input_value: 90_000 }),
        (
            utxo(2, 2, 90_000, 1),
            UTXOSpendInfo::OutgoingSwapCoin { multisig_redeemscript: script.clone() },
        ),
        (
            utxo(3, 3, 90_000, 1),
            UTXOSpendInfo::TimelockContract {
                swapcoin_multisig_redeemscript: script.clone(),
                input_value: 90_000,
            },
        ),
        (utxo(4, 4, 40_000, 1), regular(40_000)),
    ]);
    let chosen = wallet.coin_select(10_000, &quote(500), &None, &None, &vec![]).unwrap();
    assert_eq!(places(&chosen), vec![place(4)]);
    assert!(wallet.coin_select(50_000, &quote(500), &None, &None, &vec![]).is_err());
}

#[test]
fn coins_without_addresses_are_grouped_by_script() {
    let mut a = utxo(1, 7, 6_000, 1);
    let mut b = utxo(2, 7, 6_000, 1);
    let mut c = utxo(3, 8, 90_000, 1);
    a.address = None;
    b.address = None;
    c.address = None;
    let coins = vec![(c, regular(90_000)), (a, regular(6_000)), (b, regular(6_000))];
    let chosen = select_coins(&coins, &vec![], 10_000, &quote(500), &None).unwrap();
    assert_eq!(places(&chosen), vec![place(1), place(2)]);
}

#[test]
fn balances_are_told_by_category() {
    let script = ScriptBuf::new();
    let wallet = with_coins(vec![
        (utxo(1, 1, 1, 1), regular(1)),
        (utxo(2, 2, 20, 1), swept(20)),
        (utxo(3, 3, 300, 1), UTXOSpendInfo::FidelityBondCoin { index: 0, input_value: 300 }),
        (
            utxo(4, 4, 4_000, 1),
            UTXOSpendInfo::TimelockContract {
                swapcoin_multisig_redeemscript: script.clone(),
                input_value: 4_000,
            },
        ),
        (
            utxo(5, 5, 50_000, 1),
            UTXOSpendInfo::HashlockContract {
                swapcoin_multisig_redeemscript: script.clone(),
                input_value: 50_000,
            },
        ),
        (utxo(6, 6, 600_000, 1), received(6)),
        (
            utxo(7, 7, 7_000_000, 1),
            UTXOSpendInfo::OutgoingSwapCoin { multisig_redeemscript: script.clone() },
        ),
    ]);
    assert!(wallet.has_balances());
    assert_eq!(
        wallet.get_balances().unwrap(),
        Balances { regular: 1, swap: 600_000, contract: 4_000, fidelity: 300, spendable: 600_001 }
    );
    assert_eq!(wallet.list_all_utxo().len(), 7);
    assert_eq!(wallet.list_all_utxo_spend_info().len(), 7);
    assert_eq!(places(&wallet.list_live_contract_spend_info()), vec![place(4), place(5)]);
    assert_eq!(places(&wallet.list_live_timelock_contract_spend_info()), vec![place(4)]);
    assert_eq!(places(&wallet.list_live_hashlock_contract_spend_info()), vec![place(5)]);
    assert_eq!(places(&wallet.list_fidelity_spend_info()), vec![place(3)]);
    assert_eq!(places(&wallet.list_descriptor_utxo_spend_info()), vec![place(1)]);
    assert_eq!(places(&wallet.list_swept_incoming_swap_utxos()), vec![place(2)]);
    assert_eq!(places(&wallet.list_swap_coin_utxo_spend_info()), vec![place(6), place(7)]);
    assert_eq!(places(&wallet.list_incoming_swap_coin_utxo_spend_info()), vec![place(6)]);
}

#[test]
fn balances_that_do_not_fit_are_noticed() {
    let wallet = with_coins(vec![
        (utxo(1, 1, u64::MAX, 1), regular(u64::MAX)),
        (utxo(2, 2, 1, 1), received(2)),
    ]);
    assert!(!wallet.has_balances());
}

#[test]
fn the_next_index_is_above_every_used_one() {
    let wallet = with_coins(vec![
        (utxo(3, 1, 1, 1), regular(1)),
        (utxo(9, 2, 1, 1), regular(1)),
        (utxo(30, 3, 1, 1), swept(1)),
    ]);
    assert_eq!(wallet.highest_used_index(KeychainKind::Internal), 30);
    assert_eq!(wallet.find_hd_next_index(KeychainKind::Internal).unwrap(), 31);
    assert_eq!(wallet.highest_used_index(KeychainKind::External), -1);
    assert_eq!(wallet.find_hd_next_index(KeychainKind::External).unwrap(), 0);

    let wallet = with_coins(vec![(utxo(0, 1, 1, 1), swept(1))]);
    assert_eq!(wallet.find_hd_next_index(KeychainKind::Internal).unwrap(), 1);
}

#[test]
fn the_largest_offer_is_the_larger_balance() {
    let mut wallet = with_coins(vec![
        (utxo(1, 1, 7, 1), regular(7)),
        (utxo(2, 2, 20, 1), received(2)),
        (utxo(3, 3, 90, 1), swept(90)),
    ]);
    wallet.refresh_offer_maxsize_cache().unwrap();
    assert_eq!(wallet.store.offer_maxsize, 20);
}

#[test]
fn what_is_not_the_wallets_own_is_locked() {
    let mut wallet = wallet();
    let own = utxo(1, 1, 5, 1);
    let mut foreign = utxo(2, 2, 5, 1);
    foreign.descriptor = None;
    wallet.store.swept_incoming_swapcoins.push(own.script_pub_key.clone());
    let list = vec![own, foreign];
    assert_eq!(wallet.lock_unspendable_utxos(&list).unwrap(), vec![place(2)]);

    wallet.store.master_key = Xpriv { bytes: vec![0; 78] };
    let list = vec![utxo(3, 3, 5, 1)];
    assert!(matches!(wallet.lock_unspendable_utxos(&list), Err(WalletError::Derivation)));
}

#[test]
fn selections_that_would_overflow_or_split_a_choice_are_told_apart() {
    let wallet = with_coins(vec![
        (utxo(1, 1, 50_000, 3), regular(50_000)),
        (utxo(2, 2, 60_000, 3), regular(60_000)),
    ]);
    let held = OutPoint::new(Txid::from_bytes(&vec![1; 32]), 0);
    let unknown = OutPoint::new(Txid::from_bytes(&vec![9; 32]), 0);
    assert!(wallet.can_coin_select(10_000, &quote(300), &None, &None, &vec![]));
    assert!(wallet.can_coin_select(10_000, &quote(300), &Some(vec![held]), &None, &vec![]));
    assert!(wallet.can_coin_select(10_000, &quote(300), &Some(vec![unknown]), &None, &vec![]));
    assert!(!wallet.can_coin_select(10_000, &quote(300), &Some(vec![held, unknown]), &None, &vec![]));
    assert!(!wallet.can_coin_select(10_000, &quote(300), &Some(vec![held, held]), &None, &vec![]));
    assert!(!wallet.can_coin_select(0, &quote(0), &None, &None, &vec![]));
    assert!(!wallet.can_coin_select(u64::MAX, &quote(300), &None, &None, &vec![]));
}
