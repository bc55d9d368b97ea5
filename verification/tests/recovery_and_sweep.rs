use coinswap_wallet::backend::{BitcoindBackend, RPCConfig};
use coinswap_wallet::bytes::ScriptBuf;
use coinswap_wallet::confirm::{confirmed_height, ConfirmationWait, TxStatus, WaitStep};
use coinswap_wallet::error::WalletError;
use coinswap_wallet::keys::Xpriv;
use coinswap_wallet::primitives::{
    Network, OutPoint, ProtocolVersion, SecretKey, Transaction, TxIn, TxOut, Txid,
};
use coinswap_wallet::raw_tx::compute_txid;
use coinswap_wallet::recovery::{
    recovery_amount, Broadcast, RecoveryEnd, RecoveryFacts, RecoveryStep,
};
use coinswap_wallet::spend_info::RecoveryOutcome;
use coinswap_wallet::store::WalletStore;
use coinswap_wallet::swapcoin::{IncomingSwapCoin, OutgoingSwapCoin};
use coinswap_wallet::sweep::{SweepFacts, SweepSource, SweepStep};
use coinswap_wallet::wallet::Wallet;

fn wallet() -> Wallet<BitcoindBackend> {
    let key = bitcoin::bip32::Xpriv::new_master(bitcoin::Network::Regtest, &[7u8; 32]).unwrap();
    let master = Xpriv { bytes: key.encode().to_vec() };
    Wallet {
        rpc: BitcoindBackend { config: RPCConfig::default() },
        store: WalletStore::new("w".to_string(), Network::Regtest, master, None),
    }
}

fn id(n: u8) -> Txid {
    Txid::from_bytes(&vec![n; 32])
}

fn transaction(n: u8) -> Transaction {
    Transaction {
        version: 2,
        lock_time: 0,
        input: vec![TxIn {
            previous_output: OutPoint::new(id(n), 5),
            script_sig: ScriptBuf::new(),
            sequence: 0,
            witness: vec![],
        }],
        output: vec![
            TxOut { value: 1_000, script_pubkey: ScriptBuf::from_bytes(vec![1, n]) },
            TxOut { value: 5_000, script_pubkey: ScriptBuf::from_bytes(vec![2, n]) },
        ],
    }
}

fn outgoing(n: u8, protocol: ProtocolVersion, timelock: u32) -> OutgoingSwapCoin {
    OutgoingSwapCoin {
        swap_id: None,
        protocol,
        my_privkey: Some(SecretKey { bytes: vec![n; 32] }),
        my_pubkey: None,
        other_pubkey: None,
        timelock: Some(timelock),
        contract_tx: transaction(n),
        contract_vout: 1,
        contract_redeemscript: None,
        hash_preimage: None,
        funding_amount: 5_000,
        others_contract_sig: None,
    }
}

fn incoming(n: u8, protocol: ProtocolVersion) -> IncomingSwapCoin {
    IncomingSwapCoin {
        swap_id: None,
        protocol,
        my_privkey: None,
        my_pubkey: None,
        other_pubkey: None,
        other_privkey: None,
        contract_tx: transaction(n),
        contract_vout: 1,
        contract_redeemscript: None,
        hash_preimage: Some(vec![1; 32]),
        funding_amount: 5_000,
        others_contract_sig: Some(vec![1]),
    }
}

#[test]
fn coins_are_tried_once_their_heights_allow_it() {
    let mut wallet = wallet();
    wallet.add_outgoing_swapcoin(&outgoing(1, ProtocolVersion::Taproot, 500));
    wallet.add_outgoing_swapcoin(&outgoing(2, ProtocolVersion::Taproot, 501));
    wallet.add_outgoing_swapcoin(&outgoing(3, ProtocolVersion::Legacy, 9_000));
    let mut keyless = outgoing(4, ProtocolVersion::Legacy, 1);
    keyless.my_privkey = None;
    wallet.add_outgoing_swapcoin(&keyless);
    let mut timeless = outgoing(5, ProtocolVersion::Legacy, 1);
    timeless.timelock = None;
    wallet.add_outgoing_swapcoin(&timeless);
    assert_eq!(
        wallet.recover_timelocked_swapcoins(500),
        vec![compute_txid(&transaction(1)), compute_txid(&transaction(3))]
    );
}

#[test]
fn a_confirmed_contract_is_spent_once_it_is_deep_enough() {
    let coin = outgoing(1, ProtocolVersion::Legacy, 20);
    let mut facts = RecoveryFacts::new();
    assert_eq!(facts.next(&coin), RecoveryStep::AskContractOutput);
    facts.contract_unspent = Some(true);
    assert_eq!(facts.next(&coin), RecoveryStep::AskDepth);
    facts.depth = Some(Some(19));
    assert_eq!(facts.next(&coin), RecoveryStep::Skip);
    facts.depth = Some(None);
    assert_eq!(facts.next(&coin), RecoveryStep::Skip);
    facts.depth = Some(Some(20));
    assert_eq!(facts.next(&coin), RecoveryStep::Spend);
    facts.spend = Some(None);
    assert_eq!(facts.next(&coin), RecoveryStep::Skip);
    facts.spend = Some(Some(id(9)));
    assert_eq!(facts.next(&coin), RecoveryStep::Resolved(id(9)));
}

#[test]
fn a_taproot_contract_needs_one_confirmation() {
    let coin = outgoing(1, ProtocolVersion::Taproot, 500);
    let mut facts = RecoveryFacts::new();
    facts.contract_unspent = Some(true);
    facts.depth = Some(Some(0));
    assert_eq!(facts.next(&coin), RecoveryStep::Skip);
    facts.depth = Some(Some(1));
    assert_eq!(facts.next(&coin), RecoveryStep::Spend);
}

#[test]
fn a_spent_contract_is_given_up() {
    let coin = outgoing(1, ProtocolVersion::Legacy, 20);
    let mut facts = RecoveryFacts::new();
    facts.contract_unspent = Some(false);
    assert_eq!(facts.next(&coin), RecoveryStep::AskContractTx);
    facts.contract_confirmations = Some(Some(1));
    assert_eq!(facts.next(&coin), RecoveryStep::Discard);
}

#[test]
fn a_contract_that_was_never_broadcast_is_given_up_or_broadcast() {
    let mut facts = RecoveryFacts::new();
    facts.contract_unspent = Some(false);
    facts.contract_confirmations = Some(None);
    let taproot = outgoing(1, ProtocolVersion::Taproot, 500);
    assert_eq!(facts.next(&taproot), RecoveryStep::AskInput(OutPoint::new(id(1), 5)));
    facts.input_unspent = Some(true);
    assert_eq!(facts.next(&taproot), RecoveryStep::Discard);
    let legacy = outgoing(1, ProtocolVersion::Legacy, 20);
    assert_eq!(facts.next(&legacy), RecoveryStep::BroadcastContract);
    facts.input_unspent = Some(false);
    assert_eq!(facts.next(&taproot), RecoveryStep::BroadcastContract);
}

#[test]
fn refused_broadcasts_are_told_apart() {
    let coin = outgoing(1, ProtocolVersion::Legacy, 20);
    let after = |broadcast: Broadcast| {
        let mut facts = RecoveryFacts::new();
        facts.contract_unspent = Some(false);
        facts.contract_confirmations = Some(Some(0));
        facts.input_unspent = Some(true);
        facts.broadcast = Some(broadcast);
        facts.next(&coin)
    };
    let refused = |text: &str| after(Broadcast::Refused(text.to_string()));
    assert_eq!(after(Broadcast::Unsigned), RecoveryStep::Skip);
    assert_eq!(after(Broadcast::Accepted), RecoveryStep::AskDepth);
    assert_eq!(refused("code: -27, message"), RecoveryStep::AskDepth);
    assert_eq!(refused("already in utxo set"), RecoveryStep::AskDepth);
    assert_eq!(refused("code: -25"), RecoveryStep::Discard);
    assert_eq!(refused("bad-txns-inputs-missingorspent"), RecoveryStep::Discard);
    assert_eq!(refused("-25 and -27"), RecoveryStep::AskDepth);
    assert_eq!(refused("-2 5"), RecoveryStep::Skip);
    assert_eq!(refused(""), RecoveryStep::Skip);
}

#[test]
fn a_finished_recovery_takes_settled_coins_out() {
    let mut wallet = wallet();
    for n in 1..=4 {
        wallet.add_outgoing_swapcoin(&outgoing(n, ProtocolVersion::Legacy, 20));
    }
    let keys = wallet.recover_timelocked_swapcoins(0);
    let ends = vec![
        RecoveryEnd::Discarded,
        RecoveryEnd::Kept,
        RecoveryEnd::Resolved(id(9)),
        RecoveryEnd::Discarded,
    ];
    let outcome = wallet.finish_recovery(&keys, &ends);
    assert_eq!(outcome.discarded, vec![keys[0], keys[3]]);
    assert_eq!(outcome.resolved, vec![(keys[2], id(9))]);
    assert_eq!(wallet.get_outgoing_swapcoins_count(), 1);
    assert_eq!(wallet.recover_timelocked_swapcoins(0), vec![keys[1]]);
}

#[test]
fn the_amount_of_a_recovery_leaves_the_fee_out() {
    let message = |coin: &OutgoingSwapCoin, fee: u64| match recovery_amount(coin, fee) {
        Err(WalletError::General(m)) => m,
        _ => panic!("an error is due"),
    };
    let coin = outgoing(1, ProtocolVersion::Legacy, 20);
    assert_eq!(recovery_amount(&coin, 300).unwrap(), 4_700);
    assert_eq!(recovery_amount(&coin, 5_000).unwrap(), 0);
    assert_eq!(message(&coin, 5_001), "Insufficient funds for recovery fee");
    let mut astray = outgoing(1, ProtocolVersion::Legacy, 20);
    astray.contract_vout = 2;
    assert_eq!(message(&astray, 300), "No output in contract tx");
    astray.timelock = None;
    assert_eq!(message(&astray, 300), "Could not extract timelock from swapcoin");
}

#[test]
fn recovery_transactions_carry_their_timelocks() {
    let wallet = wallet();
    let scripts = vec![ScriptBuf::from_bytes(vec![7]), ScriptBuf::from_bytes(vec![8])];
    let legacy = outgoing(1, ProtocolVersion::Legacy, 0x1_0014);
    let tx = wallet.create_timelock_recovery_tx(&legacy, 300, &scripts).unwrap();
    assert_eq!(tx.version, 2);
    assert_eq!(tx.lock_time, 0);
    assert_eq!(tx.input.len(), 1);
    assert_eq!(tx.input[0].sequence, 20);
    assert_eq!(
        tx.input[0].previous_output,
        OutPoint::new(compute_txid(&transaction(1)), 1)
    );
    assert!(tx.input[0].witness.is_empty());
    assert_eq!(tx.output, vec![TxOut { value: 4_700, script_pubkey: scripts[0].clone() }]);

    let taproot = outgoing(1, ProtocolVersion::Taproot, 800_000);
    let tx = wallet.create_timelock_recovery_tx(&taproot, 300, &scripts).unwrap();
    assert_eq!(tx.lock_time, 800_000);
    assert_eq!(tx.input[0].sequence, bitcoin::Sequence::ENABLE_LOCKTIME_NO_RBF.0);

    let no_height = outgoing(1, ProtocolVersion::Taproot, 500_000_000);
    let tx = wallet.create_timelock_recovery_tx(&no_height, 300, &scripts).unwrap();
    assert_eq!(tx.lock_time, 0);

    match wallet.create_timelock_recovery_tx(&taproot, 300, &vec![]) {
        Err(WalletError::General(m)) => assert_eq!(m, "Failed to get recovery address"),
        _ => panic!("an error is due"),
    }
}

#[test]
fn completed_coins_are_swept() {
    let mut wallet = wallet();
    wallet.add_incoming_swapcoin(&incoming(1, ProtocolVersion::Legacy));
    let mut open = incoming(2, ProtocolVersion::Legacy);
    open.hash_preimage = None;
    wallet.add_incoming_swapcoin(&open);
    let mut with_key = incoming(3, ProtocolVersion::Taproot);
    with_key.hash_preimage = None;
    with_key.other_privkey = Some(SecretKey { bytes: vec![1; 32] });
    wallet.add_incoming_swapcoin(&with_key);
    assert_eq!(
        wallet.sweep_incoming_swapcoins(),
        vec![compute_txid(&transaction(1)), compute_txid(&transaction(3))]
    );
}

#[test]
fn sweeps_spend_the_output_of_their_path() {
    let contract = compute_txid(&transaction(1));
    let hashlock = incoming(1, ProtocolVersion::Legacy);
    assert_eq!(
        hashlock.sweep_source(),
        Some(SweepSource { txid: contract, vout: 0, value: 1_000 })
    );
    let mut cooperative = incoming(1, ProtocolVersion::Legacy);
    cooperative.other_privkey = Some(SecretKey { bytes: vec![1; 32] });
    assert_eq!(
        cooperative.sweep_source(),
        Some(SweepSource { txid: id(1), vout: 5, value: 5_000 })
    );
    let mut taproot = incoming(1, ProtocolVersion::Taproot);
    assert_eq!(
        taproot.sweep_source(),
        Some(SweepSource { txid: contract, vout: 1, value: 5_000 })
    );
    taproot.funding_amount = 7;
    assert_eq!(
        taproot.sweep_source(),
        Some(SweepSource { txid: contract, vout: 0, value: 7 })
    );
    cooperative.contract_tx.input.clear();
    assert_eq!(cooperative.sweep_source(), None);
    let mut empty = incoming(1, ProtocolVersion::Legacy);
    empty.contract_tx.output.clear();
    assert_eq!(empty.sweep_source(), None);
}

#[test]
fn sweeps_wait_for_contracts_in_the_mempool() {
    let coin = incoming(1, ProtocolVersion::Legacy);
    let mut facts = SweepFacts::new();
    assert_eq!(facts.next(&coin), SweepStep::AskConfirmed);
    facts.confirmed = Some(false);
    assert_eq!(facts.next(&coin), SweepStep::AskMempool);
    facts.in_mempool = Some(true);
    let mut pauses = 0;
    let mut polls = 0;
    loop {
        match facts.next(&coin) {
            SweepStep::Poll => {
                polls += 1;
                facts.polls += 1;
            }
            SweepStep::Pause => {
                pauses += 1;
                facts.pauses += 1;
            }
            SweepStep::Spend => break,
            step => panic!("unexpected {step:?}"),
        }
    }
    assert_eq!((polls, pauses), (61, 60));
    let mut found = SweepFacts::new();
    found.confirmed = Some(false);
    found.in_mempool = Some(true);
    found.found = true;
    assert_eq!(found.next(&coin), SweepStep::Spend);
}

#[test]
fn sweeps_broadcast_contracts_that_are_missing() {
    let coin = incoming(1, ProtocolVersion::Legacy);
    let mut facts = SweepFacts::new();
    facts.confirmed = Some(false);
    facts.in_mempool = Some(false);
    assert_eq!(facts.next(&coin), SweepStep::BroadcastContract);
    facts.broadcast = Some(false);
    assert_eq!(facts.next(&coin), SweepStep::Skip);
    facts.broadcast = Some(true);
    assert_eq!(facts.next(&coin), SweepStep::AskAvailable);
    facts.available = Some(false);
    assert_eq!(facts.next(&coin), SweepStep::Skip);
    facts.available = Some(true);
    assert_eq!(facts.next(&coin), SweepStep::Spend);

    let mut unsigned = incoming(1, ProtocolVersion::Legacy);
    unsigned.others_contract_sig = None;
    assert_eq!(facts.next(&unsigned), SweepStep::Skip);
    facts.confirmed = Some(true);
    assert_eq!(facts.next(&unsigned), SweepStep::Spend);
}

#[test]
fn a_recorded_sweep_moves_the_coin() {
    let mut wallet = wallet();
    let coin = incoming(1, ProtocolVersion::Legacy);
    wallet.add_incoming_swapcoin(&coin);
    let key = compute_txid(&transaction(1));
    let script = ScriptBuf::from_bytes(vec![4, 4]);
    let mut outcome = RecoveryOutcome::default();
    wallet.record_sweep(&mut outcome, &coin, &key, id(8), &script);
    wallet.record_sweep(&mut outcome, &coin, &key, id(8), &script);
    assert_eq!(wallet.get_incoming_swapcoins_count(), 0);
    assert_eq!(wallet.store.swept_incoming_swapcoins, vec![script]);
    assert_eq!(outcome.resolved, vec![(key, id(8)), (key, id(8))]);
    assert!(outcome.discarded.is_empty());
}

#[test]
fn heights_are_counted_back_from_the_tip() {
    let known = |n: u32| TxStatus::Known(Some(n));
    assert_eq!(confirmed_height(100, &vec![known(1), known(11)], 1), Some(100));
    assert_eq!(confirmed_height(100, &vec![known(11)], 1), Some(90));
    assert_eq!(confirmed_height(5, &vec![known(11)], 1), Some(1));
    assert_eq!(confirmed_height(100, &vec![known(11), known(1)], 2), None);
    assert_eq!(confirmed_height(100, &vec![TxStatus::Unknown], 1), None);
    assert_eq!(confirmed_height(100, &vec![TxStatus::Known(None)], 1), None);
}

#[test]
fn waits_look_pause_and_look_again() {
    let wallet = wallet();
    assert!(wallet.wait_for_tx_confirmation(&vec![], 1).is_none());
    assert!(wallet.wait_for_tx_confirmation(&vec![id(1)], 0).is_none());
    let mut wait = wallet.wait_for_tx_confirmation(&vec![id(1)], 2).unwrap();
    for round in 1..=70u64 {
        assert!(matches!(wait.next(false, false), WaitStep::Look));
        assert_eq!(wait.look(100, &vec![TxStatus::Known(Some(1))]), None);
        let mut pause = 0;
        while wait.pause > 0 {
            assert!(matches!(wait.next(false, false), WaitStep::Sleep));
            pause += 1;
        }
        assert_eq!(pause, (10 * round).min(600));
    }
    assert!(matches!(wait.next(false, false), WaitStep::Look));
    assert_eq!(wait.look(100, &vec![TxStatus::Known(Some(2))]), Some(99));
}

#[test]
fn waits_are_given_up_on_request() {
    let mut wait = ConfirmationWait { required: 1, attempt: 3, pause: 4 };
    let message = |step: WaitStep| match step {
        WaitStep::GiveUp(WalletError::Interrupted(m)) => m,
        _ => panic!("an end is due"),
    };
    assert_eq!(message(wait.next(true, true)), "Shutdown requested");
    assert_eq!(message(wait.next(false, true)), "Abort requested");
    assert_eq!(wait.pause, 4);
    assert_eq!(wait.attempt, 3);
}
