use bitcoin::secp256k1::Secp256k1;
use coinswap_wallet::backend::{
    BitcoindBackend, BlockchainBackend, ElectrumBackend, ElectrumConfig, HdOrigin, RPCConfig,
};
use coinswap_wallet::bytes::ScriptBuf;
use coinswap_wallet::classify::fingerprint_of_account;
use coinswap_wallet::descriptor::{finish_descriptor, write_raw_descriptor};
use coinswap_wallet::error::WalletError;
use coinswap_wallet::import::{coinswap_address, needs_import, Timestamp};
use coinswap_wallet::keys::{derive_account, script_from_account, Xpriv};
use coinswap_wallet::multisig::{create_multisig_redeemscript, multisig_script_pubkey};
use coinswap_wallet::primitives::{
    AddressType, KeychainKind, Network, OutPoint, ProtocolVersion, PublicKey, SecretKey,
    Transaction, TxOut, Txid,
};
use coinswap_wallet::next_address::address_scripts;
use coinswap_wallet::raw_tx::compute_txid;
use coinswap_wallet::spend_info::{ListUnspentResultEntry, UTXOSpendInfo};
use coinswap_wallet::store::{FidelityBond, WalletStore};
use coinswap_wallet::swapcoin::{IncomingSwapCoin, OutgoingSwapCoin};
use coinswap_wallet::sync::{CoreWalletStep, SyncFacts, SyncStep};
use coinswap_wallet::wallet::Wallet;
use bitcoin::hashes::Hash as HashTrait;

fn seed_key() -> bitcoin::bip32::Xpriv {
    bitcoin::bip32::Xpriv::new_master(bitcoin::Network::Regtest, &[7u8; 32]).unwrap()
}

fn master() -> Xpriv {
    Xpriv { bytes: seed_key().encode().to_vec() }
}

fn store() -> WalletStore {
    WalletStore::new("w".to_string(), Network::Regtest, master(), Some(100))
}

fn node_wallet() -> Wallet<BitcoindBackend> {
    Wallet { rpc: BitcoindBackend { config: RPCConfig::default() }, store: store() }
}

fn server_wallet() -> Wallet<ElectrumBackend> {
    let mut genesis = bitcoin::constants::genesis_block(bitcoin::Network::Regtest)
        .block_hash()
        .to_byte_array();
    genesis.reverse();
    let rpc = ElectrumBackend::new(&ElectrumConfig::default(), &genesis.to_vec()).unwrap();
    Wallet { rpc, store: store() }
}

fn fingerprint(address_type: AddressType) -> String {
    fingerprint_of_account(&master(), address_type).unwrap()
}

fn public_key(n: u8) -> PublicKey {
    let secret = bitcoin::secp256k1::SecretKey::from_slice(&[n; 32]).unwrap();
    PublicKey { bytes: secret.public_key(&Secp256k1::new()).serialize().to_vec() }
}

fn transaction(n: u8) -> Transaction {
    Transaction {
        version: n as i32,
        lock_time: 0,
        input: vec![],
        output: vec![TxOut { value: 5, script_pubkey: ScriptBuf::new() }],
    }
}

fn incoming(n: u8) -> IncomingSwapCoin {
    IncomingSwapCoin {
        swap_id: None,
        protocol: ProtocolVersion::Legacy,
        my_privkey: None,
        my_pubkey: Some(public_key(n)),
        other_pubkey: Some(public_key(n + 100)),
        other_privkey: Some(SecretKey { bytes: vec![1; 32] }),
        contract_tx: transaction(n),
        contract_vout: 0,
        contract_redeemscript: Some(ScriptBuf::from_bytes(vec![0x51, n])),
        hash_preimage: Some(vec![1; 32]),
        funding_amount: 5,
        others_contract_sig: None,
    }
}

fn outgoing(n: u8) -> OutgoingSwapCoin {
    OutgoingSwapCoin {
        swap_id: None,
        protocol: ProtocolVersion::Legacy,
        my_privkey: None,
        my_pubkey: Some(public_key(n)),
        other_pubkey: Some(public_key(n + 100)),
        timelock: Some(20),
        contract_tx: transaction(n),
        contract_vout: 0,
        contract_redeemscript: Some(ScriptBuf::from_bytes(vec![0x51, n])),
        hash_preimage: Some(vec![1; 32]),
        funding_amount: 5,
        others_contract_sig: None,
    }
}

fn bond() -> FidelityBond {
    FidelityBond {
        outpoint: OutPoint::new(Txid::from_bytes(&vec![9; 32]), 0),
        amount: 300,
        lock_time: 2,
        redeem_script: ScriptBuf::from_bytes(vec![0x52]),
    }
}

fn utxo(n: u8, script: ScriptBuf, descriptor: Option<String>) -> ListUnspentResultEntry {
    ListUnspentResultEntry {
        txid: Txid::from_bytes(&vec![n; 32]),
        vout: 0,
        address: None,
        label: None,
        redeem_script: None,
        witness_script: None,
        script_pub_key: script,
        amount: 300,
        confirmations: 1,
        spendable: true,
        solvable: true,
        descriptor,
        safe: true,
    }
}

fn own(n: u8, chain: u32, index: u32) -> ListUnspentResultEntry {
    let descriptor = format!("tr([{}/{chain}/{index}]02)", fingerprint(AddressType::P2TR));
    utxo(n, ScriptBuf::from_bytes(vec![n]), Some(descriptor))
}

#[test]
fn account_fingerprints_match() {
    let account = derive_account(&master(), AddressType::P2TR).unwrap();
    let key = bitcoin::bip32::Xpriv::decode(&account.bytes).unwrap();
    assert_eq!(
        fingerprint(AddressType::P2TR),
        key.fingerprint(&Secp256k1::new()).to_string()
    );
}

#[test]
fn bonds_are_recognised_by_script_and_amount() {
    let mut wallet = node_wallet();
    wallet.store.fidelity_bond.push(bond());
    let mut coin = utxo(1, bond().script_pub_key(), None);
    assert_eq!(
        wallet.check_if_fidelity(&coin),
        Some(UTXOSpendInfo::FidelityBondCoin { index: 0, input_value: 300 })
    );
    coin.amount = 301;
    assert_eq!(wallet.check_if_fidelity(&coin), None);
}

#[test]
fn live_contracts_are_recognised_by_outpoint() {
    let mut wallet = node_wallet();
    wallet.add_outgoing_swapcoin(&outgoing(1));
    wallet.add_incoming_swapcoin(&incoming(2));
    let mut unknown = incoming(3);
    unknown.hash_preimage = None;
    wallet.add_incoming_swapcoin(&unknown);
    let at = |n: u8| {
        let mut coin = utxo(0, ScriptBuf::new(), None);
        coin.txid = compute_txid(&transaction(n));
        wallet.check_and_derive_live_contract_spend_info(&coin)
    };
    let timelock = at(1).unwrap();
    assert_eq!(
        timelock,
        Some(UTXOSpendInfo::TimelockContract {
            swapcoin_multisig_redeemscript: ScriptBuf::from_bytes(vec![0x51, 1]),
            input_value: 300,
        })
    );
    assert_eq!(
        at(2).unwrap(),
        Some(UTXOSpendInfo::HashlockContract {
            swapcoin_multisig_redeemscript: ScriptBuf::from_bytes(vec![0x51, 2]),
            input_value: 300,
        })
    );
    assert_eq!(at(3).unwrap(), None);
}

#[test]
fn regular_coins_are_recognised_by_their_descriptors() {
    let wallet = node_wallet();
    let coin = own(1, 1, 12);
    assert_eq!(
        wallet.check_and_derive_descriptor_utxo_or_swap_coin(&coin).unwrap(),
        Some(UTXOSpendInfo::SeedCoin {
            path: "m/1/12".to_string(),
            input_value: 300,
            address_type: AddressType::P2TR,
        })
    );
    let foreign = utxo(2, ScriptBuf::new(), Some("wpkh([00000000/1/12]02)".to_string()));
    assert_eq!(wallet.check_and_derive_descriptor_utxo_or_swap_coin(&foreign).unwrap(), None);
}

#[test]
fn swept_coins_are_never_regular() {
    let mut wallet = node_wallet();
    let coin = own(1, 1, 12);
    wallet.store.swept_incoming_swapcoins.push(coin.script_pub_key.clone());
    let swept = UTXOSpendInfo::SweptCoin {
        path: "m/1/12".to_string(),
        input_value: 300,
        address_type: AddressType::P2TR,
    };
    assert_eq!(wallet.check_if_swept_incoming_swapcoin(&coin), Some(swept.clone()));
    assert_eq!(
        wallet.check_and_derive_descriptor_utxo_or_swap_coin(&coin).unwrap(),
        Some(swept)
    );
}

#[test]
fn places_that_the_backend_knows_are_used() {
    let mut wallet = server_wallet();
    let script = ScriptBuf::from_bytes(vec![7]);
    let origin = HdOrigin {
        fingerprint: fingerprint(AddressType::P2WPKH),
        keychain_idx: 0,
        index: 4,
        is_taproot: false,
    };
    wallet.rpc.watch_script(&script, Some(origin));
    let coin = utxo(1, script.clone(), None);
    assert_eq!(
        wallet.check_and_derive_descriptor_utxo_or_swap_coin(&coin).unwrap(),
        Some(UTXOSpendInfo::SeedCoin {
            path: "m/0/4".to_string(),
            input_value: 300,
            address_type: AddressType::P2WPKH,
        })
    );
    wallet.store.swept_incoming_swapcoins.push(script);
    assert!(matches!(
        wallet.check_and_derive_descriptor_utxo_or_swap_coin(&coin).unwrap(),
        Some(UTXOSpendInfo::SweptCoin { .. })
    ));
}

#[test]
fn swap_coins_are_recognised_by_their_scripts() {
    let mut wallet = node_wallet();
    wallet.add_incoming_swapcoin(&incoming(1));
    wallet.add_outgoing_swapcoin(&outgoing(2));
    let script = |n: u8| multisig_script_pubkey(&public_key(n), &public_key(n + 100));
    let redeem = |n: u8| create_multisig_redeemscript(&public_key(n), &public_key(n + 100));
    assert_eq!(
        wallet
            .check_and_derive_descriptor_utxo_or_swap_coin(&utxo(1, script(1), None))
            .unwrap(),
        Some(UTXOSpendInfo::IncomingSwapCoin { multisig_redeemscript: redeem(1) })
    );
    assert_eq!(
        wallet
            .check_and_derive_descriptor_utxo_or_swap_coin(&utxo(2, script(2), None))
            .unwrap(),
        Some(UTXOSpendInfo::OutgoingSwapCoin { multisig_redeemscript: redeem(2) })
    );
    let mut by_witness = utxo(3, ScriptBuf::new(), Some("wsh(x)".to_string()));
    by_witness.witness_script = Some(redeem(1));
    assert_eq!(
        wallet.check_and_derive_descriptor_utxo_or_swap_coin(&by_witness).unwrap(),
        Some(UTXOSpendInfo::IncomingSwapCoin { multisig_redeemscript: redeem(1) })
    );
}

#[test]
fn the_cache_follows_the_listed_outputs() {
    let mut wallet = node_wallet();
    wallet.update_utxo_cache(vec![own(1, 0, 1), own(2, 0, 2)]);
    assert_eq!(wallet.list_all_utxo().len(), 2);
    let mut changed = own(2, 0, 2);
    changed.confirmations = 50;
    wallet.update_utxo_cache(vec![changed, own(3, 0, 3), utxo(4, ScriptBuf::new(), None)]);
    let known = wallet.list_all_utxo();
    let ids: Vec<Txid> = known.iter().map(|u| u.txid).collect();
    assert_eq!(ids, vec![Txid::from_bytes(&vec![2; 32]), Txid::from_bytes(&vec![3; 32])]);
    assert_eq!(known[0].confirmations, 1);
}

#[test]
fn a_second_update_changes_nothing_and_an_empty_one_forgets_all() {
    let list = || vec![own(1, 0, 1), own(2, 0, 2), utxo(4, ScriptBuf::new(), None)];
    let mut wallet = node_wallet();
    wallet.update_utxo_cache(list());
    let once = wallet.list_all_utxo_spend_info();
    wallet.update_utxo_cache(list());
    assert_eq!(wallet.list_all_utxo_spend_info(), once);
    assert_eq!(once.len(), 2);
    wallet.update_utxo_cache(vec![]);
    assert!(wallet.list_all_utxo().is_empty());
}

#[test]
fn only_new_outputs_need_keys() {
    let mut wallet = node_wallet();
    wallet.update_utxo_cache(vec![own(1, 0, 1)]);
    wallet.store.master_key = Xpriv { bytes: vec![0; 78] };
    assert!(wallet.can_update_utxo_cache(&vec![]));
    assert!(wallet.can_update_utxo_cache(&vec![own(1, 0, 1)]));
    assert!(!wallet.can_update_utxo_cache(&vec![own(1, 0, 1), own(2, 0, 2)]));
    wallet.finalize_sync(5, Ok(vec![own(1, 0, 1)])).unwrap();
    assert_eq!(wallet.list_all_utxo().len(), 1);
    let failed = wallet.finalize_sync(6, Ok(vec![own(2, 0, 2)]));
    assert!(matches!(failed, Err(WalletError::Derivation)));
}

#[test]
fn a_finished_sync_refreshes_the_wallet() {
    let mut wallet = node_wallet();
    wallet.finalize_sync(777, Ok(vec![own(1, 0, 6), own(2, 1, 9)])).unwrap();
    assert_eq!(wallet.store.last_synced_height, Some(777));
    assert_eq!(wallet.store.external_index, 7);
    assert_eq!(wallet.store.offer_maxsize, 600);
    assert_eq!(wallet.list_all_utxo().len(), 2);
}

#[test]
fn a_failed_listing_still_records_the_tip() {
    let mut wallet = node_wallet();
    let failed = wallet.finalize_sync(777, Err(WalletError::Interrupted("x".to_string())));
    assert!(matches!(failed, Err(WalletError::Interrupted(_))));
    assert_eq!(wallet.store.last_synced_height, Some(777));
    assert_eq!(wallet.store.external_index, 0);

    wallet.store.master_key = Xpriv { bytes: vec![0; 78] };
    let failed = wallet.finalize_sync(778, Ok(vec![own(1, 0, 6)]));
    assert!(matches!(failed, Err(WalletError::Derivation)));
    assert!(wallet.list_all_utxo().is_empty());
}

#[test]
fn indices_that_cannot_grow_are_an_error() {
    let mut wallet = node_wallet();
    let failed = wallet.finalize_sync(1, Ok(vec![own(1, 0, i32::MAX as u32)]));
    assert!(matches!(failed, Err(WalletError::Overflow)));
    assert_eq!(wallet.store.external_index, 0);
}

#[test]
fn a_shorter_chain_starts_the_scan_over() {
    let mut wallet = node_wallet();
    assert_eq!(wallet.rescan_from(500), 100);
    assert_eq!(wallet.store.last_synced_height, None);
    wallet.store.last_synced_height = Some(300);
    assert_eq!(wallet.rescan_from(500), 300);
    assert_eq!(wallet.rescan_from(200), 0);
    assert_eq!(wallet.store.last_synced_height, Some(0));
}

#[test]
fn the_wallet_of_a_node_is_loaded_or_created() {
    let wallet = node_wallet();
    let names = |list: &[&str]| list.iter().map(|s| s.to_string()).collect::<Vec<_>>();
    let step = |loaded: &[&str], directory: Option<&[&str]>, version: Option<usize>| {
        wallet.core_wallet_step(&names(loaded), &directory.map(names), version)
    };
    assert_eq!(step(&["w"], None, None), CoreWalletStep::Ready);
    assert_eq!(step(&["x"], None, None), CoreWalletStep::AskDirectory);
    assert_eq!(step(&[], Some(&["x", "w"]), None), CoreWalletStep::Load);
    assert_eq!(step(&[], Some(&["x"]), None), CoreWalletStep::AskVersion);
    assert_eq!(step(&[], Some(&[]), Some(209_999)), CoreWalletStep::CreateLegacy);
    assert_eq!(step(&[], Some(&[]), Some(210_000)), CoreWalletStep::CreateDescriptors);
}

#[test]
fn a_node_opens_imports_and_scans_in_turn() {
    let wallet = node_wallet();
    let mut facts = SyncFacts::new();
    assert_eq!(wallet.sync(&facts), SyncStep::AskLoaded);
    facts.loaded = Some(vec![]);
    assert_eq!(wallet.sync(&facts), SyncStep::Open(CoreWalletStep::AskDirectory));
    facts.directory = Some(vec!["w".to_string()]);
    assert_eq!(wallet.sync(&facts), SyncStep::Open(CoreWalletStep::Load));
    facts.opened = true;
    assert_eq!(wallet.sync(&facts), SyncStep::AskDescriptors);
    facts.to_import = Some(0);
    assert_eq!(wallet.sync(&facts), SyncStep::Unchanged);
    facts.to_import = Some(4);
    assert_eq!(wallet.sync(&facts), SyncStep::AskHeight);
    facts.node_height = Some(100);
    assert_eq!(wallet.sync(&facts), SyncStep::Import);
    facts.imported = true;
    assert_eq!(wallet.sync(&facts), SyncStep::AskScan);
    facts.scanning = Some(true);
    assert_eq!(wallet.sync(&facts), SyncStep::Wait);
    facts.scanning = Some(false);
    assert_eq!(wallet.sync(&facts), SyncStep::Finalize);
    assert_eq!(server_wallet().sync(&facts), SyncStep::NoRescan);
}

#[test]
fn a_proof_must_prove_one_transaction() {
    let wallet = node_wallet();
    let (a, b) = (Txid::from_bytes(&vec![1; 32]), Txid::from_bytes(&vec![2; 32]));
    assert!(wallet.verify_tx_out_proof(&a, vec![a]).is_ok());
    for proven in [vec![], vec![b], vec![a, b], vec![a, a]] {
        match wallet.verify_tx_out_proof(&a, proven.clone()) {
            Err(WalletError::MerkleProofInvalid { expected, got }) => {
                assert_eq!(expected, a);
                assert_eq!(got, proven);
            }
            _ => panic!("an error is due"),
        }
    }
}

#[test]
fn a_server_is_told_every_script_of_the_wallet() {
    let mut wallet = server_wallet();
    wallet.store.fidelity_bond.push(bond());
    wallet.add_incoming_swapcoin(&incoming(1));
    wallet.sync_no_rescan(3).unwrap();
    assert_eq!(wallet.rpc.watched.len(), 4 * 500 + 1 + 2);
    let account = derive_account(&master(), AddressType::P2TR).unwrap();
    let script =
        script_from_account(&account, AddressType::P2TR, KeychainKind::Internal, 499).unwrap();
    let origin = wallet.rpc.hd_origin_for_script(&script).unwrap();
    assert_eq!(origin.fingerprint, fingerprint(AddressType::P2TR));
    assert_eq!((origin.keychain_idx, origin.index, origin.is_taproot), (1, 499, true));
    assert!(wallet.rpc.watched.contains(&bond().script_pub_key()));
    assert!(wallet
        .rpc
        .watched
        .contains(&multisig_script_pubkey(&public_key(1), &public_key(101))));
    assert!(!wallet.rpc.decoys.is_empty());
    assert!(wallet.rpc.decoys.iter().all(|d| !wallet.rpc.watched.contains(d)));
    let entries = &wallet.store.decoy_cache.entries;
    assert!(entries.iter().all(|e| e.hd_index > 500));

    wallet.store.master_key = Xpriv { bytes: vec![0; 78] };
    assert!(matches!(wallet.sync_no_rescan(3), Err(WalletError::Derivation)));

    let mut broken = server_wallet();
    broken.rpc.watch_script(&bond().script_pub_key(), None);
    broken.rpc.lock_unspent(&vec![bond().outpoint]);
    broken.store.master_key = Xpriv { bytes: vec![0; 78] };
    assert!(matches!(broken.sync_no_rescan(3), Err(WalletError::Derivation)));
    assert_eq!(broken.rpc.watched, vec![bond().script_pub_key()]);
    assert_eq!(broken.rpc.locked, vec![bond().outpoint]);
}

#[test]
fn a_server_without_privacy_gets_no_decoys() {
    let mut wallet = server_wallet();
    wallet.rpc.privacy.enabled = false;
    wallet.rpc.watch_decoy_script(&ScriptBuf::new());
    wallet.populate_backend_decoy_scripts(3).unwrap();
    assert!(wallet.rpc.decoys.is_empty());
    assert!(wallet.store.decoy_cache.entries.is_empty());
}

#[test]
fn a_node_is_told_nothing_by_script() {
    let mut wallet = node_wallet();
    wallet.populate_backend_watched_scripts().unwrap();
    wallet.populate_backend_decoy_scripts(3).unwrap();
    assert!(wallet.store.decoy_cache.entries.is_empty());
}

#[test]
fn chains_are_imported_unless_both_ends_are_watched() {
    assert!(!needs_import(Some(true), Some(true)));
    assert!(needs_import(Some(true), Some(false)));
    assert!(needs_import(Some(true), None));
    assert!(needs_import(None, Some(true)));
    let wallet = node_wallet();
    let descriptors = || wallet.get_wallet_descriptors(AddressType::P2TR).unwrap();
    let (yes, no) = ((Some(true), Some(true)), (Some(true), Some(false)));
    assert!(wallet.get_unimported_wallet_desc(descriptors(), yes, yes).is_empty());
    assert_eq!(
        wallet.get_unimported_wallet_desc(descriptors(), yes, no),
        vec![descriptors().internal]
    );
    assert_eq!(
        wallet.get_unimported_wallet_desc(descriptors(), no, no),
        vec![descriptors().external, descriptors().internal]
    );
}

#[test]
fn everything_that_the_wallet_watches_is_imported() {
    let mut wallet = node_wallet();
    wallet.store.fidelity_bond.push(bond());
    wallet.add_incoming_swapcoin(&incoming(1));
    let list = wallet
        .descriptors_to_import(vec!["a".to_string()], vec!["b".to_string()])
        .unwrap();
    let hex = |bytes: &[u8]| bytes.iter().map(|b| format!("{b:02x}")).collect::<String>();
    let multi = finish_descriptor(format!(
        "wsh(sortedmulti(2,{},{}))",
        hex(&public_key(101).bytes),
        hex(&public_key(1).bytes)
    ))
    .unwrap();
    let contract = bitcoin::ScriptBuf::from_bytes(vec![0x51, 1]).to_p2wsh();
    let raw = write_raw_descriptor(&ScriptBuf::from_bytes(contract.into_bytes())).unwrap();
    let bond = write_raw_descriptor(&bond().script_pub_key()).unwrap();
    assert_eq!(list, vec!["a".to_string(), "b".to_string(), multi, raw, bond]);
}

#[test]
fn imports_carry_a_range_or_a_label() {
    let wallet = node_wallet();
    let list = vec!["tr(x/0/*)#c".to_string(), "raw(00)#c".to_string()];
    let requests = wallet.import_descriptors(&list, Some(1_000), None).unwrap();
    assert_eq!(requests[0].timestamp, Timestamp::At(8_200));
    assert_eq!(requests[0].range, Some(499));
    assert_eq!(requests[0].label, None);
    assert_eq!(requests[1].desc, "raw(00)#c");
    assert_eq!(requests[1].range, None);
    assert_eq!(requests[1].label, wallet.get_core_wallet_label());
    let requests = wallet.import_descriptors(&list, None, Some("l".to_string())).unwrap();
    assert_eq!(requests[1].timestamp, Timestamp::Now);
    assert_eq!(requests[1].label, Some("l".to_string()));
}

#[test]
fn both_parties_make_the_same_coinswap_address() {
    let secret = |n: u8| SecretKey { bytes: vec![n; 32] };
    let mine = coinswap_address(secret(3), &public_key(4), Network::Regtest).unwrap();
    let theirs = coinswap_address(secret(4), &public_key(3), Network::Regtest).unwrap();
    assert_eq!(mine.address, theirs.address);
    assert_eq!(mine.descriptor, theirs.descriptor);
    assert_eq!(mine.script_pubkey, theirs.script_pubkey);
    let redeem = create_multisig_redeemscript(&public_key(3), &public_key(4));
    let expected = bitcoin::Address::p2wsh(
        &bitcoin::ScriptBuf::from_bytes(redeem.bytes),
        bitcoin::Network::Regtest,
    );
    assert_eq!(mine.address, expected.to_string());
    assert!(matches!(
        coinswap_address(secret(0), &public_key(3), Network::Regtest),
        Err(WalletError::Derivation)
    ));
}

#[test]
fn new_coinswap_addresses_are_imported_and_watched() {
    let mut wallet = server_wallet();
    let (a, requests) = wallet.create_and_import_coinswap_address(&public_key(9)).unwrap();
    let (b, _) = wallet.create_and_import_coinswap_address(&public_key(9)).unwrap();
    assert_ne!(a.my_privkey, b.my_privkey);
    assert_eq!(requests.len(), 1);
    assert_eq!(requests[0].desc, a.descriptor);
    assert_eq!(requests[0].timestamp, Timestamp::Now);
    let again = coinswap_address(a.my_privkey, &public_key(9), Network::Regtest).unwrap();
    assert_eq!(again.address, a.address);
    wallet.watch_coinswap_address(&again);
    assert!(wallet.rpc.watched.contains(&again.script_pubkey));
}

#[test]
fn addresses_stand_for_scripts() {
    let segwit = "bcrt1qw508d6qejxtdg4y5r3zarvary0c5xw7kygt080".to_string();
    let legacy = "1BvBMSEYstWetqTFn5Au4m4GFg7xJaNVN2".to_string();
    let script = |address: &String| {
        let read: bitcoin::Address<bitcoin::address::NetworkUnchecked> = address.parse().unwrap();
        ScriptBuf::from_bytes(read.assume_checked().script_pubkey().into_bytes())
    };
    let scripts = address_scripts(&vec![segwit.clone(), legacy.clone()]).unwrap();
    assert_eq!(scripts, vec![script(&segwit), script(&legacy)]);
    assert_eq!(scripts[0].bytes[..2], [0x00, 0x14]);
    assert!(address_scripts(&vec![]).unwrap().is_empty());
    let error = |list: &[&str]| {
        address_scripts(&list.iter().map(|a| a.to_string()).collect()).unwrap_err()
    };
    assert_eq!(error(&[&segwit, "x", "yy"]), error(&["x"]));
    assert_ne!(error(&["x"]), "x");
}

#[test]
fn receiving_addresses_advance() {
    let mut wallet = node_wallet();
    wallet.store.external_index = 5;
    let request = wallet.next_external_request(AddressType::P2TR).unwrap();
    let descriptors = wallet.get_wallet_descriptors(AddressType::P2TR).unwrap();
    assert_eq!(request.descriptor, descriptors.external);
    assert_eq!((request.start, request.end), (5, 5));
    let derived = vec!["first".to_string(), "second".to_string()];
    assert_eq!(wallet.get_next_external_address(&derived), "first");
    assert_eq!(wallet.store.external_index, 6);
}

#[test]
fn change_addresses_start_at_the_first_unused_index() {
    let mut wallet = node_wallet();
    wallet.finalize_sync(1, Ok(vec![own(1, 1, 4)])).unwrap();
    let request = wallet.get_next_internal_addresses(2, AddressType::P2TR).unwrap();
    let descriptors = wallet.get_wallet_descriptors(AddressType::P2TR).unwrap();
    assert_eq!(request.descriptor, descriptors.internal);
    assert_eq!((request.start, request.end), (5, 7));
    wallet.store.master_key = Xpriv { bytes: vec![0; 78] };
    assert!(matches!(
        wallet.get_next_internal_addresses(2, AddressType::P2TR),
        Err(WalletError::Derivation)
    ));
    assert!(matches!(
        wallet.next_external_request(AddressType::P2WPKH),
        Err(WalletError::Derivation)
    ));
}
