use bitcoin::hashes::Hash as HashTrait;
use coinswap_wallet::backend::{
    BlockHash, BlockchainBackend, ElectrumBackend, ElectrumConfig, HdOrigin,
};
use coinswap_wallet::bytes::ScriptBuf;
use coinswap_wallet::electrum::{
    chain_name, entry_confirmations, header_confirmations, output_to_check, raw_transaction_info,
    transaction_to_send, tx_out_info, CallArgs, CallReply, UnspentEntry, VerboseTx,
};
use coinswap_wallet::error::WalletError;
use coinswap_wallet::primitives::{Network, OutPoint, Transaction, TxIn, TxOut, Txid};
use coinswap_wallet::query::PrivateQueryItem;
use coinswap_wallet::raw_tx::{compute_txid, compute_wtxid, encode_tx, txid_text};

fn genesis(network: bitcoin::Network) -> Vec<u8> {
    let mut hash = bitcoin::constants::genesis_block(network).block_hash().to_byte_array();
    hash.reverse();
    hash.to_vec()
}

fn backend() -> ElectrumBackend {
    ElectrumBackend::new(&ElectrumConfig::default(), &genesis(bitcoin::Network::Regtest)).unwrap()
}

fn script(n: u8) -> ScriptBuf {
    ScriptBuf::from_bytes(vec![0x51, n])
}

fn id(n: u8) -> Txid {
    Txid::from_bytes(&vec![n; 32])
}

fn entry(n: u8, height: usize) -> UnspentEntry {
    UnspentEntry { tx_hash: id(n), tx_pos: n as usize, height, value: 1_000 * n as u64 }
}

fn transaction() -> Transaction {
    Transaction {
        version: 2,
        lock_time: 0,
        input: vec![TxIn {
            previous_output: OutPoint::new(id(1), 0),
            script_sig: ScriptBuf::new(),
            sequence: 1,
            witness: vec![vec![1]],
        }],
        output: vec![
            TxOut { value: 10, script_pubkey: script(1) },
            TxOut { value: 20, script_pubkey: script(2) },
        ],
    }
}

fn hex(bytes: &[u8]) -> String {
    bytes.iter().map(|b| format!("{b:02x}")).collect()
}

fn verbose(hex: Option<String>, confirmations: Option<u64>) -> VerboseTx {
    VerboseTx { confirmations, hex }
}

#[test]
fn the_network_is_told_by_the_first_block() {
    let of = |network| {
        ElectrumBackend::new(&ElectrumConfig::default(), &genesis(network)).unwrap().network
    };
    assert_eq!(of(bitcoin::Network::Bitcoin), Network::Bitcoin);
    assert_eq!(of(bitcoin::Network::Testnet), Network::Testnet);
    assert_eq!(of(bitcoin::Network::Signet), Network::Signet);
    assert_eq!(of(bitcoin::Network::Regtest), Network::Regtest);
    let mut internal = genesis(bitcoin::Network::Bitcoin);
    internal.reverse();
    match ElectrumBackend::new(&ElectrumConfig::default(), &internal) {
        Err(WalletError::General(m)) => assert_eq!(
            m,
            format!("unknown genesis from electrum server: {internal:?}")
        ),
        _ => panic!("an error is due"),
    }
    match ElectrumBackend::new(&ElectrumConfig::default(), &vec![]) {
        Err(WalletError::General(m)) => {
            assert_eq!(m, "unknown genesis from electrum server: []")
        }
        _ => panic!("an error is due"),
    }
}

#[test]
fn watched_scripts_and_decoys_are_kept_apart() {
    let mut backend = backend();
    let origin = || HdOrigin {
        fingerprint: "f".to_string(),
        keychain_idx: 1,
        index: 2,
        is_taproot: true,
    };
    assert!(ElectrumBackend::is_electrum());
    backend.watch_script(&script(1), Some(origin()));
    backend.watch_script(&script(1), None);
    backend.watch_script(&script(2), None);
    backend.watch_decoy_script(&script(3));
    backend.watch_decoy_script(&script(3));
    assert_eq!(backend.watched, vec![script(1), script(2)]);
    assert_eq!(backend.decoys, vec![script(3)]);
    let known = backend.hd_origin_for_script(&script(1)).unwrap();
    assert_eq!((known.keychain_idx, known.index, known.is_taproot), (1, 2, true));
    assert!(backend.hd_origin_for_script(&script(2)).is_none());
    assert!(backend.privacy_config().unwrap().enabled);
    backend.clear_decoy_scripts();
    assert!(backend.decoys.is_empty());
}

#[test]
fn confirmations_count_from_the_block() {
    assert_eq!(entry_confirmations(0, 100), 0);
    assert_eq!(entry_confirmations(100, 100), 1);
    assert_eq!(entry_confirmations(91, 100), 10);
    assert_eq!(entry_confirmations(200, 100), 0);
    assert_eq!(header_confirmations(91, 100), 10);
    assert_eq!(header_confirmations(200, 100), 0);
}

#[test]
fn outputs_are_listed_without_decoys_and_locked_ones() {
    let mut backend = backend();
    backend.lock_unspent(&vec![OutPoint::new(id(3), 3), OutPoint::new(id(3), 3)]);
    assert_eq!(backend.locked.len(), 1);
    let item = |n: u8, is_real: bool| PrivateQueryItem { script: script(n), is_real };
    let batches = vec![
        vec![item(1, true), item(2, false)],
        vec![item(3, true), item(4, true)],
    ];
    let replies = vec![
        vec![vec![entry(1, 100), entry(2, 0)], vec![entry(9, 100)]],
        vec![vec![entry(3, 100), entry(4, 99)]],
    ];
    let listed = backend.list_unspent(None, 100, &batches, &replies);
    let places: Vec<Txid> = listed.iter().map(|u| u.txid).collect();
    assert_eq!(places, vec![id(1), id(2), id(4)]);
    assert_eq!(listed[0].script_pub_key, script(1));
    assert_eq!(listed[0].amount, 1_000);
    assert_eq!(listed[0].vout, 1);
    assert_eq!(listed[0].confirmations, 1);
    assert_eq!(listed[1].confirmations, 0);
    assert_eq!(listed[2].confirmations, 2);
    assert!(listed[0].spendable && listed[0].solvable && listed[0].safe);
    assert!(listed[0].descriptor.is_none());
    let deep = backend.list_unspent(Some(2), 100, &batches, &replies);
    assert_eq!(deep.len(), 1);
    assert!(backend.unlock_unspent_all());
    assert_eq!(backend.list_unspent(None, 100, &batches, &replies).len(), 4);
}

#[test]
fn own_scripts_are_asked_for_once() {
    let mut backend = backend();
    assert!(backend.query_batches().is_empty());
    for n in 0..30 {
        backend.watch_script(&script(n), None);
    }
    let plain = backend.query_batches();
    assert_eq!(plain.len(), 1);
    assert!(plain[0].iter().all(|i| i.is_real));
    for n in 100..120 {
        backend.watch_decoy_script(&script(n));
    }
    let mixed = backend.query_batches();
    let own: Vec<&PrivateQueryItem> = mixed.iter().flatten().filter(|i| i.is_real).collect();
    assert_eq!(own.len(), 30);
    assert!(own.iter().all(|i| backend.watched.contains(&i.script)));
    assert!(mixed.iter().flatten().any(|i| !i.is_real));
}

#[test]
fn privacy_does_not_change_what_is_listed() {
    let list = |privacy: bool| {
        let mut backend = backend();
        backend.privacy.enabled = privacy;
        for n in 0..30 {
            backend.watch_script(&script(n), None);
        }
        for n in 100..120 {
            backend.watch_decoy_script(&script(n));
        }
        backend.lock_unspent(&vec![OutPoint::new(id(3), 3)]);
        let batches = backend.query_batches();
        let answer = |item: &PrivateQueryItem| vec![entry(item.script.bytes[1], 100)];
        let replies = batches.iter().map(|b| b.iter().map(answer).collect()).collect();
        let mut found: Vec<u32> = backend
            .list_unspent(None, 100, &batches, &replies)
            .iter()
            .map(|u| u.vout)
            .collect();
        found.sort();
        found
    };
    let expected: Vec<u32> = (0..30).filter(|n| *n != 3).collect();
    assert_eq!(list(true), expected);
    assert_eq!(list(false), expected);
}

#[test]
fn witnesses_do_not_change_an_id() {
    let mut signed = transaction();
    signed.input[0].witness = vec![vec![7; 64], vec![8]];
    assert_eq!(compute_txid(&signed), compute_txid(&transaction()));
    assert_ne!(compute_wtxid(&signed), compute_wtxid(&transaction()));
    let mut other = transaction();
    other.lock_time = 1;
    assert_ne!(compute_txid(&other), compute_txid(&transaction()));
}

#[test]
fn ids_are_written_backwards() {
    let bytes: Vec<u8> = (0..32).collect();
    let backwards: Vec<u8> = (0..32).rev().collect();
    assert_eq!(txid_text(&Txid::from_bytes(&bytes)), hex(&backwards));
    let hash = BlockHash {
        hi: u128::from_le_bytes(bytes[..16].try_into().unwrap()),
        lo: u128::from_le_bytes(bytes[16..].try_into().unwrap()),
    };
    assert_eq!(
        backend().cached_height(&hash),
        Err(format!("electrum: unknown block hash {} (no cached height)", hex(&backwards)))
    );
}

#[test]
fn headers_are_remembered_both_ways() {
    let mut backend = backend();
    let hash = BlockHash { hi: 1, lo: 2 };
    assert_eq!(backend.cached_block_hash(7), None);
    let mut bytes = [0u8; 32];
    bytes[0] = 1;
    bytes[16] = 2;
    let text = bitcoin::BlockHash::from_byte_array(bytes).to_string();
    assert_eq!(
        backend.cached_height(&hash),
        Err(format!("electrum: unknown block hash {text} (no cached height)"))
    );
    backend.remember_header(7, hash);
    assert_eq!(backend.cached_block_hash(7), Some(hash));
    assert_eq!(backend.cached_height(&hash), Ok(7));
}

#[test]
fn chains_have_the_names_that_a_node_gives() {
    assert_eq!(chain_name(Network::Bitcoin), "main");
    assert_eq!(chain_name(Network::Testnet), "test");
    assert_eq!(chain_name(Network::Signet), "signet");
    assert_eq!(chain_name(Network::Regtest), "regtest");
}

#[test]
fn transactions_to_send_are_decoded() {
    let raw = hex(&encode_tx(&transaction()));
    assert_eq!(transaction_to_send(&raw).unwrap(), transaction());
    assert!(transaction_to_send("zz").unwrap_err().starts_with("hex decode: "));
    assert!(transaction_to_send("00").unwrap_err().starts_with("tx decode: "));
}

#[test]
fn raw_transactions_are_described() {
    let encoding = encode_tx(&transaction());
    let txid = compute_txid(&transaction());
    let info = raw_transaction_info(verbose(Some(hex(&encoding)), Some(3)), &txid).unwrap();
    assert_eq!(info.confirmations, Some(3));
    assert_eq!(info.hex, hex(&encoding));
    assert_eq!(info.size, encoding.len());
    assert_eq!(info.hash, compute_wtxid(&transaction()));
    assert_eq!(info.tx, transaction());

    let name = txid_text(&txid);
    assert_eq!(
        raw_transaction_info(verbose(None, None), &txid).unwrap_err(),
        format!("electrum: missing `hex` field for transaction {name}")
    );
    let error = raw_transaction_info(verbose(Some("z".to_string()), None), &txid).unwrap_err();
    assert!(error.starts_with(&format!("electrum: invalid transaction hex for {name}: ")));
    let error = raw_transaction_info(verbose(Some("00".to_string()), None), &txid).unwrap_err();
    assert!(error.starts_with(&format!("electrum: undecodable transaction bytes for {name}: ")));
}

#[test]
fn an_output_is_told_while_it_is_unspent() {
    let raw = || Some(verbose(Some(hex(&encode_tx(&transaction()))), Some(5)));
    assert_eq!(output_to_check(&None, 0).unwrap(), None);
    assert_eq!(output_to_check(&raw(), 2).unwrap(), None);
    let output = output_to_check(&raw(), 1).unwrap().unwrap();
    assert_eq!(output, TxOut { value: 20, script_pubkey: script(2) });
    assert!(output_to_check(&Some(verbose(None, None)), 0)
        .unwrap_err()
        .starts_with("get_tx_out tx decode: "));
    assert!(output_to_check(&Some(verbose(Some("q".to_string()), None)), 0)
        .unwrap_err()
        .starts_with("get_tx_out hex decode: "));

    let copy = || TxOut { value: 20, script_pubkey: script(2) };
    let entries = Some(vec![entry(4, 1), entry(7, 1)]);
    let info = tx_out_info(copy(), &entries, &id(7), 7, Some(5)).unwrap();
    assert_eq!((info.confirmations, info.value), (5, 20));
    assert_eq!(info.script_pubkey, script(2));
    assert_eq!(tx_out_info(copy(), &entries, &id(7), 7, None).unwrap().confirmations, 0);
    assert!(tx_out_info(copy(), &entries, &id(7), 4, Some(5)).is_none());
    assert!(tx_out_info(copy(), &None, &id(7), 7, Some(5)).is_none());
}

#[test]
fn calls_of_node_methods_are_answered() {
    let mut backend = backend();
    backend.lock_unspent(&vec![OutPoint::new(id(3), 3)]);
    let call = |cmd: &str, args: CallArgs| backend.call(cmd, &args);
    let nothing = || CallArgs { first_len: None, first_text: None, range: None };
    let imported = CallArgs { first_len: Some(3), ..nothing() };
    assert!(matches!(call("importdescriptors", imported), Ok(CallReply::Imported(3))));
    assert!(matches!(call("importdescriptors", nothing()), Ok(CallReply::Imported(0))));
    match call("listlockunspent", nothing()) {
        Ok(CallReply::Locked(list)) => assert_eq!(list, vec![OutPoint::new(id(3), 3)]),
        _ => panic!("a list is due"),
    }
    assert_eq!(
        call("deriveaddresses", nothing()).unwrap_err(),
        "deriveaddresses: missing descriptor"
    );
    let secp = bitcoin::secp256k1::Secp256k1::new();
    let key = bitcoin::bip32::Xpriv::new_master(bitcoin::Network::Regtest, &[7u8; 32]).unwrap();
    let xpub = bitcoin::bip32::Xpub::from_priv(&secp, &key);
    let derive = |range| CallArgs {
        first_len: None,
        first_text: Some(format!("tr({xpub}/0/*)")),
        range,
    };
    let count = |range| match call("deriveaddresses", derive(range)) {
        Ok(CallReply::Addresses(list)) => list.len(),
        _ => panic!("addresses are due"),
    };
    assert_eq!(count(None), 1);
    assert_eq!(count(Some((Some(2), Some(4)))), 3);
    assert_eq!(count(Some((Some(2), None))), 1);
    assert_eq!(count(Some((None, Some(1)))), 2);
    assert_eq!(
        call("getmininginfo", nothing()).unwrap_err(),
        "ElectrumBackend: rpc method 'getmininginfo' not supported"
    );
    let reversed = || CallArgs { first_len: Some(2), first_text: None, range: Some((Some(5), Some(1))) };
    assert!(matches!(call("importdescriptors", reversed()), Ok(CallReply::Imported(2))));
    assert_eq!(
        call("getmininginfo", reversed()).unwrap_err(),
        "ElectrumBackend: rpc method 'getmininginfo' not supported"
    );
    assert_eq!(
        call("deriveaddresses", reversed()).unwrap_err(),
        "deriveaddresses: missing descriptor"
    );
    let unreadable = CallArgs { first_text: Some("pkh(x)".to_string()), ..reversed() };
    assert_eq!(
        call("deriveaddresses", unreadable).unwrap_err(),
        "deriveaddresses: unsupported descriptor: pkh(x)"
    );
    let range = Some((Some(5), Some(1)));
    assert!(backend.try_call("deriveaddresses", &derive(range)).is_none());
    assert!(matches!(
        backend.try_call("deriveaddresses", &derive(Some((Some(1), Some(5))))),
        Some(Ok(CallReply::Addresses(list))) if list.len() == 5
    ));
    assert!(matches!(backend.try_call("getmininginfo", &derive(range)), Some(Err(_))));
    assert!(matches!(backend.try_call("deriveaddresses", &reversed()), Some(Err(_))));
}
