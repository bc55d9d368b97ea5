use bitcoin::hashes::Hash as HashTrait;
use bitcoin::secp256k1::Secp256k1;
use coinswap_wallet::assoc::AssocMap;
use coinswap_wallet::backend::{
    Auth, BackendConfig, BitcoindBackend, BlockchainBackend, ElectrumBackend, ElectrumConfig,
    HdOrigin, RPCConfig,
};
use coinswap_wallet::bytes::ScriptBuf;
use coinswap_wallet::decoy::PrivacyConfig;
use coinswap_wallet::error::WalletError;
use coinswap_wallet::keys::Xpriv;
use coinswap_wallet::multisig::create_multisig_redeemscript;
use coinswap_wallet::open::{network_name, new_mnemonic};
use coinswap_wallet::primitives::{
    AddressType, Network, OutPoint, ProtocolVersion, PublicKey, SecretKey, Transaction, TxIn,
    TxOut, Txid,
};
use coinswap_wallet::raw_tx::{compute_txid, compute_wtxid, decode_tx, encode_tx, txid_text};
use coinswap_wallet::spend_info::{RecoveryOutcome, UTXOSpendInfo};
use coinswap_wallet::store::{FidelityBond, WalletStore};
use coinswap_wallet::swapcoin::{IncomingSwapCoin, OutgoingSwapCoin, WatchOnlySwapCoin};
use coinswap_wallet::wallet::Wallet;

fn seed_key() -> bitcoin::bip32::Xpriv {
    bitcoin::bip32::Xpriv::new_master(bitcoin::Network::Regtest, &[7u8; 32]).unwrap()
}

fn store() -> WalletStore {
    let master = Xpriv { bytes: seed_key().encode().to_vec() };
    WalletStore::new("w".to_string(), Network::Regtest, master, Some(100))
}

fn wallet() -> Wallet<BitcoindBackend> {
    Wallet { rpc: BitcoindBackend { config: RPCConfig::default() }, store: store() }
}

fn public_key(n: u8) -> PublicKey {
    let secret = bitcoin::secp256k1::SecretKey::from_slice(&[n; 32]).unwrap();
    PublicKey { bytes: secret.public_key(&Secp256k1::new()).serialize().to_vec() }
}

fn transaction(n: u8) -> Transaction {
    let id = Txid::from_bytes(&vec![n; 32]);
    Transaction {
        version: 2,
        lock_time: 7,
        input: vec![TxIn {
            previous_output: OutPoint::new(id, 3),
            script_sig: ScriptBuf::new(),
            sequence: 0xFFFF_FFFD,
            witness: vec![vec![1, 2], vec![]],
        }],
        output: vec![TxOut { value: 5000, script_pubkey: ScriptBuf::from_bytes(vec![0x6a, n]) }],
    }
}

fn outside_transaction(n: u8) -> bitcoin::Transaction {
    bitcoin::Transaction {
        version: bitcoin::transaction::Version(2),
        lock_time: bitcoin::absolute::LockTime::from_consensus(7),
        input: vec![bitcoin::TxIn {
            previous_output: bitcoin::OutPoint::new(bitcoin::Txid::from_byte_array([n; 32]), 3),
            script_sig: bitcoin::ScriptBuf::new(),
            sequence: bitcoin::Sequence(0xFFFF_FFFD),
            witness: bitcoin::Witness::from_slice(&[vec![1, 2], vec![]]),
        }],
        output: vec![bitcoin::TxOut {
            value: bitcoin::Amount::from_sat(5000),
            script_pubkey: bitcoin::ScriptBuf::from_bytes(vec![0x6a, n]),
        }],
    }
}

fn incoming(n: u8) -> IncomingSwapCoin {
    IncomingSwapCoin {
        swap_id: Some("swap".to_string()),
        protocol: ProtocolVersion::Legacy,
        my_privkey: Some(SecretKey { bytes: vec![n; 32] }),
        my_pubkey: Some(public_key(n)),
        other_pubkey: Some(public_key(n + 100)),
        other_privkey: None,
        contract_tx: transaction(n),
        contract_vout: 0,
        contract_redeemscript: None,
        hash_preimage: None,
        funding_amount: 5000,
        others_contract_sig: None,
    }
}

fn outgoing(n: u8) -> OutgoingSwapCoin {
    OutgoingSwapCoin {
        swap_id: Some(format!("swap-{n}")),
        protocol: ProtocolVersion::Legacy,
        my_privkey: Some(SecretKey { bytes: vec![n; 32] }),
        my_pubkey: Some(public_key(n)),
        other_pubkey: Some(public_key(n + 100)),
        timelock: Some(20),
        contract_tx: transaction(n),
        contract_vout: 0,
        contract_redeemscript: None,
        hash_preimage: None,
        funding_amount: 5000,
        others_contract_sig: None,
    }
}

#[test]
fn transactions_are_hashed_as_the_chain_hashes_them() {
    let (tx, outside) = (transaction(9), outside_transaction(9));
    let id = outside.compute_txid();
    assert_eq!(compute_txid(&tx).to_bytes(), id.to_byte_array().to_vec());
    assert_eq!(txid_text(&compute_txid(&tx)), id.to_string());
    assert_eq!(compute_wtxid(&tx).to_bytes(), outside.compute_wtxid().to_byte_array().to_vec());
    assert_ne!(compute_txid(&tx), compute_wtxid(&tx));
}

#[test]
fn transactions_are_encoded_and_decoded() {
    let (tx, outside) = (transaction(9), outside_transaction(9));
    let encoding = encode_tx(&tx);
    assert_eq!(encoding, bitcoin::consensus::serialize(&outside));
    assert_eq!(decode_tx(&encoding).unwrap(), tx);
    assert!(decode_tx(&vec![1, 2, 3]).is_err());
}

#[test]
fn a_raw_form_reads_back() {
    let tx = transaction(4);
    assert_eq!(tx.raw().input[0].outpoint.len(), 36);
    assert_eq!(tx.raw().input[0].outpoint[32..], [3, 0, 0, 0]);
    assert_eq!(tx.raw().transaction(), tx);
}

#[test]
fn transaction_ids_hold_their_bytes() {
    let bytes: Vec<u8> = (0..32).collect();
    let id = Txid::from_bytes(&bytes);
    assert_eq!(id.to_bytes(), bytes);
    assert_ne!(id.hi, id.lo);
}

#[test]
fn maps_keep_keys_once_and_in_order() {
    let mut map: AssocMap<u64, u64> = AssocMap::new();
    assert_eq!(map.insert(3, 30), None);
    assert_eq!(map.insert(1, 10), None);
    assert_eq!(map.insert(3, 31), Some(30));
    assert_eq!(map.len(), 2);
    assert_eq!(map.entries, vec![(3, 31), (1, 10)]);
    assert_eq!(map.get(&1), Some(&10));
    assert!(map.contains_key(&3));
    *map.get_mut(&1).unwrap() = 11;
    assert_eq!(map.remove(&3), Some(31));
    assert_eq!(map.remove(&3), None);
    assert_eq!(map.entries, vec![(1, 11)]);
}

#[test]
fn swap_coins_are_kept_by_contract() {
    let mut wallet = wallet();
    wallet.add_incoming_swapcoin(&incoming(1));
    wallet.add_incoming_swapcoin(&incoming(2));
    wallet.add_incoming_swapcoin(&incoming(1));
    wallet.add_outgoing_swapcoin(&outgoing(3));
    assert_eq!(wallet.get_incoming_swapcoins_count(), 2);
    assert_eq!(wallet.get_outgoing_swapcoins_count(), 1);
    let key = compute_txid(&transaction(2));
    assert_eq!(wallet.find_incoming_swapcoin(&key), Some(&incoming(2)));
    wallet.find_incoming_swapcoin_mut(&key).unwrap().funding_amount = 1;
    assert_eq!(wallet.find_incoming_swapcoin(&key).unwrap().funding_amount, 1);
    assert_eq!(wallet.remove_incoming_swapcoin(&key).unwrap().funding_amount, 1);
    assert!(wallet.remove_incoming_swapcoin(&key).is_none());
    assert_eq!(wallet.get_incoming_swapcoins_count(), 1);
    assert_eq!(
        wallet.incoming_contract_outpoints(),
        vec![OutPoint::new(compute_txid(&transaction(1)), 0)]
    );
    assert_eq!(
        wallet.outgoing_contract_outpoints(),
        vec![OutPoint::new(compute_txid(&transaction(3)), 0)]
    );
    wallet.remove_outgoing_swapcoin(&compute_txid(&transaction(3)));
    assert_eq!(wallet.get_outgoing_swapcoins_count(), 0);
}

#[test]
fn swap_coins_are_found_by_their_multisig() {
    let mut wallet = wallet();
    wallet.add_incoming_swapcoin(&incoming(1));
    wallet.add_outgoing_swapcoin(&outgoing(2));
    let mut taproot = outgoing(3);
    taproot.protocol = ProtocolVersion::Taproot;
    wallet.add_outgoing_swapcoin(&taproot);
    let script = |n: u8| create_multisig_redeemscript(&public_key(n), &public_key(n + 100));
    assert_eq!(wallet.find_incoming_swapcoin_by_multisig(&script(1)), Some(&incoming(1)));
    assert_eq!(wallet.find_incoming_swapcoin_by_multisig(&script(2)), None);
    assert_eq!(wallet.find_outgoing_swapcoin_by_multisig(&script(2)), Some(&outgoing(2)));
    assert_eq!(wallet.find_outgoing_swapcoin_by_multisig(&script(3)), None);
}

#[test]
fn swaps_are_found_by_their_ids() {
    let mut wallet = wallet();
    wallet.add_outgoing_swapcoin(&outgoing(2));
    wallet.add_outgoing_swapcoin(&outgoing(3));
    assert_eq!(wallet.outgoing_keys_for_swap("swap-3"), vec![compute_txid(&transaction(3))]);
    assert!(wallet.outgoing_keys_for_swap("swap-4").is_empty());
}

#[test]
fn unfinished_coins_lack_a_key_or_a_preimage() {
    let mut wallet = wallet();
    wallet.add_incoming_swapcoin(&incoming(1));
    let mut done = incoming(2);
    done.other_privkey = Some(SecretKey { bytes: vec![9; 32] });
    wallet.add_incoming_swapcoin(&done);
    wallet.add_outgoing_swapcoin(&outgoing(3));
    let mut known = outgoing(4);
    known.hash_preimage = Some(vec![5; 32]);
    wallet.add_outgoing_swapcoin(&known);
    let (open_in, open_out) = wallet.find_unfinished_swapcoins();
    assert_eq!(open_in, vec![incoming(1)]);
    assert_eq!(open_out, vec![outgoing(3)]);
}

#[test]
fn watched_coins_add_up_by_swap() {
    let coin = |n: u8| WatchOnlySwapCoin {
        protocol: ProtocolVersion::Taproot,
        contract_tx: transaction(n),
        funding_amount: 1,
    };
    let mut wallet = wallet();
    wallet.add_watchonly_swapcoins("a", vec![coin(1)]);
    wallet.add_watchonly_swapcoins("a", vec![coin(2), coin(3)]);
    wallet.add_watchonly_swapcoins("b", vec![coin(4)]);
    let removed = wallet.remove_watchonly_swapcoins("a").unwrap();
    assert_eq!(removed, vec![coin(1), coin(2), coin(3)]);
    assert!(wallet.remove_watchonly_swapcoins("a").is_none());
    assert_eq!(wallet.store.watchonly_swapcoins.len(), 1);
}

#[test]
fn an_agreed_contract_binds_its_output() {
    let mut wallet = wallet();
    let place = OutPoint::new(Txid::from_bytes(&vec![1; 32]), 0);
    let (a, b) = (ScriptBuf::from_bytes(vec![1]), ScriptBuf::from_bytes(vec![2]));
    assert!(wallet.does_prevout_match_cached_contract(&place, &a).unwrap());
    assert!(wallet.does_prevout_match_cached_contract(&place, &b).unwrap());
    wallet.cache_prevout_to_contract(place, a.clone()).unwrap();
    assert!(wallet.does_prevout_match_cached_contract(&place, &a).unwrap());
    assert!(!wallet.does_prevout_match_cached_contract(&place, &b).unwrap());
}

#[test]
fn the_label_is_the_fingerprint_of_the_master_key() {
    let expected = seed_key().fingerprint(&Secp256k1::new()).to_string();
    assert_eq!(wallet().get_core_wallet_label(), Some(expected));
}

#[test]
fn the_onion_key_is_a_clamped_hash() {
    let key = wallet().derive_tor_key();
    let secret = seed_key().private_key.secret_bytes();
    let hash = bitcoin::hashes::sha512::Hash::hash(&secret).to_byte_array();
    assert_eq!(key.len(), 64);
    assert_eq!(key[0], hash[0] & 248);
    assert_eq!(key[31], (hash[31] & 127) | 64);
    assert_eq!(key[1..31], hash[1..31]);
    assert_eq!(key[32..], hash[32..]);
}

#[test]
fn the_tweakable_pair_is_a_hardened_child() {
    let secp = Secp256k1::new();
    let (secret, public, code) = wallet().get_tweakable_keypair().unwrap();
    let path = [bitcoin::bip32::ChildNumber::from_hardened_idx(175).unwrap()];
    let child = seed_key().derive_priv(&secp, &path).unwrap();
    assert_eq!(secret.bytes, child.private_key.secret_bytes().to_vec());
    assert_eq!(public.bytes, child.private_key.public_key(&secp).serialize().to_vec());
    assert_eq!(code, child.chain_code.to_bytes().to_vec());

    let mut broken = wallet();
    broken.store.master_key = Xpriv { bytes: vec![0; 78] };
    assert!(matches!(broken.get_tweakable_keypair(), Err(WalletError::Derivation)));
}

#[test]
fn wallets_are_compared_by_keys_and_coins() {
    let (a, mut b) = (wallet(), wallet());
    b.store.file_name = "other".to_string();
    b.store.last_synced_height = Some(5);
    b.add_incoming_swapcoin(&incoming(1));
    assert!(a.eq(&b));
    b.store.external_index = 1;
    assert!(!a.eq(&b));
    let mut c = wallet();
    c.store.fidelity_bond.push(FidelityBond {
        outpoint: OutPoint::new(Txid::from_bytes(&vec![1; 32]), 0),
        amount: 1,
        lock_time: 2,
        redeem_script: ScriptBuf::new(),
    });
    assert!(!a.eq(&c));
}

#[test]
fn small_getters() {
    let wallet = wallet();
    assert_eq!(wallet.get_name(), "w");
    assert_eq!(*wallet.get_external_index(), 0);
    assert_eq!(wallet.get_addrss_import_count(), 500);
    let coin = incoming(1);
    assert_eq!(coin.get_contract_output_vout(), 0);
    assert!(!coin.is_preimage_known());
    assert_eq!(outgoing(1).get_timelock(), Some(20));
    assert_eq!(outgoing(1).get_contract_output_vout(), 0);
}

#[test]
fn a_bond_is_locked_by_its_redeem_script() {
    let bond = FidelityBond {
        outpoint: OutPoint::new(Txid::from_bytes(&vec![1; 32]), 0),
        amount: 1,
        lock_time: 2,
        redeem_script: ScriptBuf::from_bytes(vec![0x51]),
    };
    let expected = bitcoin::ScriptBuf::from_bytes(vec![0x51]).to_p2wsh();
    assert_eq!(bond.script_pub_key().bytes, expected.into_bytes());
}

#[test]
fn backend_settings_carry_the_wallet_name() {
    let mut config = BackendConfig::Electrum(ElectrumConfig::default());
    assert_eq!(config.wallet_name(), "coinswap-wallet");
    config.set_wallet_name("x".to_string());
    assert_eq!(config.wallet_name(), "x");
    assert!(ElectrumBackend::from_backend_config(&config).is_ok());
    match BitcoindBackend::from_backend_config(&config) {
        Err(WalletError::General(m)) => assert_eq!(m, "expected Bitcoind, got Electrum"),
        _ => panic!("an error is due"),
    }

    let mut config = BackendConfig::Bitcoind(RPCConfig::default());
    assert_eq!(config.wallet_name(), "random-wallet-name");
    config.set_wallet_name("y".to_string());
    assert_eq!(config.wallet_name(), "y");
    assert!(BitcoindBackend::from_backend_config(&config).is_ok());
    match ElectrumBackend::from_backend_config(&config) {
        Err(WalletError::General(m)) => assert_eq!(m, "expected Electrum, got Bitcoind"),
        _ => panic!("an error is due"),
    }
}

#[test]
fn default_backend_settings() {
    let node = RPCConfig::default();
    assert_eq!(node.url, "localhost:18443");
    assert_eq!(
        node.auth,
        Auth::UserPass("regtestrpcuser".to_string(), "regtestrpcpass".to_string())
    );
    assert_eq!(node.zmq_addr, "tcp://127.0.0.1:28332");
    assert_eq!(node.wallet_url(), "http://localhost:18443/wallet/random-wallet-name");
    let server = ElectrumConfig::default();
    assert_eq!(server.url, "electrum1.bluewallet.io:50001");
    assert_eq!(server.privacy, PrivacyConfig::default());
}

#[test]
fn a_node_keeps_no_scripts_here() {
    let mut backend = BitcoindBackend { config: RPCConfig::default() };
    let script = ScriptBuf::from_bytes(vec![1]);
    let origin = HdOrigin {
        fingerprint: "f".to_string(),
        keychain_idx: 0,
        index: 1,
        is_taproot: false,
    };
    backend.watch_script(&script, Some(origin));
    backend.watch_decoy_script(&script);
    backend.clear_decoy_scripts();
    assert!(!BitcoindBackend::is_electrum());
    assert!(backend.privacy_config().is_none());
    assert!(backend.hd_origin_for_script(&script).is_none());
}

#[test]
fn outcomes_are_counted() {
    let id = Txid::from_bytes(&vec![1; 32]);
    let mut outcome = RecoveryOutcome::default();
    assert!(outcome.is_empty());
    outcome.resolved.push((id, id));
    outcome.discarded.push(id);
    assert!(!outcome.is_empty());
    assert_eq!(outcome.len(), 2);
}

#[test]
fn kinds_of_coins_have_names_and_witness_sizes() {
    let script = ScriptBuf::new();
    let seed = |address_type| UTXOSpendInfo::SeedCoin {
        path: "m/0/1".to_string(),
        input_value: 1,
        address_type,
    };
    let swept = UTXOSpendInfo::SweptCoin {
        path: "m/0/1".to_string(),
        input_value: 1,
        address_type: AddressType::P2TR,
    };
    let incoming = UTXOSpendInfo::IncomingSwapCoin { multisig_redeemscript: script.clone() };
    let outgoing = UTXOSpendInfo::OutgoingSwapCoin { multisig_redeemscript: script.clone() };
    let timelock = UTXOSpendInfo::TimelockContract {
        swapcoin_multisig_redeemscript: script.clone(),
        input_value: 1,
    };
    let hashlock = UTXOSpendInfo::HashlockContract {
        swapcoin_multisig_redeemscript: script.clone(),
        input_value: 1,
    };
    let bond = UTXOSpendInfo::FidelityBondCoin { index: 0, input_value: 1 };
    let named = |info: &UTXOSpendInfo| (info.to_string(), info.estimate_witness_size());
    assert_eq!(named(&seed(AddressType::P2WPKH)), ("regular".to_string(), 107));
    assert_eq!(named(&seed(AddressType::P2TR)), ("regular".to_string(), 65));
    assert_eq!(named(&swept), ("swept-incoming-swap".to_string(), 65));
    assert_eq!(named(&incoming), ("incoming-swap".to_string(), 218));
    assert_eq!(named(&outgoing), ("outgoing-swap".to_string(), 218));
    assert_eq!(named(&timelock), ("timelock-contract".to_string(), 179));
    assert_eq!(named(&hashlock), ("hashlock-contract".to_string(), 211));
    assert_eq!(named(&bond), ("fidelity-bond".to_string(), 115));
}

#[test]
fn a_new_wallet_comes_from_its_mnemonic() {
    let words: Vec<String> = "abandon abandon abandon abandon abandon abandon abandon abandon abandon abandon abandon about"
        .split(' ')
        .map(|w| w.to_string())
        .collect();
    let backend = BitcoindBackend { config: RPCConfig::default() };
    let made = Wallet::init(backend, "new".to_string(), Network::Regtest, &words, 42).unwrap();
    let expected =
        bitcoin::bip32::Xpriv::new_master(bitcoin::Network::Regtest, &[0u8; 16]).unwrap();
    assert_eq!(made.store.master_key.bytes, expected.encode().to_vec());
    assert_eq!(made.store.file_name, "new");
    assert_eq!(made.store.network, Network::Regtest);
    assert_eq!(made.store.wallet_birthday, Some(42));
    assert_eq!(made.store.last_synced_height, None);
    assert_eq!(made.store.external_index, 0);
    let cache = &made.store.decoy_cache;
    assert!(cache.entries.is_empty());
    assert_eq!((cache.max_cache_size, cache.max_age_secs), (500, 259_200));
    assert_eq!(cache.rotation_range, (0.27f64.to_bits(), 0.53f64.to_bits()));
    assert_eq!(cache.retire_after_uses_range, (5, 15));

    let backend = BitcoindBackend { config: RPCConfig::default() };
    let nonsense = vec!["no".to_string(); 12];
    let failed = Wallet::init(backend, "new".to_string(), Network::Regtest, &nonsense, 42);
    assert!(matches!(failed, Err(WalletError::Derivation)));
}

#[test]
fn new_mnemonics_have_twelve_words_and_differ() {
    let (a, b) = (new_mnemonic(), new_mnemonic());
    assert_eq!(a.len(), 12);
    assert_ne!(a, b);
    let parsed = bip39::Mnemonic::parse(a.join(" ")).unwrap();
    assert_eq!(parsed.to_entropy().len(), 16);
}

#[test]
fn a_wallet_is_opened_on_its_own_network_only() {
    let backend = BitcoindBackend { config: RPCConfig::default() };
    assert!(Wallet::load(backend, store(), Network::Regtest).is_ok());
    let backend = BitcoindBackend { config: RPCConfig::default() };
    match Wallet::load(backend, store(), Network::Bitcoin) {
        Err(WalletError::General(m)) => assert_eq!(
            m,
            "Wrong Bitcoin Network: wallet file is for regtest, backend is on bitcoin"
        ),
        _ => panic!("an error is due"),
    }
    assert_eq!(network_name(Network::Testnet), bitcoin::Network::Testnet.to_string());
    assert_eq!(network_name(Network::Signet), bitcoin::Network::Signet.to_string());
}
