use bitcoin::key::TapTweak;
use bitcoin::secp256k1::{ecdsa, schnorr, Keypair, Message, Secp256k1};
use bitcoin::sighash::{EcdsaSighashType, Prevouts, SighashCache, TapSighashType};
use coinswap_wallet::backend::{BitcoindBackend, RPCConfig};
use coinswap_wallet::bytes::ScriptBuf;
use coinswap_wallet::error::WalletError;
use coinswap_wallet::keys::Xpriv;
use coinswap_wallet::multisig::create_multisig_redeemscript;
use coinswap_wallet::primitives::{
    AddressType, Network, OutPoint, ProtocolVersion, PublicKey, SecretKey, Transaction, TxIn, TxOut,
    Txid,
};
use coinswap_wallet::raw_tx::{compute_txid, encode_tx};
use coinswap_wallet::signing::{Signer, SwapSigning};
use coinswap_wallet::spend_info::UTXOSpendInfo;
use coinswap_wallet::store::{FidelityBond, WalletStore};
use coinswap_wallet::swapcoin::{IncomingSwapCoin, OutgoingSwapCoin};
use coinswap_wallet::wallet::Wallet;
use std::str::FromStr;

fn seed_key() -> bitcoin::bip32::Xpriv {
    bitcoin::bip32::Xpriv::new_master(bitcoin::Network::Regtest, &[7u8; 32]).unwrap()
}

fn wallet() -> Wallet<BitcoindBackend> {
    let master = Xpriv { bytes: seed_key().encode().to_vec() };
    let mut store = WalletStore::new("w".to_string(), Network::Regtest, master, None);
    store.fidelity_bond.push(FidelityBond {
        outpoint: OutPoint::new(Txid::from_bytes(&vec![9; 32]), 0),
        amount: 3_000,
        lock_time: 2,
        redeem_script: ScriptBuf::from_bytes(vec![0x51]),
    });
    Wallet { rpc: BitcoindBackend { config: RPCConfig::default() }, store }
}

fn secret_at(path: &str) -> bitcoin::secp256k1::SecretKey {
    let path = bitcoin::bip32::DerivationPath::from_str(path).unwrap();
    seed_key().derive_priv(&Secp256k1::new(), &path).unwrap().private_key
}

fn transaction(inputs: u8) -> Transaction {
    let input = |n: u8| TxIn {
        previous_output: OutPoint::new(Txid::from_bytes(&vec![n; 32]), n as u32),
        script_sig: ScriptBuf::new(),
        sequence: 0xFFFF_FFFE,
        witness: vec![],
    };
    Transaction {
        version: 2,
        lock_time: 11,
        input: (0..inputs).map(input).collect(),
        output: vec![TxOut { value: 900, script_pubkey: ScriptBuf::from_bytes(vec![0x51]) }],
    }
}

fn signed_with(witness: Vec<Vec<u8>>) -> Transaction {
    let mut tx = transaction(2);
    tx.input[0].witness = witness;
    tx.input[1].witness = vec![vec![0xEE]];
    tx
}

fn public_key(n: u8) -> PublicKey {
    let secret = bitcoin::secp256k1::SecretKey::from_slice(&[n; 32]).unwrap();
    PublicKey { bytes: secret.public_key(&Secp256k1::new()).serialize().to_vec() }
}

fn contract(n: u8) -> Transaction {
    Transaction { version: n as i32, ..transaction(1) }
}

fn received(n: u8, keys: u8) -> IncomingSwapCoin {
    IncomingSwapCoin {
        swap_id: None,
        protocol: ProtocolVersion::Legacy,
        my_privkey: None,
        my_pubkey: Some(public_key(keys)),
        other_pubkey: Some(public_key(keys + 1)),
        other_privkey: None,
        contract_tx: contract(n),
        contract_vout: 0,
        contract_redeemscript: None,
        hash_preimage: None,
        funding_amount: 1_000 + n as u64,
        others_contract_sig: None,
    }
}

fn sent(n: u8, keys: u8) -> OutgoingSwapCoin {
    OutgoingSwapCoin {
        swap_id: None,
        protocol: ProtocolVersion::Legacy,
        my_privkey: None,
        my_pubkey: Some(public_key(keys)),
        other_pubkey: Some(public_key(keys + 1)),
        timelock: Some(20),
        contract_tx: contract(n),
        contract_vout: 0,
        contract_redeemscript: None,
        hash_preimage: None,
        funding_amount: 2_000 + n as u64,
        others_contract_sig: None,
    }
}

fn outside(tx: &Transaction) -> bitcoin::Transaction {
    bitcoin::consensus::deserialize(&encode_tx(tx)).unwrap()
}

fn segwit_coin() -> UTXOSpendInfo {
    UTXOSpendInfo::SeedCoin {
        path: "m/0/5".to_string(),
        input_value: 1_000,
        address_type: AddressType::P2WPKH,
    }
}

fn taproot_coin() -> UTXOSpendInfo {
    UTXOSpendInfo::SweptCoin {
        path: "m/1/6".to_string(),
        input_value: 2_000,
        address_type: AddressType::P2TR,
    }
}

fn bond_coin() -> UTXOSpendInfo {
    UTXOSpendInfo::FidelityBondCoin { index: 0, input_value: 3_000 }
}

fn swap_coin() -> UTXOSpendInfo {
    UTXOSpendInfo::IncomingSwapCoin { multisig_redeemscript: ScriptBuf::new() }
}

#[test]
fn every_kind_of_input_is_signed() {
    let secp = Secp256k1::new();
    let unsigned = transaction(4);
    let mut tx = transaction(4);
    let infos = vec![segwit_coin(), taproot_coin(), bond_coin(), swap_coin()];
    let signers = vec![
        Signer::Seed,
        Signer::Seed,
        Signer::Bond(Ok(SecretKey { bytes: vec![5; 32] })),
        Signer::SwapCoin(Ok(signed_with(vec![vec![1], vec![2, 3]]))),
    ];
    wallet().sign_transaction(&mut tx, &infos, signers).unwrap();

    let segwit_secret = secret_at("m/84'/1'/0'/0/5");
    let segwit_key = bitcoin::PublicKey::new(segwit_secret.public_key(&secp));
    let segwit_script = bitcoin::ScriptBuf::new_p2wpkh(&segwit_key.wpubkey_hash().unwrap());
    let taproot_pair = Keypair::from_secret_key(&secp, &secret_at("m/86'/1'/0'/1/6"));
    let taproot_script =
        bitcoin::ScriptBuf::new_p2tr(&secp, taproot_pair.x_only_public_key().0, None);
    let bond_script = bitcoin::ScriptBuf::from_bytes(vec![0x51]);

    let raw = outside(&unsigned);
    let mut cache = SighashCache::new(&raw);
    let value = bitcoin::Amount::from_sat;

    let digest = cache
        .p2wpkh_signature_hash(0, &segwit_script, value(1_000), EcdsaSighashType::All)
        .unwrap();
    let witness = &tx.input[0].witness;
    assert_eq!(witness.len(), 2);
    assert_eq!(witness[1], segwit_key.to_bytes());
    let (last, der) = witness[0].split_last().unwrap();
    assert_eq!(*last, 1);
    let signature = ecdsa::Signature::from_der(der).unwrap();
    let message = Message::from(digest);
    assert!(secp.verify_ecdsa(&message, &signature, &segwit_key.inner).is_ok());
    assert_eq!(signature, secp.sign_ecdsa_low_r(&message, &segwit_secret));

    let prevouts = vec![
        bitcoin::TxOut { value: value(1_000), script_pubkey: segwit_script },
        bitcoin::TxOut { value: value(2_000), script_pubkey: taproot_script },
        bitcoin::TxOut { value: value(3_000), script_pubkey: bond_script.to_p2wsh() },
        bitcoin::TxOut { value: value(0), script_pubkey: bitcoin::ScriptBuf::new() },
    ];
    let digest = cache
        .taproot_key_spend_signature_hash(1, &Prevouts::All(&prevouts), TapSighashType::Default)
        .unwrap();
    let witness = &tx.input[1].witness;
    assert_eq!(witness.len(), 1);
    assert_eq!(witness[0].len(), 64);
    let signature = schnorr::Signature::from_slice(&witness[0]).unwrap();
    let tweaked = taproot_pair.tap_tweak(&secp, None).to_keypair().x_only_public_key().0;
    assert!(secp.verify_schnorr(&signature, &Message::from(digest), &tweaked).is_ok());

    let digest = cache
        .p2wsh_signature_hash(2, &bond_script, value(3_000), EcdsaSighashType::All)
        .unwrap();
    let witness = &tx.input[2].witness;
    assert_eq!(witness[1], vec![0x51]);
    let (last, der) = witness[0].split_last().unwrap();
    assert_eq!(*last, 1);
    let signature = ecdsa::Signature::from_der(der).unwrap();
    let bond_key = bitcoin::secp256k1::SecretKey::from_slice(&[5; 32]).unwrap().public_key(&secp);
    assert!(secp.verify_ecdsa(&Message::from(digest), &signature, &bond_key).is_ok());

    assert_eq!(tx.input[3].witness, vec![vec![1], vec![2, 3]]);
    assert_eq!(compute_txid(&tx), compute_txid(&unsigned));

    for input in tx.input.iter_mut() {
        input.witness.clear();
    }
    assert_eq!(tx, unsigned);
}

#[test]
fn swap_coins_are_asked_for_what_is_due() {
    let mut wallet = wallet();
    wallet.add_incoming_swapcoin(&received(1, 10));
    wallet.add_incoming_swapcoin(&received(2, 20));
    wallet.add_incoming_swapcoin(&received(3, 20));
    wallet.add_outgoing_swapcoin(&sent(4, 30));
    wallet.add_outgoing_swapcoin(&sent(5, 20));
    let redeem = create_multisig_redeemscript(&public_key(20), &public_key(21));
    let tx = transaction(1);
    let spend = || SwapSigning::Spend {
        coin: received(2, 20),
        value: 1_002,
        script: ScriptBuf::from_bytes(vec![0x51]),
        feerate: 1,
    };
    let incoming = UTXOSpendInfo::IncomingSwapCoin { multisig_redeemscript: redeem.clone() };
    assert_eq!(wallet.swap_signing(&incoming, &tx), Some(spend()));
    let hashlock = UTXOSpendInfo::HashlockContract {
        swapcoin_multisig_redeemscript: redeem.clone(),
        input_value: 9,
    };
    assert_eq!(wallet.swap_signing(&hashlock, &tx), Some(spend()));
    let timelock = UTXOSpendInfo::TimelockContract {
        swapcoin_multisig_redeemscript: redeem.clone(),
        input_value: 9,
    };
    assert_eq!(
        wallet.swap_signing(&timelock, &tx),
        Some(SwapSigning::Recovery { coin: sent(5, 20), tx: transaction(1) })
    );
    let outgoing = UTXOSpendInfo::OutgoingSwapCoin { multisig_redeemscript: redeem };
    for info in [segwit_coin(), taproot_coin(), bond_coin(), outgoing] {
        assert_eq!(wallet.swap_signing(&info, &tx), None);
    }
}

#[test]
fn signatures_stand_behind_what_was_there() {
    let mut tx = transaction(2);
    tx.input[0].witness = vec![vec![9]];
    tx.input[1].witness = vec![vec![9]];
    let infos = vec![segwit_coin(), swap_coin()];
    let signers = vec![Signer::Seed, Signer::SwapCoin(Ok(signed_with(vec![vec![8]])))];
    wallet().sign_transaction(&mut tx, &infos, signers).unwrap();
    assert_eq!(tx.input[0].witness.len(), 3);
    assert_eq!(tx.input[0].witness[0], vec![9]);
    assert_eq!(tx.input[1].witness, vec![vec![8]]);
}

#[test]
fn the_numbers_of_inputs_and_signers_must_agree() {
    let mut tx = transaction(2);
    let result = wallet().sign_transaction(&mut tx, &vec![segwit_coin()], vec![Signer::Seed]);
    match result {
        Err(WalletError::General(m)) => assert_eq!(
            m,
            "Mismatched signer/input counts: tx has 2 inputs but signer metadata has 1 entries"
        ),
        _ => panic!("an error is due"),
    }
    assert_eq!(tx, transaction(2));
}

#[test]
fn sent_coins_are_not_signed() {
    let mut tx = transaction(3);
    let infos = vec![
        segwit_coin(),
        UTXOSpendInfo::OutgoingSwapCoin { multisig_redeemscript: ScriptBuf::new() },
        segwit_coin(),
    ];
    let result =
        wallet().sign_transaction(&mut tx, &infos, vec![Signer::Seed, Signer::Seed, Signer::Seed]);
    match result {
        Err(WalletError::General(m)) => assert_eq!(m, "Can't sign for outgoing swapcoins"),
        _ => panic!("an error is due"),
    }
    assert_eq!(tx.input[0].witness.len(), 2);
    assert!(tx.input[1].witness.is_empty());
    assert!(tx.input[2].witness.is_empty());
}

#[test]
fn errors_of_other_signers_are_passed_on() {
    let mut tx = transaction(1);
    let signers = vec![Signer::SwapCoin(Err(WalletError::Interrupted("x".to_string())))];
    let result = wallet().sign_transaction(&mut tx, &vec![swap_coin()], signers);
    assert!(matches!(result, Err(WalletError::Interrupted(m)) if m == "x"));
    let signers = vec![Signer::Bond(Err(WalletError::Overflow))];
    let result = wallet().sign_transaction(&mut tx, &vec![bond_coin()], signers);
    assert!(matches!(result, Err(WalletError::Overflow)));
    let signers = vec![Signer::Bond(Ok(SecretKey { bytes: vec![0; 32] }))];
    let result = wallet().sign_transaction(&mut tx, &vec![bond_coin()], signers);
    assert!(matches!(result, Err(WalletError::Signing)));
}

#[test]
fn keys_that_cannot_be_derived_sign_nothing() {
    let mut tx = transaction(1);
    let infos = vec![UTXOSpendInfo::SeedCoin {
        path: "nonsense".to_string(),
        input_value: 1,
        address_type: AddressType::P2TR,
    }];
    let result = wallet().sign_transaction(&mut tx, &infos, vec![Signer::Seed]);
    assert!(matches!(result, Err(WalletError::Derivation)));
    assert_eq!(tx, transaction(1));
}
