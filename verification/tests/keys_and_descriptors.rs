use bitcoin::bip32::{ChildNumber, DerivationPath, Xpub};
use bitcoin::key::CompressedPublicKey;
use bitcoin::secp256k1::Secp256k1;
use coinswap_wallet::addresses::{derive_addresses_local, read_descriptor};
use coinswap_wallet::bytes::ScriptBuf;
use coinswap_wallet::checksum::compute_checksum;
use coinswap_wallet::descriptor::{
    descriptor_type, finish_descriptor, get_hd_path_from_descriptor, write_multi_descriptor,
    write_raw_descriptor, write_sortedmulti_descriptor, write_wallet_descriptor,
};
use coinswap_wallet::error::WalletError;
use coinswap_wallet::keys::{
    derive_account, derive_at, get_derivation_path, script_from_account, script_of_key, Xpriv,
};
use coinswap_wallet::multisig::{
    create_multisig_redeemscript, multisig_script_pubkey, redeemscript_to_scriptpubkey,
};
use coinswap_wallet::primitives::{
    AddressType, KeychainKind, Network, PublicKey, SecretKey,
};
use std::str::FromStr;

fn seed_key() -> bitcoin::bip32::Xpriv {
    bitcoin::bip32::Xpriv::new_master(bitcoin::Network::Regtest, &[7u8; 32]).unwrap()
}

fn master() -> Xpriv {
    Xpriv { bytes: seed_key().encode().to_vec() }
}

fn outside_account(path: &str) -> bitcoin::bip32::Xpriv {
    let path = DerivationPath::from_str(path).unwrap();
    seed_key().derive_priv(&Secp256k1::new(), &path).unwrap()
}

fn public_key(n: u8) -> PublicKey {
    let secret = bitcoin::secp256k1::SecretKey::from_slice(&[n; 32]).unwrap();
    let key = secret.public_key(&Secp256k1::new());
    PublicKey { bytes: key.serialize().to_vec() }
}

#[test]
fn chains_are_numbered() {
    assert_eq!(KeychainKind::External.index_num(), 0);
    assert_eq!(KeychainKind::Internal.index_num(), 1);
}

#[test]
fn account_keys_are_derived_along_their_paths() {
    assert_eq!(get_derivation_path(AddressType::P2WPKH), "m/84'/1'/0'");
    assert_eq!(get_derivation_path(AddressType::P2TR), "m/86'/1'/0'");
    let segwit = derive_account(&master(), AddressType::P2WPKH).unwrap();
    assert_eq!(segwit.bytes, outside_account("m/84'/1'/0'").encode().to_vec());
    let taproot = derive_account(&master(), AddressType::P2TR).unwrap();
    assert_eq!(taproot.bytes, outside_account("m/86'/1'/0'").encode().to_vec());
    assert_ne!(segwit.bytes, master().bytes);
}

#[test]
fn a_broken_key_or_path_derives_nothing() {
    let broken = Xpriv { bytes: vec![0; 78] };
    assert!(matches!(
        derive_account(&broken, AddressType::P2TR),
        Err(WalletError::Derivation)
    ));
    assert!(matches!(derive_at(&master(), "m/x"), Err(WalletError::Derivation)));
}

#[test]
fn parts_of_a_key_are_read_from_its_encoding() {
    let key = seed_key();
    assert_eq!(master().secret_key().bytes, key.private_key.secret_bytes().to_vec());
    assert_eq!(master().chain_code(), key.chain_code.to_bytes().to_vec());
}

#[test]
fn scripts_of_an_account_match_their_addresses() {
    let secp = Secp256k1::new();
    let child = |account: &str, chain: u32, index: u32| {
        let path = [
            ChildNumber::from_normal_idx(chain).unwrap(),
            ChildNumber::from_normal_idx(index).unwrap(),
        ];
        let key = outside_account(account).derive_priv(&secp, &path).unwrap();
        key.private_key.public_key(&secp)
    };

    let account = derive_account(&master(), AddressType::P2WPKH).unwrap();
    let made = script_from_account(&account, AddressType::P2WPKH, KeychainKind::External, 5);
    let key = CompressedPublicKey(child("m/84'/1'/0'", 0, 5));
    let expected = bitcoin::ScriptBuf::new_p2wpkh(&key.wpubkey_hash());
    assert_eq!(made.unwrap().bytes, expected.into_bytes());

    let account = derive_account(&master(), AddressType::P2TR).unwrap();
    let made = script_from_account(&account, AddressType::P2TR, KeychainKind::Internal, 7);
    let key = child("m/86'/1'/0'", 1, 7).x_only_public_key().0;
    let expected = bitcoin::ScriptBuf::new_p2tr(&secp, key, None);
    assert_eq!(made.unwrap().bytes, expected.into_bytes());

    let hardened = script_from_account(
        &account,
        AddressType::P2TR,
        KeychainKind::Internal,
        0x8000_0000,
    );
    assert!(matches!(hardened, Err(WalletError::Derivation)));
}

#[test]
fn an_invalid_secret_has_no_script() {
    let zero = SecretKey { bytes: vec![0; 32] };
    assert!(matches!(
        script_of_key(&zero, AddressType::P2WPKH),
        Err(WalletError::Derivation)
    ));
}

#[test]
fn checksums_match_known_descriptors() {
    assert_eq!(compute_checksum("raw(deadbeef)").unwrap(), "89f8spxm");
    assert_eq!(
        compute_checksum(
            "wpkh([d34db33f/84h/0h/0h]xpub6DJ2dNUysrn5Vt36jH2KLBT2i1auw1tTSSomg8PhqNiUtx8QX2SvC9nrHu81fT41fvDUnhMjEzQgXnQjKEu3oaqMSzhSrHMxyyoEAmUHQbY/0/*)"
        )
        .unwrap(),
        "cjjspncu"
    );
    assert!(matches!(
        compute_checksum("raw(\u{e9})"),
        Err(WalletError::InvalidDescriptor)
    ));
}

#[test]
fn a_finished_descriptor_ends_with_its_checksum() {
    assert_eq!(finish_descriptor("raw(deadbeef)".to_string()).unwrap(), "raw(deadbeef)#89f8spxm");
    assert!(matches!(
        finish_descriptor("\n".to_string()),
        Err(WalletError::InvalidDescriptor)
    ));
}

#[test]
fn wallet_descriptors_name_their_account_keys() {
    let secp = Secp256k1::new();
    let xpub = Xpub::from_priv(&secp, &outside_account("m/86'/1'/0'"));
    let made = write_wallet_descriptor(&master(), AddressType::P2TR, KeychainKind::Internal);
    let body = format!("tr({xpub}/1/*)");
    let sum = compute_checksum(&body).unwrap();
    assert_eq!(made.unwrap(), format!("{body}#{sum}"));

    let xpub = Xpub::from_priv(&secp, &outside_account("m/84'/1'/0'"));
    let made = write_wallet_descriptor(&master(), AddressType::P2WPKH, KeychainKind::External);
    let body = format!("wpkh({xpub}/0/*)");
    let sum = compute_checksum(&body).unwrap();
    assert_eq!(made.unwrap(), format!("{body}#{sum}"));

    let broken = Xpriv { bytes: vec![0; 78] };
    assert!(matches!(
        write_wallet_descriptor(&broken, AddressType::P2TR, KeychainKind::Internal),
        Err(WalletError::Derivation)
    ));
}

#[test]
fn script_descriptors_are_written_in_hexadecimal() {
    let script = ScriptBuf::from_bytes(vec![0xde, 0xad, 0xbe, 0xef]);
    assert_eq!(write_raw_descriptor(&script).unwrap(), "raw(deadbeef)#89f8spxm");

    let key = |b: u8| PublicKey { bytes: vec![b; 2] };
    let sorted = write_sortedmulti_descriptor(&key(0xab), &key(0x01)).unwrap();
    assert!(sorted.starts_with("wsh(sortedmulti(2,abab,0101))#"));
    let ordered = write_multi_descriptor(&key(0x0f), &key(0xf0)).unwrap();
    assert!(ordered.starts_with("wsh(multi(2,0f0f,f0f0))#"));
}

#[test]
fn the_origin_of_a_descriptor_gives_a_place() {
    let descriptor = "wpkh([a945b5ca/1/12]029b77637989868dcd502dbc07d6304dc2150301693ae84a60b379c3b696b289ad)#aq759em9";
    let place = get_hd_path_from_descriptor(descriptor).unwrap();
    assert_eq!(place.fingerprint, "a945b5ca");
    assert_eq!(place.keychain_idx, 1);
    assert_eq!(place.index, 12);
    assert!(get_hd_path_from_descriptor("wpkh(029b)").is_none());
    assert!(get_hd_path_from_descriptor("wpkh([a945b5ca/1]029b)").is_none());
    assert!(get_hd_path_from_descriptor("wpkh([a945b5ca/1/2/3]029b)").is_none());
    assert!(get_hd_path_from_descriptor("wpkh([a945b5ca/x/2]029b)").is_none());
    assert!(get_hd_path_from_descriptor("]wpkh([a945b5ca/1/2029b").is_none());
}

#[test]
fn the_type_of_a_descriptor_is_read_from_its_start() {
    assert_eq!(descriptor_type("tr([aa/0/1]02)"), AddressType::P2TR);
    assert_eq!(descriptor_type("wpkh([aa/0/1]02)"), AddressType::P2WPKH);
}

#[test]
fn addresses_of_a_wallet_descriptor_are_derived() {
    let secp = Secp256k1::new();
    let descriptor =
        write_wallet_descriptor(&master(), AddressType::P2WPKH, KeychainKind::Internal).unwrap();
    let made = derive_addresses_local(&descriptor, 3, 5, Network::Regtest).unwrap();
    let xpub = Xpub::from_priv(&secp, &outside_account("m/84'/1'/0'"));
    let expected: Vec<String> = (3..=5u32)
        .map(|index| {
            let path = [
                ChildNumber::from_normal_idx(1).unwrap(),
                ChildNumber::from_normal_idx(index).unwrap(),
            ];
            let key = CompressedPublicKey(xpub.derive_pub(&secp, &path).unwrap().public_key);
            bitcoin::Address::p2wpkh(&key, bitcoin::Network::Regtest).to_string()
        })
        .collect();
    assert_eq!(made, expected);

    let descriptor =
        write_wallet_descriptor(&master(), AddressType::P2TR, KeychainKind::External).unwrap();
    let made = derive_addresses_local(&descriptor, 0, 0, Network::Bitcoin).unwrap();
    let xpub = Xpub::from_priv(&secp, &outside_account("m/86'/1'/0'"));
    let path = [
        ChildNumber::from_normal_idx(0).unwrap(),
        ChildNumber::from_normal_idx(0).unwrap(),
    ];
    let key = xpub.derive_pub(&secp, &path).unwrap().public_key.x_only_public_key().0;
    let expected = bitcoin::Address::p2tr(&secp, key, None, bitcoin::Network::Bitcoin);
    assert_eq!(made, vec![expected.to_string()]);
}

#[test]
fn a_descriptor_reads_back_without_its_checksum() {
    let descriptor =
        write_wallet_descriptor(&master(), AddressType::P2TR, KeychainKind::Internal).unwrap();
    let body = descriptor.split('#').next().unwrap().to_string();
    assert_eq!(
        derive_addresses_local(&descriptor, 1, 2, Network::Signet).unwrap(),
        derive_addresses_local(&body, 1, 2, Network::Signet).unwrap()
    );
    assert!(read_descriptor(&descriptor).is_ok());
}

#[test]
fn descriptors_of_other_forms_are_refused() {
    let error = |d: &str| {
        let error = derive_addresses_local(d, 0, 0, Network::Regtest).unwrap_err();
        assert_eq!(derive_addresses_local(d, 7, 3, Network::Regtest), Err(error.clone()));
        error
    };
    assert_eq!(error("pkh(x/0/*)"), "deriveaddresses: unsupported descriptor: pkh(x/0/*)");
    assert_eq!(error("tr(x/0/*"), "deriveaddresses: missing closing `)`: tr(x/0/*");
    assert_eq!(error("tr(x/0/1)"), "deriveaddresses: unexpected key form: x/0/1");
    assert_eq!(error("wpkh(x)"), "deriveaddresses: unexpected key form: x");
    assert_eq!(error("tr(x/y/*)"), "deriveaddresses: chain index parse");
    assert_eq!(error("tr(x/0/*)"), "deriveaddresses: xpub parse");
}

#[test]
fn a_key_at_the_greatest_depth_has_no_children() {
    let mut xpub = Xpub::from_priv(&Secp256k1::new(), &outside_account("m/86'/1'/0'"));
    xpub.depth = 255;
    let descriptor = format!("tr({xpub}/0/*)");
    let result = derive_addresses_local(&descriptor, 0, 0, Network::Regtest);
    assert_eq!(
        result.unwrap_err(),
        "deriveaddresses: derive: cannot derive child of depth 256 or higher"
    );
}

#[test]
fn both_parties_make_the_same_multisig() {
    let (a, b) = (public_key(3), public_key(4));
    let script = create_multisig_redeemscript(&a, &b);
    assert_eq!(script, create_multisig_redeemscript(&b, &a));
    assert_eq!(script.bytes.len(), 71);
    assert_eq!(script.bytes[0], 0x52);
    assert_eq!(script.bytes[69], 0x52);
    assert_eq!(script.bytes[70], 0xae);
    let (first, second) = if a.bytes < b.bytes { (&a, &b) } else { (&b, &a) };
    assert_eq!(&script.bytes[2..35], &first.bytes[..]);
    assert_eq!(&script.bytes[36..69], &second.bytes[..]);

    let outside = bitcoin::ScriptBuf::from_bytes(script.bytes.clone()).to_p2wsh();
    assert_eq!(multisig_script_pubkey(&a, &b).bytes, outside.clone().into_bytes());
    assert_eq!(redeemscript_to_scriptpubkey(&script).bytes, outside.into_bytes());
}
