//! Keys, scripts and signatures, as the `bitcoin` crate computes them.
use vstd::prelude::*;
use vstd::string::*;
use bitcoin::consensus::deserialize;
use bitcoin::hashes::Hash as HashTrait;
use bitcoin::hex::FromHex;
use bitcoin::key::TapTweak;
use bitcoin::secp256k1::{Keypair, Message, Secp256k1};
use bitcoin::sighash::{EcdsaSighashType, Prevouts, SighashCache, TapSighashType};
use crate::bytes::{byte_part, copy_bytes, option_view, views, Duplicate, ScriptBuf};
use crate::error::WalletError;
use crate::primitives::{
    AddressType, KeychainKind, Network, PublicKey, SecretKey, Transaction, TxOut, TxOutView,
};

verus! {

/// An extended private key, as its 78-byte BIP-32 encoding.
#[derive(Debug, PartialEq, Eq)]
pub struct Xpriv {
    /// The encoding.
    pub bytes: Vec<u8>,
}

impl View for Xpriv {
    type V = Seq<u8>;

    open spec fn view(&self) -> Seq<u8> {
        self.bytes@
    }
}

impl Duplicate for Xpriv {
    fn duplicate(&self) -> (copy: Self) {
        Xpriv { bytes: copy_bytes(&self.bytes) }
    }
}

/// The encoding of the key that `bitcoin` derives below an encoded extended private key along a
/// path of child numbers, if the key is valid and the derivation succeeds.
pub uninterp spec fn derived_key(key: Seq<u8>, path: Seq<u32>) -> Option<Seq<u8>>;

/// Calls `bitcoin::bip32::Xpriv::derive_priv` on the key that `Xpriv::decode` reads. The contract
/// names the encoding of the derived key, or that there is none, as a function of the key's
/// encoding and the child numbers, of which those from 2^31 on are hardened. An encoding that
/// gives a key has 78 bytes.
#[verifier::external_body]
pub(crate) fn derive_priv(key: &Xpriv, path: &Vec<u32>) -> (child: Option<Xpriv>)
    ensures
        option_view(child) == derived_key(key@, path@),
        child matches Some(c) ==> c@.len() == 78,
{
    let path: Vec<bitcoin::bip32::ChildNumber> = path.iter().map(|n| (*n).into()).collect();
    let child = bitcoin::bip32::Xpriv::decode(&key.bytes).ok()?.derive_priv(&Secp256k1::new(), &path);
    child.ok().map(|k| Xpriv { bytes: k.encode().to_vec() })
}

/// The child numbers of a derivation path in text, if `bitcoin` can read it.
pub uninterp spec fn parsed_path(text: Seq<char>) -> Option<Seq<u32>>;

/// Calls `bitcoin::bip32::DerivationPath::from_str`. The contract names the child numbers, or that
/// the text is no path, as a function of the text.
#[verifier::external_body]
pub(crate) fn parse_path(text: &str) -> (path: Option<Vec<u32>>)
    ensures
        option_view(path) == parsed_path(text@),
{
    let path = text.parse::<bitcoin::bip32::DerivationPath>().ok()?;
    Some(path.into_iter().map(|n| u32::from(*n)).collect())
}

/// The text of the fingerprint of an encoded extended private key, if the key is valid.
pub uninterp spec fn key_fingerprint(key: Seq<u8>) -> Option<Seq<char>>;

/// Calls `bitcoin::bip32::Xpriv::fingerprint` and displays it. The contract names the text as a
/// function of the key's encoding.
#[verifier::external_body]
pub(crate) fn fingerprint_text(key: &Xpriv) -> (text: Option<String>)
    ensures
        option_view(text) == key_fingerprint(key@),
{
    let key = bitcoin::bip32::Xpriv::decode(&key.bytes).ok()?;
    Some(key.fingerprint(&Secp256k1::new()).to_string())
}

/// The text of the extended public key of an encoded extended private key, if the key is valid.
pub uninterp spec fn xpub_display(key: Seq<u8>) -> Option<Seq<char>>;

/// Calls `bitcoin::bip32::Xpub::from_priv` and displays it. The contract names the text as a
/// function of the key's encoding.
#[verifier::external_body]
pub(crate) fn xpub_text(key: &Xpriv) -> (text: Option<String>)
    ensures
        option_view(text) == xpub_display(key@),
{
    let key = bitcoin::bip32::Xpriv::decode(&key.bytes).ok()?;
    Some(bitcoin::bip32::Xpub::from_priv(&Secp256k1::new(), &key).to_string())
}

/// The encoding of the master key that a seed gives on a network, if it gives one.
pub uninterp spec fn master_key_of(network: Network, seed: Seq<u8>) -> Option<Seq<u8>>;

/// Calls `bitcoin::bip32::Xpriv::new_master`. The contract names the encoding of the key, or that
/// there is none, as a function of the network and the seed.
#[verifier::external_body]
pub(crate) fn new_master(network: Network, seed: &Vec<u8>) -> (key: Option<Xpriv>)
    ensures
        option_view(key) == master_key_of(network, seed@),
        key matches Some(k) ==> k@.len() == 78,
{
    let network = match network {
        Network::Bitcoin => bitcoin::Network::Bitcoin,
        Network::Testnet => bitcoin::Network::Testnet,
        Network::Signet => bitcoin::Network::Signet,
        Network::Regtest => bitcoin::Network::Regtest,
    };
    let key = bitcoin::bip32::Xpriv::new_master(network, seed).ok()?;
    Some(Xpriv { bytes: key.encode().to_vec() })
}

/// The compressed public key of a private key, if the private key is valid.
pub uninterp spec fn public_key_bytes(secret: Seq<u8>) -> Option<Seq<u8>>;

/// Calls `bitcoin::secp256k1::SecretKey::public_key`. The contract names the compressed key, or
/// that the bytes are no private key, as a function of the bytes.
#[verifier::external_body]
pub(crate) fn public_key_of(secret: &SecretKey) -> (key: Option<PublicKey>)
    ensures
        option_view(key) == public_key_bytes(secret@),
        key matches Some(k) ==> k@.len() == 33,
{
    let secret = bitcoin::secp256k1::SecretKey::from_slice(&secret.bytes).ok()?;
    Some(PublicKey { bytes: secret.public_key(&Secp256k1::new()).serialize().to_vec() })
}

/// The P2WPKH script of a compressed public key, if the key is valid.
pub uninterp spec fn p2wpkh_bytes(key: Seq<u8>) -> Option<Seq<u8>>;

/// Calls `bitcoin::ScriptBuf::new_p2wpkh` on the hash of a key. The contract names the script as a
/// function of the key's bytes.
#[verifier::external_body]
pub(crate) fn p2wpkh_script(key: &PublicKey) -> (script: Option<ScriptBuf>)
    ensures
        option_view(script) == p2wpkh_bytes(key@),
{
    let key = bitcoin::CompressedPublicKey::from_slice(&key.bytes).ok()?;
    Some(ScriptBuf { bytes: bitcoin::ScriptBuf::new_p2wpkh(&key.wpubkey_hash()).into_bytes() })
}

/// The P2TR script whose internal key is the given public key, if the key is valid.
pub uninterp spec fn p2tr_bytes(key: Seq<u8>) -> Option<Seq<u8>>;

/// Calls `bitcoin::ScriptBuf::new_p2tr` without a script tree. The contract names the script as a
/// function of the key's bytes.
#[verifier::external_body]
pub(crate) fn p2tr_script(key: &PublicKey) -> (script: Option<ScriptBuf>)
    ensures
        option_view(script) == p2tr_bytes(key@),
{
    let key = bitcoin::secp256k1::PublicKey::from_slice(&key.bytes).ok()?;
    let script = bitcoin::ScriptBuf::new_p2tr(&Secp256k1::new(), key.x_only_public_key().0, None);
    Some(ScriptBuf { bytes: script.into_bytes() })
}

/// The P2WSH script of a witness script.
pub uninterp spec fn p2wsh_bytes(script: Seq<u8>) -> Seq<u8>;

/// Calls `bitcoin::Script::to_p2wsh`. The contract names the script as a function of the witness
/// script's bytes.
#[verifier::external_body]
pub(crate) fn p2wsh_script(script: &ScriptBuf) -> (locked: ScriptBuf)
    ensures
        locked@ == p2wsh_bytes(script@),
{
    let script = bitcoin::ScriptBuf::from_bytes(script.bytes.clone());
    ScriptBuf { bytes: script.to_p2wsh().into_bytes() }
}

/// The SHA-512 hash of a byte string.
pub uninterp spec fn sha512_of(bytes: Seq<u8>) -> Seq<u8>;

/// Calls `bitcoin::hashes::sha512::Hash::hash`. The contract names the hash, which has 64 bytes, as
/// a function of the bytes.
#[verifier::external_body]
pub(crate) fn sha512(bytes: &Vec<u8>) -> (hash: Vec<u8>)
    ensures
        hash@ == sha512_of(bytes@),
        hash@.len() == 64,
{
    bitcoin::hashes::sha512::Hash::hash(bytes).to_byte_array().to_vec()
}

/// The view of a result with a text as its error.
pub open spec fn result_view<T: View>(result: Result<T, String>) -> Result<T::V, Seq<char>> {
    match result {
        Ok(value) => Ok(value@),
        Err(e) => Err(e@),
    }
}

/// The bytes that a text of hexadecimal digits stands for, or the text of the error that `bitcoin`
/// gives.
pub uninterp spec fn hex_bytes(text: Seq<char>) -> Result<Seq<u8>, Seq<char>>;

/// Calls `bitcoin::hex::FromHex::from_hex`. The contract names the bytes, or the text of the error,
/// as a function of the text.
#[verifier::external_body]
pub(crate) fn decode_hex(text: &str) -> (bytes: Result<Vec<u8>, String>)
    ensures
        result_view(bytes) == hex_bytes(text@),
{
    Vec::<u8>::from_hex(text).map_err(|e| e.to_string())
}

/// The hash that a P2WPKH signature of input `index` commits to, for the encoding of a
/// transaction, the P2WPKH script and the value of the coin, if there is one.
pub uninterp spec fn p2wpkh_sighash(
    raw: Seq<u8>,
    index: usize,
    script: Seq<u8>,
    value: u64,
) -> Option<Seq<u8>>;

/// Calls `bitcoin::sighash::SighashCache::p2wpkh_signature_hash` for all inputs and outputs. The
/// contract names the hash as a function of the arguments.
#[verifier::external_body]
pub(crate) fn sighash_p2wpkh(raw: &Vec<u8>, index: usize, script: &ScriptBuf, value: u64) -> (hash:
    Option<Vec<u8>>)
    ensures
        option_view(hash) == p2wpkh_sighash(raw@, index, script@, value),
{
    let tx = deserialize::<bitcoin::Transaction>(raw).ok()?;
    let script = bitcoin::ScriptBuf::from_bytes(script.bytes.clone());
    let value = bitcoin::Amount::from_sat(value);
    let hash = SighashCache::new(&tx).p2wpkh_signature_hash(index, &script, value, EcdsaSighashType::All);
    hash.ok().map(|h| h.to_byte_array().to_vec())
}

/// The hash that a P2WSH signature of input `index` commits to, for the encoding of a
/// transaction, the witness script and the value of the coin, if there is one.
pub uninterp spec fn p2wsh_sighash(
    raw: Seq<u8>,
    index: usize,
    script: Seq<u8>,
    value: u64,
) -> Option<Seq<u8>>;

/// Calls `bitcoin::sighash::SighashCache::p2wsh_signature_hash` for all inputs and outputs. The
/// contract names the hash as a function of the arguments.
#[verifier::external_body]
pub(crate) fn sighash_p2wsh(raw: &Vec<u8>, index: usize, script: &ScriptBuf, value: u64) -> (hash:
    Option<Vec<u8>>)
    ensures
        option_view(hash) == p2wsh_sighash(raw@, index, script@, value),
{
    let tx = deserialize::<bitcoin::Transaction>(raw).ok()?;
    let script = bitcoin::ScriptBuf::from_bytes(script.bytes.clone());
    let value = bitcoin::Amount::from_sat(value);
    let hash = SighashCache::new(&tx).p2wsh_signature_hash(index, &script, value, EcdsaSighashType::All);
    hash.ok().map(|h| h.to_byte_array().to_vec())
}

/// The hash that a Taproot key-path signature of input `index` commits to, for the encoding of a
/// transaction and the outputs that it spends, if there is one.
pub uninterp spec fn taproot_sighash(
    raw: Seq<u8>,
    index: usize,
    prevouts: Seq<TxOutView>,
) -> Option<Seq<u8>>;

/// Calls `bitcoin::sighash::SighashCache::taproot_key_spend_signature_hash` with the default type.
/// The contract names the hash as a function of the arguments.
#[verifier::external_body]
pub(crate) fn sighash_taproot(raw: &Vec<u8>, index: usize, prevouts: &Vec<TxOut>) -> (hash: Option<
    Vec<u8>,
>)
    ensures
        option_view(hash) == taproot_sighash(raw@, index, views(prevouts@)),
{
    let tx = deserialize::<bitcoin::Transaction>(raw).ok()?;
    let prevouts: Vec<bitcoin::TxOut> = prevouts.iter().map(|o| bitcoin::TxOut {
        value: bitcoin::Amount::from_sat(o.value), script_pubkey: o.script_pubkey.bytes.clone().into(),
    }).collect();
    let hash = SighashCache::new(&tx).taproot_key_spend_signature_hash(index, &Prevouts::All(&prevouts), TapSighashType::Default);
    hash.ok().map(|h| h.to_byte_array().to_vec())
}

/// The DER encoding of the deterministic low-R ECDSA signature of a digest, if the digest and the
/// private key are valid.
pub uninterp spec fn ecdsa_signature(digest: Seq<u8>, secret: Seq<u8>) -> Option<Seq<u8>>;

/// Calls `secp256k1::Secp256k1::sign_ecdsa_low_r`, which draws no randomness. The contract names the
/// DER encoding as a function of the digest and the key.
#[verifier::external_body]
pub(crate) fn sign_ecdsa(digest: &Vec<u8>, secret: &SecretKey) -> (signature: Option<Vec<u8>>)
    ensures
        option_view(signature) == ecdsa_signature(digest@, secret@),
{
    let message = Message::from_digest_slice(digest).ok()?;
    let secret = bitcoin::secp256k1::SecretKey::from_slice(&secret.bytes).ok()?;
    Some(Secp256k1::new().sign_ecdsa_low_r(&message, &secret).serialize_der().to_vec())
}

/// The private key that opens the P2TR output of a private key without a script tree, if the
/// private key is valid.
pub uninterp spec fn tweaked_key(secret: Seq<u8>) -> Option<Seq<u8>>;

/// Calls `bitcoin::key::TapTweak::tap_tweak` on a key pair, without a script tree. The contract
/// names the tweaked private key as a function of the private key.
#[verifier::external_body]
pub(crate) fn tap_tweak(secret: &SecretKey) -> (tweaked: Option<SecretKey>)
    ensures
        option_view(tweaked) == tweaked_key(secret@),
{
    let secp = Secp256k1::new();
    let pair = Keypair::from_seckey_slice(&secp, &secret.bytes).ok()?;
    Some(SecretKey { bytes: pair.tap_tweak(&secp, None).to_keypair().secret_bytes().to_vec() })
}

/// Whether `secp256k1::Secp256k1::verify_schnorr` accepts a signature of a digest for an x-only public
/// key.
pub uninterp spec fn schnorr_verifies(signature: Seq<u8>, digest: Seq<u8>, key: Seq<u8>) -> bool;

/// The x-only form of a compressed public key: all but its first byte.
pub open spec fn x_only(key: Seq<u8>) -> Seq<u8> {
    key.subrange(1, 33)
}

/// Calls `secp256k1::Secp256k1::sign_schnorr`, which draws auxiliary randomness. Claimed: a
/// signature has 64 bytes, verifies for the public key of the private key, and comes exactly where
/// the digest has 32 bytes and the private key has a public key. Which of the valid signatures comes
/// is chance.
#[verifier::external_body]
pub(crate) fn sign_schnorr(digest: &Vec<u8>, secret: &SecretKey) -> (signature: Option<Vec<u8>>)
    ensures
        signature matches Some(s) ==> s@.len() == 64 && schnorr_verifies(
            s@,
            digest@,
            x_only(public_key_bytes(secret@)->Some_0),
        ),
        (signature is Some) == (digest@.len() == 32 && public_key_bytes(secret@) is Some),
{
    let secp = Secp256k1::new();
    let message = Message::from_digest_slice(digest).ok()?;
    let pair = Keypair::from_seckey_slice(&secp, &secret.bytes).ok()?;
    Some(secp.sign_schnorr(&message, &pair).as_ref().to_vec())
}

/// Draws a private key. Calls `secp256k1::SecretKey::new` with the thread's generator of random
/// numbers. Claimed: the key has 32 bytes and has a public key. Which one comes is chance.
#[verifier::external_body]
pub(crate) fn random_secret() -> (secret: SecretKey)
    ensures
        secret@.len() == 32,
        public_key_bytes(secret@) is Some,
{
    let mut rng = bitcoin::secp256k1::rand::thread_rng();
    SecretKey { bytes: bitcoin::secp256k1::SecretKey::new(&mut rng).secret_bytes().to_vec() }
}

/// The derivation path of the account key of an address type, in text.
pub open spec fn spec_derivation_path(address_type: AddressType) -> Seq<char> {
    match address_type {
        AddressType::P2WPKH => "m/84'/1'/0'"@,
        AddressType::P2TR => "m/86'/1'/0'"@,
    }
}

/// The derivation path of the account key of an address type, in text.
pub fn get_derivation_path(address_type: AddressType) -> (path: &'static str)
    ensures
        path@ == spec_derivation_path(address_type),
{
    match address_type {
        AddressType::P2WPKH => "m/84'/1'/0'",
        AddressType::P2TR => "m/86'/1'/0'",
    }
}

/// The key at a path in text below another key, if there is one.
pub open spec fn key_at(key: Seq<u8>, path: Seq<char>) -> Option<Seq<u8>> {
    match parsed_path(path) {
        Some(numbers) => derived_key(key, numbers),
        None => None,
    }
}

/// Derives the key at a path in text.
pub fn derive_at(key: &Xpriv, path: &str) -> (child: Result<Xpriv, WalletError>)
    ensures
        match child {
            Ok(c) => key_at(key@, path@) == Some(c@) && c@.len() == 78,
            Err(e) => key_at(key@, path@) is None && e == WalletError::Derivation,
        },
{
    match parse_path(path) {
        Some(numbers) => match derive_priv(key, &numbers) {
            Some(child) => Ok(child),
            None => Err(WalletError::Derivation),
        },
        None => Err(WalletError::Derivation),
    }
}

/// The account key of an address type below a master key, if there is one.
pub open spec fn account_key(master: Seq<u8>, address_type: AddressType) -> Option<Seq<u8>> {
    key_at(master, spec_derivation_path(address_type))
}

/// Derives the account key of an address type.
pub fn derive_account(master: &Xpriv, address_type: AddressType) -> (account: Result<
    Xpriv,
    WalletError,
>)
    ensures
        match account {
            Ok(k) => account_key(master@, address_type) == Some(k@) && k@.len() == 78,
            Err(e) => account_key(master@, address_type) is None && e == WalletError::Derivation,
        },
{
    derive_at(master, get_derivation_path(address_type))
}

/// The private key within the encoding of an extended private key: its last 32 bytes.
pub open spec fn private_part(key: Seq<u8>) -> Seq<u8> {
    key.subrange(46, 78)
}

/// The chain code within the encoding of an extended private key.
pub open spec fn chain_code_part(key: Seq<u8>) -> Seq<u8> {
    key.subrange(13, 45)
}

impl Xpriv {
    /// The private key of an extended private key.
    pub fn secret_key(&self) -> (secret: SecretKey)
        requires
            self@.len() == 78,
        ensures
            secret@ == private_part(self@),
    {
        SecretKey { bytes: byte_part(&self.bytes, 46, 78) }
    }

    /// The chain code of an extended private key.
    pub fn chain_code(&self) -> (code: Vec<u8>)
        requires
            self@.len() == 78,
        ensures
            code@ == chain_code_part(self@),
    {
        byte_part(&self.bytes, 13, 45)
    }
}

/// The single-signature script of a private key, if the key is valid.
pub open spec fn key_script(secret: Seq<u8>, address_type: AddressType) -> Option<Seq<u8>> {
    match public_key_bytes(secret) {
        Some(key) => match address_type {
            AddressType::P2WPKH => p2wpkh_bytes(key),
            AddressType::P2TR => p2tr_bytes(key),
        },
        None => None,
    }
}

/// Makes the single-signature script of a private key.
pub fn script_of_key(secret: &SecretKey, address_type: AddressType) -> (script: Result<
    ScriptBuf,
    WalletError,
>)
    ensures
        match script {
            Ok(s) => key_script(secret@, address_type) == Some(s@),
            Err(e) => key_script(secret@, address_type) is None && e == WalletError::Derivation,
        },
{
    let key = match public_key_of(secret) {
        Some(key) => key,
        None => {
            return Err(WalletError::Derivation);
        },
    };
    let script = match address_type {
        AddressType::P2WPKH => p2wpkh_script(&key),
        AddressType::P2TR => p2tr_script(&key),
    };
    match script {
        Some(script) => Ok(script),
        None => Err(WalletError::Derivation),
    }
}

/// The script of an account key's child at a place of a chain, if there is one.
pub open spec fn account_script(
    account: Seq<u8>,
    address_type: AddressType,
    keychain: KeychainKind,
    index: u32,
) -> Option<Seq<u8>> {
    if index >= 0x8000_0000 {
        None
    } else {
        match derived_key(account, seq![keychain.spec_index_num(), index]) {
            Some(child) => key_script(private_part(child), address_type),
            None => None,
        }
    }
}

/// Makes the script at a place of a chain below an account key.
pub fn script_from_account(
    account: &Xpriv,
    address_type: AddressType,
    keychain: KeychainKind,
    index: u32,
) -> (script: Result<ScriptBuf, WalletError>)
    ensures
        match script {
            Ok(s) => account_script(account@, address_type, keychain, index) == Some(s@),
            Err(e) => account_script(account@, address_type, keychain, index) is None && e
                == WalletError::Derivation,
        },
{
    if index >= 0x8000_0000 {
        return Err(WalletError::Derivation);
    }
    let mut path: Vec<u32> = Vec::new();
    path.push(keychain.index_num());
    path.push(index);
    assert(path@ =~= seq![keychain.spec_index_num(), index]);
    match derive_priv(account, &path) {
        Some(child) => script_of_key(&child.secret_key(), address_type),
        None => Err(WalletError::Derivation),
    }
}

/// The account keys of a wallet stand at the paths of test networks: that for P2WPKH addresses at
/// `m/84'/1'/0'`, that for P2TR addresses at `m/86'/1'/0'`.
pub proof fn law_account_keys_stand_at_their_paths(master: Seq<u8>, path: Seq<u32>)
    ensures
        parsed_path("m/84'/1'/0'"@) == Some(path) ==> account_key(master, AddressType::P2WPKH)
            == derived_key(master, path),
        parsed_path("m/86'/1'/0'"@) == Some(path) ==> account_key(master, AddressType::P2TR)
            == derived_key(master, path),
{
}

/// An address of an account belongs to the child key of its chain, 0 for receiving and 1 for change, and its
/// index: it is the single-signature script of its type for the public key of that child.
pub proof fn law_addresses_belong_to_child_keys(
    account: Seq<u8>,
    child: Seq<u8>,
    public_key: Seq<u8>,
    keychain: KeychainKind,
    index: u32,
)
    requires
        index < 0x8000_0000,
        derived_key(
            account,
            seq![
                if keychain == KeychainKind::External {
                    0u32
                } else {
                    1u32
                },
                index,
            ],
        ) == Some(child),
        public_key_bytes(child.subrange(46, 78)) == Some(public_key),
    ensures
        account_script(account, AddressType::P2WPKH, keychain, index) == p2wpkh_bytes(public_key),
        account_script(account, AddressType::P2TR, keychain, index) == p2tr_bytes(public_key),
        key_script(child.subrange(46, 78), AddressType::P2WPKH) == p2wpkh_bytes(public_key),
        key_script(child.subrange(46, 78), AddressType::P2TR) == p2tr_bytes(public_key),
        private_part(child) == child.subrange(46, 78),
        chain_code_part(child) == child.subrange(13, 45),
{
}

/// There is no address at a hardened index.
pub proof fn law_hardened_indices_have_no_address(
    account: Seq<u8>,
    address_type: AddressType,
    keychain: KeychainKind,
    index: u32,
)
    requires
        index >= 0x8000_0000,
    ensures
        account_script(account, address_type, keychain, index) is None,
{
}

} // verus!
