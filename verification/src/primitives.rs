//! Transactions, outpoints and the small enumerations of the wallet.
use vstd::bytes::{
    lemma_auto_spec_u128_to_from_le_bytes, spec_u128_from_le_bytes, spec_u128_to_le_bytes,
    u128_from_le_bytes, u128_to_le_bytes,
};
use vstd::prelude::*;
use crate::bytes::{append_bytes, byte_part, copy_bytes, duplicate_all, views, Duplicate, ScriptBuf};

verus! {

/// A transaction id: its 32 bytes in internal order, as two little-endian halves.
#[derive(Debug, Clone, Copy, PartialEq, Eq, Structural, Hash)]
pub struct Txid {
    /// The first sixteen bytes.
    pub hi: u128,
    /// The last sixteen bytes.
    pub lo: u128,
}

impl View for Txid {
    type V = Txid;

    open spec fn view(&self) -> Txid {
        *self
    }
}

/// The transaction id with the given 32 bytes.
pub open spec fn txid_from(bytes: Seq<u8>) -> Txid {
    Txid {
        hi: spec_u128_from_le_bytes(bytes.subrange(0, 16)),
        lo: spec_u128_from_le_bytes(bytes.subrange(16, 32)),
    }
}

impl Txid {
    /// The 32 bytes of the id.
    pub open spec fn spec_bytes(self) -> Seq<u8> {
        spec_u128_to_le_bytes(self.hi) + spec_u128_to_le_bytes(self.lo)
    }

    /// The id with the given 32 bytes, in internal order.
    pub fn from_bytes(bytes: &Vec<u8>) -> (txid: Txid)
        requires
            bytes@.len() == 32,
        ensures
            txid == txid_from(bytes@),
            txid.spec_bytes() == bytes@,
    {
        let hi = byte_part(bytes, 0, 16);
        let lo = byte_part(bytes, 16, 32);
        proof {
            lemma_auto_spec_u128_to_from_le_bytes();
            assert(hi@ + lo@ =~= bytes@);
        }
        Txid { hi: u128_from_le_bytes(hi.as_slice()), lo: u128_from_le_bytes(lo.as_slice()) }
    }

    /// The 32 bytes of the id, in internal order.
    pub fn to_bytes(&self) -> (bytes: Vec<u8>)
        ensures
            bytes@ == self.spec_bytes(),
            bytes@.len() == 32,
            txid_from(bytes@) == *self,
    {
        let mut bytes = u128_to_le_bytes(self.hi);
        let lo = u128_to_le_bytes(self.lo);
        append_bytes(&mut bytes, &lo);
        proof {
            lemma_auto_spec_u128_to_from_le_bytes();
            assert(bytes@.subrange(0, 16) =~= spec_u128_to_le_bytes(self.hi));
            assert(bytes@.subrange(16, 32) =~= spec_u128_to_le_bytes(self.lo));
        }
        bytes
    }
}

/// A transaction output, named by its transaction and position.
#[derive(Debug, Clone, Copy, PartialEq, Eq, Structural, Hash)]
pub struct OutPoint {
    /// The transaction that holds the output.
    pub txid: Txid,
    /// The output's position in it.
    pub vout: u32,
}

impl View for OutPoint {
    type V = OutPoint;

    open spec fn view(&self) -> OutPoint {
        *self
    }
}

impl OutPoint {
    /// The output `vout` of transaction `txid`.
    pub fn new(txid: Txid, vout: u32) -> (outpoint: Self)
        ensures
            outpoint == (OutPoint { txid, vout }),
    {
        OutPoint { txid, vout }
    }
}

/// Whether a list of outpoints holds `wanted`.
pub fn contains_outpoint(outpoints: &Vec<OutPoint>, wanted: &OutPoint) -> (found: bool)
    ensures
        found == outpoints@.contains(*wanted),
{
    let mut i: usize = 0;
    while i < outpoints.len()
        invariant
            i <= outpoints.len(),
            forall|j: int| 0 <= j < i ==> outpoints@[j] != *wanted,
        decreases outpoints.len() - i,
    {
        if outpoints[i] == *wanted {
            assert(outpoints@[i as int] == *wanted);
            return true;
        }
        i += 1;
    }
    false
}

/// The kind of single-signature address that the wallet derives.
#[derive(Debug, Clone, Copy, PartialEq, Eq, Structural, Hash)]
pub enum AddressType {
    /// Native SegWit.
    P2WPKH,
    /// Taproot, spent by its key path.
    P2TR,
}

/// The swap protocol that a coin belongs to.
#[derive(Debug, Clone, Copy, PartialEq, Eq, Structural, Hash)]
pub enum ProtocolVersion {
    /// Two-of-two multisig funding with a separate contract transaction.
    Legacy,
    /// A Taproot output that is funding and contract at once.
    Taproot,
}

/// The Bitcoin network that a wallet lives on.
#[derive(Debug, Clone, Copy, PartialEq, Eq, Structural, Hash)]
pub enum Network {
    /// Mainnet.
    Bitcoin,
    /// Testnet.
    Testnet,
    /// Signet.
    Signet,
    /// A local regression-test network.
    Regtest,
}

/// One of the two unhardened chains below an account key.
#[derive(Debug, Clone, Copy, PartialEq, Eq, Structural, Hash, PartialOrd, Ord)]
pub enum KeychainKind {
    /// Receiving addresses.
    External,
    /// Change addresses.
    Internal,
}

impl KeychainKind {
    /// The index of the chain in a derivation path.
    pub open spec fn spec_index_num(self) -> u32 {
        match self {
            KeychainKind::External => 0,
            KeychainKind::Internal => 1,
        }
    }

    /// The index of the chain in a derivation path.
    pub fn index_num(&self) -> (index: u32)
        ensures
            index == self.spec_index_num(),
    {
        match self {
            KeychainKind::External => 0,
            KeychainKind::Internal => 1,
        }
    }
}

/// A compressed public key.
#[derive(Debug, PartialEq, Eq)]
pub struct PublicKey {
    /// The 33 bytes of the compressed point.
    pub bytes: Vec<u8>,
}

impl View for PublicKey {
    type V = Seq<u8>;

    open spec fn view(&self) -> Seq<u8> {
        self.bytes@
    }
}

impl Duplicate for PublicKey {
    fn duplicate(&self) -> (copy: Self) {
        PublicKey { bytes: copy_bytes(&self.bytes) }
    }
}

/// A private key scalar.
#[derive(Debug, PartialEq, Eq)]
pub struct SecretKey {
    /// The 32 bytes of the scalar.
    pub bytes: Vec<u8>,
}

impl View for SecretKey {
    type V = Seq<u8>;

    open spec fn view(&self) -> Seq<u8> {
        self.bytes@
    }
}

impl Duplicate for SecretKey {
    fn duplicate(&self) -> (copy: Self) {
        SecretKey { bytes: copy_bytes(&self.bytes) }
    }
}

/// A transaction input.
#[derive(Debug, PartialEq, Eq)]
pub struct TxIn {
    /// The output that the input spends.
    pub previous_output: OutPoint,
    /// The signature script.
    pub script_sig: ScriptBuf,
    /// The sequence number.
    pub sequence: u32,
    /// The witness stack.
    pub witness: Vec<Vec<u8>>,
}

/// A transaction input as a mathematical value.
pub struct TxInView {
    pub previous_output: OutPoint,
    pub script_sig: Seq<u8>,
    pub sequence: u32,
    pub witness: Seq<Seq<u8>>,
}

impl View for TxIn {
    type V = TxInView;

    open spec fn view(&self) -> TxInView {
        TxInView {
            previous_output: self.previous_output,
            script_sig: self.script_sig@,
            sequence: self.sequence,
            witness: views(self.witness@),
        }
    }
}

impl Duplicate for TxIn {
    fn duplicate(&self) -> (copy: Self) {
        TxIn {
            previous_output: self.previous_output,
            script_sig: self.script_sig.clone(),
            sequence: self.sequence,
            witness: duplicate_all(&self.witness),
        }
    }
}

/// A transaction output.
#[derive(Debug, PartialEq, Eq)]
pub struct TxOut {
    /// The value in satoshis.
    pub value: u64,
    /// The script that locks the output.
    pub script_pubkey: ScriptBuf,
}

/// A transaction output as a mathematical value.
pub struct TxOutView {
    pub value: u64,
    pub script_pubkey: Seq<u8>,
}

impl View for TxOut {
    type V = TxOutView;

    open spec fn view(&self) -> TxOutView {
        TxOutView { value: self.value, script_pubkey: self.script_pubkey@ }
    }
}

impl Duplicate for TxOut {
    fn duplicate(&self) -> (copy: Self) {
        TxOut { value: self.value, script_pubkey: self.script_pubkey.clone() }
    }
}

/// A transaction.
#[derive(Debug, PartialEq, Eq)]
pub struct Transaction {
    /// The transaction version.
    pub version: i32,
    /// The lock time, as its consensus number.
    pub lock_time: u32,
    /// The inputs.
    pub input: Vec<TxIn>,
    /// The outputs.
    pub output: Vec<TxOut>,
}

/// A transaction as a mathematical value.
pub struct TransactionView {
    pub version: i32,
    pub lock_time: u32,
    pub input: Seq<TxInView>,
    pub output: Seq<TxOutView>,
}

impl View for Transaction {
    type V = TransactionView;

    open spec fn view(&self) -> TransactionView {
        TransactionView {
            version: self.version,
            lock_time: self.lock_time,
            input: views(self.input@),
            output: views(self.output@),
        }
    }
}

impl Duplicate for Transaction {
    fn duplicate(&self) -> (copy: Self) {
        Transaction {
            version: self.version,
            lock_time: self.lock_time,
            input: duplicate_all(&self.input),
            output: duplicate_all(&self.output),
        }
    }
}

/// A copy of a transaction has all that the transaction has: its version and lock time, what it spends and by what,
/// and what it pays and to whom, each in its place.
pub proof fn law_transaction_is_told_by_its_view(tx: Transaction, i: int)
    ensures
        tx@.version == tx.version,
        tx@.lock_time == tx.lock_time,
        tx@.input.len() == tx.input@.len(),
        tx@.output.len() == tx.output@.len(),
        0 <= i < tx.input@.len() ==> tx@.input[i].previous_output == tx.input@[i].previous_output
            && tx@.input[i].sequence == tx.input@[i].sequence && tx@.input[i].script_sig
            == tx.input@[i].script_sig@ && tx@.input[i].witness == views(tx.input@[i].witness@),
        0 <= i < tx.output@.len() ==> tx@.output[i].value == tx.output@[i].value
            && tx@.output[i].script_pubkey == tx.output@[i].script_pubkey@,
{
}

} // verus!
