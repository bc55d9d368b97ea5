//! Transactions in the forms that the `bitcoin` crate encodes, decodes and hashes.
use vstd::bytes::{
    lemma_auto_spec_u32_to_from_le_bytes, spec_u32_from_le_bytes, spec_u32_to_le_bytes,
    u32_from_le_bytes, u32_to_le_bytes,
};
use vstd::prelude::*;
use bitcoin::absolute::LockTime;
use bitcoin::consensus::{deserialize, serialize};
use bitcoin::hashes::Hash as HashTrait;
use bitcoin::transaction::Version;
use bitcoin::Amount;
use bitcoin::Sequence;
use bitcoin::Transaction as OutsideTx;
use bitcoin::TxIn as OutsideIn;
use bitcoin::TxOut as OutsideOut;
use crate::bytes::{append_bytes, byte_part, copy_bytes, duplicate_all, views, ScriptBuf};
use crate::keys::result_view;
use crate::primitives::{
    txid_from, OutPoint, Transaction, TransactionView, TxIn, TxInView, TxOut, TxOutView,
    Txid,
};
use crate::text::hex;

verus! {

/// An input whose outpoint is encoded.
#[derive(Debug)]
pub struct RawInput {
    /// The 36 bytes of the outpoint.
    pub outpoint: Vec<u8>,
    /// The signature script.
    pub script_sig: Vec<u8>,
    /// The sequence number.
    pub sequence: u32,
    /// The witness stack.
    pub witness: Vec<Vec<u8>>,
}

/// An input whose outpoint is encoded, as a mathematical value.
pub struct RawInputView {
    pub outpoint: Seq<u8>,
    pub script_sig: Seq<u8>,
    pub sequence: u32,
    pub witness: Seq<Seq<u8>>,
}

impl View for RawInput {
    type V = RawInputView;

    open spec fn view(&self) -> RawInputView {
        RawInputView {
            outpoint: self.outpoint@,
            script_sig: self.script_sig@,
            sequence: self.sequence,
            witness: views(self.witness@),
        }
    }
}

/// A transaction whose outpoints are encoded.
#[derive(Debug)]
pub struct RawTransaction {
    /// The transaction version.
    pub version: i32,
    /// The lock time, as its consensus number.
    pub lock_time: u32,
    /// The inputs.
    pub input: Vec<RawInput>,
    /// The outputs.
    pub output: Vec<TxOut>,
}

/// A transaction whose outpoints are encoded, as a mathematical value.
pub struct RawView {
    pub version: i32,
    pub lock_time: u32,
    pub input: Seq<RawInputView>,
    pub output: Seq<TxOutView>,
}

impl View for RawTransaction {
    type V = RawView;

    open spec fn view(&self) -> RawView {
        RawView {
            version: self.version,
            lock_time: self.lock_time,
            input: views(self.input@),
            output: views(self.output@),
        }
    }
}

impl RawView {
    /// Each outpoint has its 36 bytes.
    pub open spec fn well_formed(self) -> bool {
        forall|i: int| 0 <= i < self.input.len() ==> (#[trigger] self.input[i]).outpoint.len() == 36
    }

    /// The transaction with every witness empty.
    pub open spec fn without_witnesses(self) -> RawView {
        RawView {
            input: self.input.map_values(
                |i: RawInputView| RawInputView { witness: Seq::empty(), ..i },
            ),
            ..self
        }
    }
}

/// The 36 bytes of an outpoint: the transaction id, then the position.
pub open spec fn outpoint_bytes(outpoint: OutPoint) -> Seq<u8> {
    outpoint.txid.spec_bytes() + spec_u32_to_le_bytes(outpoint.vout)
}

/// The outpoint with the given 36 bytes.
pub open spec fn outpoint_from(bytes: Seq<u8>) -> OutPoint {
    OutPoint {
        txid: txid_from(bytes.subrange(0, 32)),
        vout: spec_u32_from_le_bytes(bytes.subrange(32, 36)),
    }
}

/// The raw form of an input.
pub open spec fn raw_input(input: TxInView) -> RawInputView {
    RawInputView {
        outpoint: outpoint_bytes(input.previous_output),
        script_sig: input.script_sig,
        sequence: input.sequence,
        witness: input.witness,
    }
}

/// The raw form of a transaction.
pub open spec fn raw_form(tx: TransactionView) -> RawView {
    RawView {
        version: tx.version,
        lock_time: tx.lock_time,
        input: tx.input.map_values(|i: TxInView| raw_input(i)),
        output: tx.output,
    }
}

/// The input with the given raw form.
pub open spec fn input_from(raw: RawInputView) -> TxInView {
    TxInView {
        previous_output: outpoint_from(raw.outpoint),
        script_sig: raw.script_sig,
        sequence: raw.sequence,
        witness: raw.witness,
    }
}

/// The transaction with the given raw form.
pub open spec fn tx_from(raw: RawView) -> TransactionView {
    TransactionView {
        version: raw.version,
        lock_time: raw.lock_time,
        input: raw.input.map_values(|i: RawInputView| input_from(i)),
        output: raw.output,
    }
}

proof fn lemma_outpoint_bytes(outpoint: OutPoint)
    ensures
        outpoint_bytes(outpoint).len() == 36,
        outpoint_from(outpoint_bytes(outpoint)) == outpoint,
{
    vstd::bytes::lemma_auto_spec_u128_to_from_le_bytes();
    lemma_auto_spec_u32_to_from_le_bytes();
    let bytes = outpoint_bytes(outpoint);
    let id = outpoint.txid.spec_bytes();
    assert(bytes.subrange(0, 32) =~= id);
    assert(id.subrange(0, 16) =~= vstd::bytes::spec_u128_to_le_bytes(outpoint.txid.hi));
    assert(id.subrange(16, 32) =~= vstd::bytes::spec_u128_to_le_bytes(outpoint.txid.lo));
    assert(bytes.subrange(32, 36) =~= spec_u32_to_le_bytes(outpoint.vout));
}

/// A transaction is told by its raw form.
pub proof fn law_raw_form_reads_back(tx: TransactionView)
    ensures
        raw_form(tx).well_formed(),
        tx_from(raw_form(tx)) == tx,
{
    let raw = raw_form(tx);
    assert forall|i: int| 0 <= i < raw.input.len() implies (#[trigger] raw.input[i]).outpoint.len()
        == 36 by {
        lemma_outpoint_bytes(tx.input[i].previous_output);
    }
    assert forall|i: int| 0 <= i < tx.input.len() implies tx_from(raw).input[i] == tx.input[i] by {
        lemma_outpoint_bytes(tx.input[i].previous_output);
        assert(raw.input[i] == raw_input(tx.input[i]));
    }
    assert(tx_from(raw).input =~= tx.input);
}

impl Transaction {
    /// The raw form of the transaction.
    pub fn raw(&self) -> (raw: RawTransaction)
        ensures
            raw@ == raw_form(self@),
            raw@.well_formed(),
    {
        let mut input: Vec<RawInput> = Vec::new();
        let mut i: usize = 0;
        while i < self.input.len()
            invariant
                i <= self.input.len(),
                input.len() == i,
                forall|j: int|
                    0 <= j < i ==> (#[trigger] input@[j])@ == raw_input(self.input@[j]@),
            decreases self.input.len() - i,
        {
            let from = &self.input[i];
            let mut outpoint = from.previous_output.txid.to_bytes();
            let vout = u32_to_le_bytes(from.previous_output.vout);
            append_bytes(&mut outpoint, &vout);
            input.push(
                RawInput {
                    outpoint,
                    script_sig: copy_bytes(&from.script_sig.bytes),
                    sequence: from.sequence,
                    witness: duplicate_all(&from.witness),
                },
            );
            i += 1;
        }
        let raw = RawTransaction {
            version: self.version,
            lock_time: self.lock_time,
            input,
            output: duplicate_all(&self.output),
        };
        proof {
            assert forall|j: int| 0 <= j < raw@.input.len() implies raw@.input[j] == raw_form(
                self@,
            ).input[j] by {
                assert(raw.input@[j]@ == raw_input(self.input@[j]@));
            }
            assert(raw@.input =~= raw_form(self@).input);
            law_raw_form_reads_back(self@);
        }
        raw
    }
}

impl RawTransaction {
    /// The transaction with this raw form.
    pub fn transaction(self) -> (tx: Transaction)
        requires
            self@.well_formed(),
        ensures
            tx@ == tx_from(self@),
    {
        let mut input: Vec<TxIn> = Vec::new();
        let mut i: usize = 0;
        while i < self.input.len()
            invariant
                self@.well_formed(),
                i <= self.input.len(),
                input.len() == i,
                forall|j: int|
                    0 <= j < i ==> (#[trigger] input@[j])@ == input_from(self.input@[j]@),
            decreases self.input.len() - i,
        {
            let from = &self.input[i];
            assert(self@.input[i as int] == from@);
            let id = byte_part(&from.outpoint, 0, 32);
            let vout = byte_part(&from.outpoint, 32, 36);
            input.push(
                TxIn {
                    previous_output: OutPoint {
                        txid: Txid::from_bytes(&id),
                        vout: u32_from_le_bytes(vout.as_slice()),
                    },
                    script_sig: ScriptBuf { bytes: copy_bytes(&from.script_sig) },
                    sequence: from.sequence,
                    witness: duplicate_all(&from.witness),
                },
            );
            i += 1;
        }
        let ghost raw = self@;
        let ghost inputs = self.input@;
        let tx = Transaction {
            version: self.version,
            lock_time: self.lock_time,
            input,
            output: self.output,
        };
        proof {
            assert forall|j: int| 0 <= j < tx@.input.len() implies tx@.input[j] == tx_from(
                raw,
            ).input[j] by {
                assert(tx.input@[j]@ == input_from(inputs[j]@));
            }
            assert(tx@.input =~= tx_from(raw).input);
        }
        tx
    }
}

/// The 32 bytes of the id of a transaction in raw form, whose witnesses are empty.
pub uninterp spec fn raw_txid(tx: RawView) -> Seq<u8>;

/// Calls `bitcoin::Transaction::compute_txid`. The contract names the 32 bytes of the id, in internal
/// order, as a function of the transaction without its witnesses, which the id leaves out.
#[verifier::external_body]
fn outside_txid(tx: &RawTransaction) -> (id: Vec<u8>)
    requires
        tx@.well_formed(),
    ensures
        id@ == raw_txid(tx@.without_witnesses()),
        id@.len() == 32,
{
    let input = tx.input.iter().map(|i| OutsideIn {
        previous_output: deserialize(&i.outpoint).unwrap(), script_sig: i.script_sig.clone().into(),
        sequence: Sequence(i.sequence), witness: i.witness.as_slice().into(),
    }).collect();
    let output = tx.output.iter().map(|o| OutsideOut {
        value: Amount::from_sat(o.value), script_pubkey: o.script_pubkey.bytes.clone().into(),
    }).collect();
    let lock_time = LockTime::from_consensus(tx.lock_time);
    let tx = OutsideTx { version: Version(tx.version), lock_time, input, output };
    tx.compute_txid().to_byte_array().to_vec()
}

/// The 32 bytes of the id, witnesses included, of a transaction in raw form.
pub uninterp spec fn raw_wtxid(tx: RawView) -> Seq<u8>;

/// Calls `bitcoin::Transaction::compute_wtxid`. The contract names the 32 bytes of the id, in internal
/// order, as a function of the transaction.
#[verifier::external_body]
fn outside_wtxid(tx: &RawTransaction) -> (id: Vec<u8>)
    requires
        tx@.well_formed(),
    ensures
        id@ == raw_wtxid(tx@),
        id@.len() == 32,
{
    let input = tx.input.iter().map(|i| OutsideIn {
        previous_output: deserialize(&i.outpoint).unwrap(), script_sig: i.script_sig.clone().into(),
        sequence: Sequence(i.sequence), witness: i.witness.as_slice().into(),
    }).collect();
    let output = tx.output.iter().map(|o| OutsideOut {
        value: Amount::from_sat(o.value), script_pubkey: o.script_pubkey.bytes.clone().into(),
    }).collect();
    let lock_time = LockTime::from_consensus(tx.lock_time);
    let tx = OutsideTx { version: Version(tx.version), lock_time, input, output };
    tx.compute_wtxid().to_byte_array().to_vec()
}

/// The consensus encoding of a transaction in raw form.
pub uninterp spec fn raw_encoding(tx: RawView) -> Seq<u8>;

/// Calls `bitcoin::consensus::serialize` on a transaction. The contract names the encoding as a
/// function of the transaction.
#[verifier::external_body]
fn outside_encoding(tx: &RawTransaction) -> (encoding: Vec<u8>)
    requires
        tx@.well_formed(),
    ensures
        encoding@ == raw_encoding(tx@),
{
    let input = tx.input.iter().map(|i| OutsideIn {
        previous_output: deserialize(&i.outpoint).unwrap(), script_sig: i.script_sig.clone().into(),
        sequence: Sequence(i.sequence), witness: i.witness.as_slice().into(),
    }).collect();
    let output = tx.output.iter().map(|o| OutsideOut {
        value: Amount::from_sat(o.value), script_pubkey: o.script_pubkey.bytes.clone().into(),
    }).collect();
    let lock_time = LockTime::from_consensus(tx.lock_time);
    serialize(&OutsideTx { version: Version(tx.version), lock_time, input, output })
}

/// The transaction in raw form that a consensus encoding holds, or the text of the error that
/// `bitcoin` gives.
pub uninterp spec fn raw_decoded(encoding: Seq<u8>) -> Result<RawView, Seq<char>>;

/// Calls `bitcoin::consensus::deserialize` for a transaction. The contract names the transaction, or
/// the text of the error, as a function of the bytes. The encoding of an outpoint has 36 bytes.
#[verifier::external_body]
fn outside_decoding(encoding: &Vec<u8>) -> (tx: Result<RawTransaction, String>)
    ensures
        result_view(tx) == raw_decoded(encoding@),
        tx matches Ok(t) ==> t@.well_formed(),
{
    let tx = deserialize::<OutsideTx>(encoding).map_err(|e| e.to_string())?;
    let input = tx.input.iter().map(|i| RawInput {
        outpoint: serialize(&i.previous_output), script_sig: i.script_sig.to_bytes(),
        sequence: i.sequence.0, witness: i.witness.to_vec(),
    }).collect();
    let output = tx.output.into_iter().map(|o| TxOut {
        value: o.value.to_sat(), script_pubkey: ScriptBuf { bytes: o.script_pubkey.into_bytes() },
    }).collect();
    let lock_time = tx.lock_time.to_consensus_u32();
    Ok(RawTransaction { version: tx.version.0, lock_time, input, output })
}

/// The id of a transaction, which its witnesses do not change.
pub open spec fn txid_of(tx: TransactionView) -> Txid {
    txid_from(raw_txid(raw_form(tx).without_witnesses()))
}

/// Computes the id of a transaction.
pub fn compute_txid(tx: &Transaction) -> (txid: Txid)
    ensures
        txid == txid_of(tx@),
{
    Txid::from_bytes(&outside_txid(&tx.raw()))
}

/// The id of a transaction with its witnesses.
pub open spec fn wtxid_of(tx: TransactionView) -> Txid {
    txid_from(raw_wtxid(raw_form(tx)))
}

/// Computes the id of a transaction with its witnesses.
pub fn compute_wtxid(tx: &Transaction) -> (wtxid: Txid)
    ensures
        wtxid == wtxid_of(tx@),
{
    Txid::from_bytes(&outside_wtxid(&tx.raw()))
}

/// The consensus encoding of a transaction.
pub open spec fn tx_bytes(tx: TransactionView) -> Seq<u8> {
    raw_encoding(raw_form(tx))
}

/// Encodes a transaction.
pub fn encode_tx(tx: &Transaction) -> (encoding: Vec<u8>)
    ensures
        encoding@ == tx_bytes(tx@),
{
    outside_encoding(&tx.raw())
}

/// The transaction that a consensus encoding holds, or the text of the error.
pub open spec fn decoded_tx(encoding: Seq<u8>) -> Result<TransactionView, Seq<char>> {
    match raw_decoded(encoding) {
        Ok(raw) => Ok(tx_from(raw)),
        Err(e) => Err(e),
    }
}

/// Decodes a transaction.
pub fn decode_tx(encoding: &Vec<u8>) -> (tx: Result<Transaction, String>)
    ensures
        result_view(tx) == decoded_tx(encoding@),
{
    match outside_decoding(encoding) {
        Ok(raw) => Ok(raw.transaction()),
        Err(e) => Err(e),
    }
}

/// Calls the `Display` of `bitcoin::Txid`. The contract says that it writes the bytes from the last to
/// the first, in lower-case hexadecimal.
#[verifier::external_body]
fn outside_id_text(id: &Vec<u8>) -> (text: String)
    requires
        id@.len() == 32,
    ensures
        text@ == hex(id@.reverse()),
{
    bitcoin::Txid::from_slice(id).unwrap().to_string()
}

/// The text of a transaction id: its bytes from the last to the first, in lower-case hexadecimal.
pub open spec fn txid_display(txid: Txid) -> Seq<char> {
    hex(txid.spec_bytes().reverse())
}

/// Writes a transaction id.
pub fn txid_text(txid: &Txid) -> (text: String)
    ensures
        text@ == txid_display(*txid),
{
    outside_id_text(&txid.to_bytes())
}

/// The id of a transaction does not depend on its witnesses: transactions that spend the same outputs, with the
/// same scripts and sequences, into the same outputs have the same id.
pub proof fn law_witnesses_do_not_change_the_id(a: TransactionView, b: TransactionView)
    requires
        a.version == b.version,
        a.lock_time == b.lock_time,
        a.output == b.output,
        a.input.len() == b.input.len(),
        forall|i: int|
            0 <= i < a.input.len() ==> (#[trigger] a.input[i]).previous_output
                == b.input[i].previous_output && a.input[i].script_sig == b.input[i].script_sig
                && a.input[i].sequence == b.input[i].sequence,
    ensures
        txid_of(a) == txid_of(b),
{
    let x = raw_form(a).without_witnesses();
    let y = raw_form(b).without_witnesses();
    assert forall|i: int| 0 <= i < x.input.len() implies x.input[i] == y.input[i] by {
        assert(a.input[i].previous_output == b.input[i].previous_output);
    }
    assert(x.input =~= y.input);
}

/// The encoding of an outpoint begins with the 32 bytes of the transaction id, and ends with the position, its
/// lowest byte first.
pub proof fn law_outpoint_is_encoded_id_first(outpoint: OutPoint)
    ensures
        outpoint_bytes(outpoint).take(32) == outpoint.txid.spec_bytes(),
        outpoint_bytes(outpoint).skip(32) == spec_u32_to_le_bytes(outpoint.vout),
        outpoint_bytes(outpoint).len() == 36,
{
    lemma_outpoint_bytes(outpoint);
    vstd::bytes::lemma_auto_spec_u128_to_from_le_bytes();
    assert(outpoint.txid.spec_bytes().len() == 32);
    assert(outpoint_bytes(outpoint).take(32) =~= outpoint.txid.spec_bytes());
    assert(outpoint_bytes(outpoint).skip(32) =~= spec_u32_to_le_bytes(outpoint.vout));
}

} // verus!
