//! The two-of-two redeem script of a swap.
use vstd::prelude::*;
use crate::bytes::{append_bytes, ScriptBuf};
use crate::keys::{p2wsh_bytes, p2wsh_script};
use crate::primitives::PublicKey;

verus! {

/// Whether `a` comes before `b` in lexicographic order, from position `i` on.
pub open spec fn less_from(a: Seq<u8>, b: Seq<u8>, i: int) -> bool
    decreases a.len() - i,
{
    if i >= b.len() {
        false
    } else if i >= a.len() {
        true
    } else if a[i] != b[i] {
        a[i] < b[i]
    } else {
        less_from(a, b, i + 1)
    }
}

/// Whether `a` comes before `b` in lexicographic order.
pub fn bytes_less(a: &Vec<u8>, b: &Vec<u8>) -> (less: bool)
    ensures
        less == less_from(a@, b@, 0),
{
    let mut i: usize = 0;
    while i < a.len() && i < b.len() && a[i] == b[i]
        invariant
            i <= a.len(),
            i <= b.len(),
            less_from(a@, b@, 0) == less_from(a@, b@, i as int),
        decreases a.len() - i,
    {
        i += 1;
    }
    if i >= b.len() {
        false
    } else if i >= a.len() {
        true
    } else {
        a[i] < b[i]
    }
}

/// The two keys in lexicographic order.
pub open spec fn ordered(a: Seq<u8>, b: Seq<u8>) -> (Seq<u8>, Seq<u8>) {
    if less_from(a, b, 0) {
        (a, b)
    } else {
        (b, a)
    }
}

proof fn lemma_less_total(a: Seq<u8>, b: Seq<u8>, i: int)
    requires
        0 <= i <= a.len(),
        i <= b.len(),
        forall|j: int| 0 <= j < i ==> a[j] == b[j],
    ensures
        !(less_from(a, b, i) && less_from(b, a, i)),
        !less_from(a, b, i) && !less_from(b, a, i) ==> a == b,
    decreases a.len() - i,
{
    if i < a.len() && i < b.len() && a[i] == b[i] {
        lemma_less_total(a, b, i + 1);
    } else if i == a.len() && i == b.len() {
        assert(a =~= b);
    }
}

/// The order of two keys does not depend on which is named first.
pub proof fn law_order_is_symmetric(a: Seq<u8>, b: Seq<u8>)
    ensures
        ordered(a, b) == ordered(b, a),
{
    lemma_less_total(a, b, 0);
}

/// The redeem script that two keys open together: `OP_2 <k1> <k2> OP_2 OP_CHECKMULTISIG`, the keys
/// in lexicographic order.
pub open spec fn multisig_script(a: Seq<u8>, b: Seq<u8>) -> Seq<u8> {
    let keys = ordered(a, b);
    seq![0x52u8, 0x21u8] + keys.0 + seq![0x21u8] + keys.1 + seq![0x52u8, 0xaeu8]
}

/// Both parties of a swap make the same redeem script.
pub proof fn law_multisig_is_symmetric(a: Seq<u8>, b: Seq<u8>)
    ensures
        multisig_script(a, b) == multisig_script(b, a),
{
    law_order_is_symmetric(a, b);
}

/// Makes the redeem script that two keys open together.
pub fn create_multisig_redeemscript(key1: &PublicKey, key2: &PublicKey) -> (script: ScriptBuf)
    ensures
        script@ == multisig_script(key1@, key2@),
{
    let mut bytes: Vec<u8> = Vec::new();
    bytes.push(0x52);
    bytes.push(0x21);
    if bytes_less(&key1.bytes, &key2.bytes) {
        append_bytes(&mut bytes, &key1.bytes);
        bytes.push(0x21);
        append_bytes(&mut bytes, &key2.bytes);
    } else {
        append_bytes(&mut bytes, &key2.bytes);
        bytes.push(0x21);
        append_bytes(&mut bytes, &key1.bytes);
    }
    bytes.push(0x52);
    bytes.push(0xae);
    assert(bytes@ =~= multisig_script(key1@, key2@));
    ScriptBuf { bytes }
}

/// The script that locks a two-of-two output.
pub open spec fn multisig_spk(a: Seq<u8>, b: Seq<u8>) -> Seq<u8> {
    p2wsh_bytes(multisig_script(a, b))
}

/// Makes the script that locks a two-of-two output.
pub fn multisig_script_pubkey(key1: &PublicKey, key2: &PublicKey) -> (script: ScriptBuf)
    ensures
        script@ == multisig_spk(key1@, key2@),
{
    p2wsh_script(&create_multisig_redeemscript(key1, key2))
}

/// The script that locks a contract output: the P2WSH script of its redeem script.
pub fn redeemscript_to_scriptpubkey(redeemscript: &ScriptBuf) -> (script: ScriptBuf)
    ensures
        script@ == p2wsh_bytes(redeemscript@),
{
    p2wsh_script(redeemscript)
}

/// The redeem script of two keys asks for a signature of each: both stand in it, the one that is less in the
/// first byte in which they differ before the other.
pub proof fn law_redeem_script_names_both_keys(less: Seq<u8>, greater: Seq<u8>, at: int)
    requires
        0 <= at < less.len(),
        at < greater.len(),
        less.take(at) == greater.take(at),
        less[at] < greater[at],
    ensures
        multisig_script(less, greater) == seq![0x52u8, 0x21u8] + less + seq![0x21u8] + greater
            + seq![0x52u8, 0xaeu8],
        multisig_script(greater, less) == seq![0x52u8, 0x21u8] + less + seq![0x21u8] + greater
            + seq![0x52u8, 0xaeu8],
        multisig_spk(less, greater) == p2wsh_bytes(
            seq![0x52u8, 0x21u8] + less + seq![0x21u8] + greater + seq![0x52u8, 0xaeu8],
        ),
{
    assert forall|j: int| 0 <= j < at implies less[j] == greater[j] by {
        assert(less.take(at)[j] == less[j]);
        assert(greater.take(at)[j] == greater[j]);
    }
    lemma_less_at(less, greater, 0, at);
    law_multisig_is_symmetric(less, greater);
}

pub(crate) proof fn lemma_less_at(a: Seq<u8>, b: Seq<u8>, i: int, at: int)
    requires
        0 <= i <= at < a.len(),
        at < b.len(),
        forall|j: int| 0 <= j < at ==> a[j] == b[j],
        a[at] < b[at],
    ensures
        less_from(a, b, i),
    decreases at - i,
{
    if i < at {
        lemma_less_at(a, b, i + 1, at);
    }
}

} // verus!
