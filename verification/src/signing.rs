//! The signing of transactions.
use vstd::prelude::*;
use vstd::string::*;
use crate::backend::BlockchainBackend;
use crate::bytes::{copy_bytes, option_view, views, Duplicate, ScriptBuf};
use crate::error::WalletError;
use crate::keys::{
    account_key, derive_account, derive_at, derived_key, ecdsa_signature, key_at, key_script,
    p2tr_bytes, p2wpkh_bytes, p2wpkh_sighash, p2wsh_bytes, p2wsh_sighash, parsed_path, private_part,
    public_key_bytes, public_key_of, schnorr_verifies, script_of_key, sighash_p2wpkh, sighash_p2wsh,
    sighash_taproot, sign_ecdsa, sign_schnorr, tap_tweak, taproot_sighash,
    tweaked_key, x_only,
};
use crate::raw_tx::{encode_tx, raw_encoding, raw_form, tx_bytes, txid_of};
use crate::multisig::multisig_script;
use crate::primitives::{
    AddressType, ProtocolVersion, SecretKey, Transaction, TransactionView, TxInView, TxOut, TxOutView,
};
use crate::spend_info::{SpendInfoView, UTXOSpendInfo};
use crate::store::{BondView, WalletStore};
use crate::text::{decimal, decimal_text};
use crate::swapcoin::{IncomingSwapCoin, OutgoingSwapCoin};
use crate::wallet::{first_incoming, first_outgoing, no_incoming, no_outgoing, Wallet};

verus! {

/// The byte that an ECDSA signature over all inputs and outputs ends with.
pub const SIGHASH_ALL: u8 = 1;

/// What a transaction is signed with, beyond the wallet's seed: one for each input.
#[derive(Debug)]
pub enum Signer {
    /// The wallet's seed is enough.
    Seed,
    /// What a swap coin signed when it was asked as [`Wallet::swap_signing`] says, or why it did not. The
    /// witness of its first input is the one that is due.
    SwapCoin(Result<Transaction, WalletError>),
    /// The private key of a fidelity bond, or why there is none.
    Bond(Result<SecretKey, WalletError>),
}

/// The fee rate that a received coin is spent at, in satoshis per virtual byte.
pub const SWAP_SPEND_FEERATE: u64 = 1;

/// What a swap coin is asked to sign.
#[derive(Debug, PartialEq, Eq)]
pub enum SwapSigning {
    /// A received coin is to be spent to a script.
    Spend {
        /// The coin.
        coin: IncomingSwapCoin,
        /// The value that is spent, in satoshis.
        value: u64,
        /// The script that is paid.
        script: ScriptBuf,
        /// The fee rate, in satoshis per virtual byte.
        feerate: u64,
    },
    /// A sent coin is to be taken back by a transaction, after its timelock.
    Recovery {
        /// The coin.
        coin: OutgoingSwapCoin,
        /// The transaction.
        tx: Transaction,
    },
}

/// Whether a request asks the received coin with the given redeem script, the first one, to be spent at
/// its funding amount to the first output of a transaction.
pub open spec fn asks_to_spend(
    request: Option<SwapSigning>,
    store: WalletStore,
    redeem: Seq<u8>,
    tx: TransactionView,
) -> bool {
    exists|i: int|
        {
            &&& first_incoming(store.incoming_swapcoins, redeem, i)
            &&& request matches Some(SwapSigning::Spend { coin, value, script, feerate })
            &&& coin@ == (#[trigger] store.incoming_swapcoins.entries@[i]).1@
            &&& value == coin.funding_amount
            &&& script@ == tx.output[0].script_pubkey
            &&& feerate == SWAP_SPEND_FEERATE
        }
}

/// Whether a request asks the sent coin with the given redeem script, the first one, to be taken back by
/// a transaction.
pub open spec fn asks_to_recover(
    request: Option<SwapSigning>,
    store: WalletStore,
    redeem: Seq<u8>,
    tx: TransactionView,
) -> bool {
    exists|i: int|
        {
            &&& first_outgoing(store.outgoing_swapcoins, redeem, i)
            &&& request matches Some(SwapSigning::Recovery { coin, tx: asked })
            &&& coin@ == (#[trigger] store.outgoing_swapcoins.entries@[i]).1@
            &&& asked@ == tx
        }
}

/// Whether the wallet has the swap coin that signs for an input, and the transaction an output for it to
/// pay.
pub open spec fn has_swap_signer(
    store: WalletStore,
    info: SpendInfoView,
    tx: TransactionView,
) -> bool {
    match info {
        SpendInfoView::IncomingSwapCoin { multisig_redeemscript } => !no_incoming(
            store.incoming_swapcoins,
            multisig_redeemscript,
        ) && tx.output.len() > 0,
        SpendInfoView::HashlockContract { swapcoin_multisig_redeemscript, .. } => !no_incoming(
            store.incoming_swapcoins,
            swapcoin_multisig_redeemscript,
        ) && tx.output.len() > 0,
        SpendInfoView::TimelockContract { swapcoin_multisig_redeemscript, .. } => !no_outgoing(
            store.outgoing_swapcoins,
            swapcoin_multisig_redeemscript,
        ),
        _ => true,
    }
}

/// The private key at a path below an account key, if there is one.
pub open spec fn seed_key(
    master: Seq<u8>,
    address_type: AddressType,
    path: Seq<char>,
) -> Option<Seq<u8>> {
    match account_key(master, address_type) {
        Some(account) => match key_at(account, path) {
            Some(child) => Some(private_part(child)),
            None => None,
        },
        None => None,
    }
}

fn derive_seed_key(
    store: &WalletStore,
    address_type: AddressType,
    path: &str,
) -> (secret: Result<SecretKey, WalletError>)
    ensures
        match secret {
            Ok(s) => seed_key(store.master_key@, address_type, path@) == Some(s@),
            Err(e) => seed_key(store.master_key@, address_type, path@) is None && e
                == WalletError::Derivation,
        },
{
    let account = derive_account(&store.master_key, address_type)?;
    let child = derive_at(&account, path)?;
    Ok(child.secret_key())
}

/// The output that an input spends, as far as the wallet knows it: a coin of its seed, or a fidelity
/// bond. Of other coins nothing is told. The outer `None` stands for a key that cannot be derived.
pub open spec fn prevout(
    master: Seq<u8>,
    bonds: Seq<BondView>,
    info: SpendInfoView,
) -> Option<TxOutView> {
    match info {
        SpendInfoView::SeedCoin { path, input_value, address_type } => seed_prevout(
            master,
            path,
            input_value,
            address_type,
        ),
        SpendInfoView::SweptCoin { path, input_value, address_type } => seed_prevout(
            master,
            path,
            input_value,
            address_type,
        ),
        SpendInfoView::FidelityBondCoin { index, input_value } => Some(
            TxOutView { value: input_value, script_pubkey: bonds[index as int].script() },
        ),
        _ => Some(TxOutView { value: 0, script_pubkey: Seq::empty() }),
    }
}

/// The output that a coin of the seed is.
pub open spec fn seed_prevout(
    master: Seq<u8>,
    path: Seq<char>,
    input_value: u64,
    address_type: AddressType,
) -> Option<TxOutView> {
    match seed_key(master, address_type, path) {
        Some(secret) => match key_script(secret, address_type) {
            Some(script) => Some(TxOutView { value: input_value, script_pubkey: script }),
            None => None,
        },
        None => None,
    }
}

/// Whether an input that is a fidelity bond names a bond that the wallet has.
pub open spec fn bond_exists(bonds: nat, info: SpendInfoView) -> bool {
    info matches SpendInfoView::FidelityBondCoin { index, .. } ==> index < bonds
}

/// Whether a signer is what an input needs.
pub open spec fn signer_fits(info: SpendInfoView, signer: Signer) -> bool {
    match info {
        SpendInfoView::SeedCoin { .. } => true,
        SpendInfoView::SweptCoin { .. } => true,
        SpendInfoView::OutgoingSwapCoin { .. } => true,
        SpendInfoView::FidelityBondCoin { .. } => signer is Bond,
        _ => signer matches Signer::SwapCoin(signed) && (signed matches Ok(tx) ==> tx@.input.len() > 0),
    }
}

/// The outputs that the inputs spend, if their keys can be derived.
pub open spec fn all_prevouts(
    master: Seq<u8>,
    bonds: Seq<BondView>,
    infos: Seq<SpendInfoView>,
) -> Option<Seq<TxOutView>> {
    if forall|i: int| 0 <= i < infos.len() ==> prevout(master, bonds, #[trigger] infos[i]) is Some {
        Some(Seq::new(infos.len(), |i: int| prevout(master, bonds, infos[i])->Some_0))
    } else {
        None
    }
}

/// What the signature of each input depends on: the encoding of the unsigned transaction, the
/// outputs that it spends, the master key and the fidelity bonds.
pub struct SigningContext {
    pub raw: Seq<u8>,
    pub prevouts: Seq<TxOutView>,
    pub master: Seq<u8>,
    pub bonds: Seq<BondView>,
}

/// The witness of an ECDSA signature of a digest, with what follows it: a key or a script.
pub open spec fn ecdsa_witness(
    digest: Option<Seq<u8>>,
    secret: Seq<u8>,
    tail: Seq<u8>,
) -> Option<Seq<Seq<u8>>> {
    match digest {
        Some(d) => match ecdsa_signature(d, secret) {
            Some(signature) => Some(seq![signature.push(SIGHASH_ALL), tail]),
            None => None,
        },
        None => None,
    }
}

/// The witness of a P2WPKH coin, if it can be signed.
pub open spec fn p2wpkh_witness(
    context: SigningContext,
    index: usize,
    path: Seq<char>,
    value: u64,
) -> Option<Seq<Seq<u8>>> {
    let secret = seed_key(context.master, AddressType::P2WPKH, path)->Some_0;
    let key = public_key_bytes(secret)->Some_0;
    let script = p2wpkh_bytes(key)->Some_0;
    ecdsa_witness(p2wpkh_sighash(context.raw, index, script, value), secret, key)
}

/// The digest and the x-only public key that the signature of a P2TR coin is for, if it can be signed.
pub open spec fn p2tr_claim(context: SigningContext, index: usize, path: Seq<char>) -> Option<
    (Seq<u8>, Seq<u8>),
> {
    let secret = seed_key(context.master, AddressType::P2TR, path)->Some_0;
    match (taproot_sighash(context.raw, index, context.prevouts), tweaked_key(secret)) {
        (Some(digest), Some(tweaked)) => match public_key_bytes(tweaked) {
            Some(key) => if digest.len() == 32 {
                Some((digest, x_only(key)))
            } else {
                None
            },
            None => None,
        },
        _ => None,
    }
}

/// Whether a stack is the signature of a P2TR coin and nothing else.
pub open spec fn is_p2tr_witness(claim: (Seq<u8>, Seq<u8>), stack: Seq<Seq<u8>>) -> bool {
    &&& stack.len() == 1
    &&& stack[0].len() == 64
    &&& schnorr_verifies(stack[0], claim.0, claim.1)
}

/// Whether a coin of the seed can be signed.
pub open spec fn seed_signable(
    context: SigningContext,
    index: usize,
    path: Seq<char>,
    value: u64,
    address_type: AddressType,
) -> bool {
    match address_type {
        AddressType::P2WPKH => p2wpkh_witness(context, index, path, value) is Some,
        AddressType::P2TR => p2tr_claim(context, index, path) is Some,
    }
}

/// Whether a stack signs a coin of the seed.
pub open spec fn signs_seed(
    context: SigningContext,
    index: usize,
    path: Seq<char>,
    value: u64,
    address_type: AddressType,
    stack: Seq<Seq<u8>>,
) -> bool {
    match address_type {
        AddressType::P2WPKH => p2wpkh_witness(context, index, path, value) == Some(stack),
        AddressType::P2TR => p2tr_claim(context, index, path) is Some && is_p2tr_witness(
            p2tr_claim(context, index, path)->Some_0,
            stack,
        ),
    }
}

/// The witness of a fidelity bond, if it can be signed.
pub open spec fn bond_witness(
    context: SigningContext,
    index: usize,
    bond: u32,
    value: u64,
    secret: Seq<u8>,
) -> Option<Seq<Seq<u8>>> {
    let script = context.bonds[bond as int].redeem_script;
    ecdsa_witness(p2wsh_sighash(context.raw, index, script, value), secret, script)
}

/// Whether an input can be signed.
pub open spec fn signable(
    context: SigningContext,
    index: usize,
    info: SpendInfoView,
    signer: Signer,
) -> bool {
    match info {
        SpendInfoView::SeedCoin { path, input_value, address_type } => seed_signable(
            context,
            index,
            path,
            input_value,
            address_type,
        ),
        SpendInfoView::SweptCoin { path, input_value, address_type } => seed_signable(
            context,
            index,
            path,
            input_value,
            address_type,
        ),
        SpendInfoView::OutgoingSwapCoin { .. } => false,
        SpendInfoView::FidelityBondCoin { index: bond, input_value } => signer->Bond_0 is Ok
            && bond_witness(
            context,
            index,
            bond,
            input_value,
            signer->Bond_0->Ok_0@,
        ) is Some,
        _ => signer->SwapCoin_0 is Ok,
    }
}

/// Whether a witness is what signing makes of the witness that an input had: a coin of the seed and a
/// fidelity bond put their signatures behind it, a swap coin replaces it.
pub open spec fn signs(
    context: SigningContext,
    index: usize,
    info: SpendInfoView,
    signer: Signer,
    before: Seq<Seq<u8>>,
    after: Seq<Seq<u8>>,
) -> bool {
    match info {
        SpendInfoView::SeedCoin { path, input_value, address_type } => exists|stack: Seq<Seq<u8>>|
            signs_seed(context, index, path, input_value, address_type, stack) && after
                == #[trigger] (before + stack),
        SpendInfoView::SweptCoin { path, input_value, address_type } => exists|stack: Seq<Seq<u8>>|
            signs_seed(context, index, path, input_value, address_type, stack) && after
                == #[trigger] (before + stack),
        SpendInfoView::OutgoingSwapCoin { .. } => false,
        SpendInfoView::FidelityBondCoin { index: bond, input_value } => after == before
            + bond_witness(context, index, bond, input_value, signer->Bond_0->Ok_0@)->Some_0,
        _ => after == signer->SwapCoin_0->Ok_0@.input[0].witness,
    }
}

/// Whether an error is the one that an input gives that cannot be signed.
pub open spec fn is_signing_error(info: SpendInfoView, signer: Signer, error: WalletError) -> bool {
    match info {
        SpendInfoView::SeedCoin { .. } => error == WalletError::Signing,
        SpendInfoView::SweptCoin { .. } => error == WalletError::Signing,
        SpendInfoView::OutgoingSwapCoin { .. } => error.is_general(
            "Can't sign for outgoing swapcoins"@,
        ),
        SpendInfoView::FidelityBondCoin { .. } => match signer->Bond_0 {
            Err(e) => error == e,
            Ok(_) => error == WalletError::Signing,
        },
        _ => signer->SwapCoin_0 == Err::<Transaction, WalletError>(error),
    }
}

/// The message of the error that too few or too many signers give.
pub open spec fn count_message(inputs: nat, signers: nat) -> Seq<char> {
    "Mismatched signer/input counts: tx has "@ + decimal(inputs)
        + " inputs but signer metadata has "@ + decimal(signers) + " entries"@
}

/// Whether a transaction is another one but for the witnesses.
pub open spec fn same_but_witnesses(after: TransactionView, before: TransactionView) -> bool {
    &&& after.version == before.version
    &&& after.lock_time == before.lock_time
    &&& after.output == before.output
    &&& after.input.len() == before.input.len()
    &&& forall|i: int|
        0 <= i < before.input.len() ==> (#[trigger] after.input[i]) == (TxInView {
            witness: after.input[i].witness,
            ..before.input[i]
        })
}

/// A change of witnesses keeps the id of a transaction, so signing keeps it.
pub proof fn law_witnesses_keep_the_id(after: TransactionView, before: TransactionView)
    requires
        same_but_witnesses(after, before),
    ensures
        txid_of(after) == txid_of(before),
{
    let a = raw_form(after).without_witnesses();
    let b = raw_form(before).without_witnesses();
    assert forall|i: int| 0 <= i < before.input.len() implies a.input[i] == b.input[i] by {
        assert(after.input[i] == (TxInView {
            witness: after.input[i].witness,
            ..before.input[i]
        }));
    }
    assert(a.input =~= b.input);
}

fn ecdsa_stack(digest: Option<Vec<u8>>, secret: &SecretKey, tail: &Vec<u8>) -> (stack: Result<
    Vec<Vec<u8>>,
    WalletError,
>)
    ensures
        match stack {
            Ok(s) => ecdsa_witness(option_view(digest), secret@, tail@) == Some(views(s@)),
            Err(e) => ecdsa_witness(option_view(digest), secret@, tail@) is None && e
                == WalletError::Signing,
        },
{
    let digest = match digest {
        Some(digest) => digest,
        None => {
            return Err(WalletError::Signing);
        },
    };
    let mut signature = match sign_ecdsa(&digest, secret) {
        Some(signature) => signature,
        None => {
            return Err(WalletError::Signing);
        },
    };
    let ghost der = signature@;
    signature.push(SIGHASH_ALL);
    let mut stack: Vec<Vec<u8>> = Vec::new();
    stack.push(signature);
    stack.push(copy_bytes(tail));
    assert(views(stack@) =~= seq![der.push(SIGHASH_ALL), tail@]);
    Ok(stack)
}

fn sign_seed(
    store: &WalletStore,
    raw: &Vec<u8>,
    prevouts: &Vec<TxOut>,
    index: usize,
    path: &str,
    value: u64,
    address_type: AddressType,
    Ghost(context): Ghost<SigningContext>,
) -> (stack: Result<Vec<Vec<u8>>, WalletError>)
    requires
        context.raw == raw@,
        context.prevouts == views(prevouts@),
        context.master == store.master_key@,
        seed_prevout(context.master, path@, value, address_type) is Some,
    ensures
        match stack {
            Ok(s) => signs_seed(context, index, path@, value, address_type, views(s@)),
            Err(e) => !seed_signable(context, index, path@, value, address_type) && e
                == WalletError::Signing,
        },
{
    let secret = match derive_seed_key(store, address_type, path) {
        Ok(secret) => secret,
        Err(_) => {
            return Err(WalletError::Signing);
        },
    };
    match address_type {
        AddressType::P2WPKH => {
            let (key, script) = match (public_key_of(&secret), script_of_key(&secret, address_type)) {
                (Some(key), Ok(script)) => (key, script),
                _ => {
                    return Err(WalletError::Signing);
                },
            };
            ecdsa_stack(sighash_p2wpkh(raw, index, &script, value), &secret, &key.bytes)
        },
        AddressType::P2TR => {
            let (digest, tweaked) = match (sighash_taproot(raw, index, prevouts), tap_tweak(&secret)) {
                (Some(digest), Some(tweaked)) => (digest, tweaked),
                _ => {
                    return Err(WalletError::Signing);
                },
            };
            match sign_schnorr(&digest, &tweaked) {
                Some(signature) => {
                    let mut stack: Vec<Vec<u8>> = Vec::new();
                    stack.push(signature);
                    assert(views(stack@)[0] == signature@);
                    Ok(stack)
                },
                None => Err(WalletError::Signing),
            }
        },
    }
}

fn append_witness(tx: &mut Transaction, i: usize, stack: Vec<Vec<u8>>)
    requires
        i < old(tx).input@.len(),
    ensures
        final(tx)@ == (TransactionView {
            input: old(tx)@.input.update(
                i as int,
                TxInView {
                    witness: old(tx)@.input[i as int].witness + views(stack@),
                    ..old(tx)@.input[i as int]
                },
            ),
            ..old(tx)@
        }),
{
    let ghost before = tx@;
    let ghost inputs = tx.input@;
    let mut stack = stack;
    let ghost added = views(stack@);
    let mut input = tx.input.remove(i);
    let ghost held = input@;
    assert(held == before.input[i as int]);
    let ghost witness = input.witness@;
    let ghost items = stack@;
    input.witness.append(&mut stack);
    assert(views(input.witness@) =~= views(witness) + added);
    tx.input.insert(i, input);
    proof {
        assert(tx.input@ =~= inputs.update(i as int, input));
        assert(tx@.input =~= before.input.update(
            i as int,
            TxInView { witness: held.witness + added, ..held },
        ));
    }
}

fn set_witness(tx: &mut Transaction, i: usize, stack: Vec<Vec<u8>>)
    requires
        i < old(tx).input@.len(),
    ensures
        final(tx)@ == (TransactionView {
            input: old(tx)@.input.update(
                i as int,
                TxInView { witness: views(stack@), ..old(tx)@.input[i as int] },
            ),
            ..old(tx)@
        }),
{
    let ghost before = tx@;
    let ghost inputs = tx.input@;
    let mut input = tx.input.remove(i);
    let ghost held = input@;
    assert(held == before.input[i as int]);
    input.witness = stack;
    tx.input.insert(i, input);
    proof {
        assert(tx.input@ =~= inputs.update(i as int, input));
        assert(tx@.input =~= before.input.update(
            i as int,
            TxInView { witness: views(stack@), ..held },
        ));
    }
}

/// Whether the first `n` inputs of a transaction are signed and the others are as they were.
pub open spec fn signed_up_to(
    context: SigningContext,
    infos: Seq<SpendInfoView>,
    signers: Seq<Signer>,
    n: int,
    after: TransactionView,
    before: TransactionView,
) -> bool {
    &&& same_but_witnesses(after, before)
    &&& forall|i: int|
        0 <= i < n ==> signs(
            context,
            i as usize,
            infos[i],
            signers[i],
            before.input[i].witness,
            (#[trigger] after.input[i]).witness,
        )
    &&& forall|i: int|
        n <= i < before.input.len() ==> (#[trigger] after.input[i]) == before.input[i]
}

/// Whether signing stops at an input with an error: those before it can be signed, it cannot.
pub open spec fn stops_at(
    context: SigningContext,
    infos: Seq<SpendInfoView>,
    signers: Seq<Signer>,
    n: int,
    error: WalletError,
) -> bool {
    &&& 0 <= n < infos.len()
    &&& forall|i: int|
        0 <= i < n ==> signable(context, i as usize, #[trigger] infos[i], signers[i])
    &&& !signable(context, n as usize, infos[n], signers[n])
    &&& is_signing_error(infos[n], signers[n], error)
}

impl<B: BlockchainBackend> Wallet<B> {
    fn prevouts(&self, infos: &Vec<UTXOSpendInfo>) -> (prevouts: Result<Vec<TxOut>, WalletError>)
        requires
            forall|i: int|
                0 <= i < infos@.len() ==> bond_exists(
                    self.store.fidelity_bond@.len(),
                    (#[trigger] infos@[i])@,
                ),
        ensures
            match prevouts {
                Ok(p) => all_prevouts(
                    self.store.master_key@,
                    views(self.store.fidelity_bond@),
                    views(infos@),
                ) == Some(views(p@)),
                Err(e) => all_prevouts(
                    self.store.master_key@,
                    views(self.store.fidelity_bond@),
                    views(infos@),
                ) is None && e == WalletError::Derivation,
            },
    {
        let ghost master = self.store.master_key@;
        let ghost bonds = views(self.store.fidelity_bond@);
        let ghost all = views(infos@);
        let mut prevouts: Vec<TxOut> = Vec::new();
        let mut i: usize = 0;
        while i < infos.len()
            invariant
                master == self.store.master_key@,
                bonds == views(self.store.fidelity_bond@),
                all == views(infos@),
                forall|j: int|
                    0 <= j < infos@.len() ==> bond_exists(
                        self.store.fidelity_bond@.len(),
                        (#[trigger] infos@[j])@,
                    ),
                i <= infos.len(),
                prevouts.len() == i,
                forall|j: int|
                    0 <= j < i ==> prevout(master, bonds, #[trigger] all[j]) == Some(
                        prevouts@[j]@,
                    ),
            decreases infos.len() - i,
        {
            let ghost info = infos@[i as int]@;
            assert(all[i as int] == info);
            assert(bond_exists(self.store.fidelity_bond@.len(), infos@[i as int]@));
            let out = match &infos[i] {
                UTXOSpendInfo::SeedCoin { path, input_value, address_type }
                | UTXOSpendInfo::SweptCoin { path, input_value, address_type } => {
                    let script = match derive_seed_key(&self.store, *address_type, path.as_str()) {
                        Ok(secret) => script_of_key(&secret, *address_type),
                        Err(e) => Err(e),
                    };
                    match script {
                        Ok(script_pubkey) => TxOut { value: *input_value, script_pubkey },
                        Err(_) => {
                            return Err(WalletError::Derivation);
                        },
                    }
                },
                UTXOSpendInfo::FidelityBondCoin { index, input_value } => {
                    let bond = &self.store.fidelity_bond[*index as usize];
                    assert(bonds[*index as int] == bond@);
                    TxOut { value: *input_value, script_pubkey: bond.script_pub_key() }
                },
                _ => {
                    let empty = ScriptBuf { bytes: Vec::new() };
                    assert(empty@ =~= Seq::empty());
                    TxOut { value: 0, script_pubkey: empty }
                },
            };
            assert(prevout(master, bonds, info) == Some(out@));
            prevouts.push(out);
            i += 1;
        }
        proof {
            assert forall|j: int| 0 <= j < all.len() implies prevout(
                master,
                bonds,
                #[trigger] all[j],
            ) is Some by {}
            assert(views(prevouts@) =~= Seq::new(
                all.len(),
                |j: int| prevout(master, bonds, all[j])->Some_0,
            ));
        }
        Ok(prevouts)
    }

    /// What a swap coin is asked to sign for an input of a transaction that is not signed yet. A coin
    /// received in a swap and a hashlock contract are spent by the received coin; a timelock contract is
    /// taken back by the sent coin. Other inputs need no swap coin.
    pub fn swap_signing(&self, info: &UTXOSpendInfo, tx: &Transaction) -> (request: Option<
        SwapSigning,
    >)
        requires
            has_swap_signer(self.store, info@, tx@),
        ensures
            match info@ {
                SpendInfoView::IncomingSwapCoin { multisig_redeemscript } => asks_to_spend(
                    request,
                    self.store,
                    multisig_redeemscript,
                    tx@,
                ),
                SpendInfoView::HashlockContract { swapcoin_multisig_redeemscript, .. } => asks_to_spend(
                    request,
                    self.store,
                    swapcoin_multisig_redeemscript,
                    tx@,
                ),
                SpendInfoView::TimelockContract { swapcoin_multisig_redeemscript, .. } => asks_to_recover(
                    request,
                    self.store,
                    swapcoin_multisig_redeemscript,
                    tx@,
                ),
                _ => request is None,
            },
    {
        match info {
            UTXOSpendInfo::IncomingSwapCoin { multisig_redeemscript: redeem }
            | UTXOSpendInfo::HashlockContract { swapcoin_multisig_redeemscript: redeem, .. } => {
                match self.find_incoming_swapcoin_by_multisig(redeem) {
                    Some(coin) => {
                        assert(tx@.output[0] == tx.output@[0]@);
                        Some(
                            SwapSigning::Spend {
                                coin: coin.duplicate(),
                                value: coin.funding_amount,
                                script: tx.output[0].script_pubkey.clone(),
                                feerate: SWAP_SPEND_FEERATE,
                            },
                        )
                    },
                    None => None,
                }
            },
            UTXOSpendInfo::TimelockContract { swapcoin_multisig_redeemscript: redeem, .. } => {
                match self.find_outgoing_swapcoin_by_multisig(redeem) {
                    Some(coin) => Some(
                        SwapSigning::Recovery { coin: coin.duplicate(), tx: tx.duplicate() },
                    ),
                    None => None,
                }
            },
            _ => None,
        }
    }

    /// Signs the inputs of a transaction, in order. It stops at the first that cannot be signed, and
    /// leaves those before it signed.
    pub fn sign_transaction(
        &self,
        tx: &mut Transaction,
        inputs_info: &Vec<UTXOSpendInfo>,
        signers: Vec<Signer>,
    ) -> (result: Result<(), WalletError>)
        requires
            signers@.len() == inputs_info@.len(),
            forall|i: int|
                0 <= i < inputs_info@.len() ==> bond_exists(
                    self.store.fidelity_bond@.len(),
                    (#[trigger] inputs_info@[i])@,
                ),
            forall|i: int|
                0 <= i < inputs_info@.len() ==> signer_fits(
                    (#[trigger] inputs_info@[i])@,
                    signers@[i],
                ),
        ensures
            signing_outcome(
                self.store,
                views(inputs_info@),
                signers@,
                old(tx)@,
                final(tx)@,
                result,
            ),
            txid_of(final(tx)@) == txid_of(old(tx)@),
    {
        let prevouts = match self.prevouts(inputs_info) {
            Ok(prevouts) => prevouts,
            Err(e) => {
                return Err(e);
            },
        };
        assert(tx@.input.len() == tx.input@.len());
        if tx.input.len() != inputs_info.len() {
            let mut message = "Mismatched signer/input counts: tx has ".to_owned();
            message.append(decimal_text(tx.input.len() as u64).as_str());
            message.append(" inputs but signer metadata has ");
            message.append(decimal_text(inputs_info.len() as u64).as_str());
            message.append(" entries");
            return Err(WalletError::General(message));
        }
        let raw = encode_tx(tx);
        let ghost before = tx@;
        let ghost infos = views(inputs_info@);
        let ghost all_signers = signers@;
        let ghost context = SigningContext {
            raw: raw@,
            prevouts: views(prevouts@),
            master: self.store.master_key@,
            bonds: views(self.store.fidelity_bond@),
        };
        let mut remaining = signers;
        let mut i: usize = 0;
        while i < inputs_info.len()
            invariant
                before == old(tx)@,
                all_signers == signers@,
                before.input.len() == inputs_info@.len(),
                tx@.input.len() == tx.input@.len(),
                infos == views(inputs_info@),
                all_signers.len() == infos.len(),
                context == (SigningContext {
                    raw: raw@,
                    prevouts: views(prevouts@),
                    master: self.store.master_key@,
                    bonds: views(self.store.fidelity_bond@),
                }),
                signing_context(self.store, infos, before) == Some(context),
                forall|j: int|
                    0 <= j < infos.len() ==> prevout(
                        context.master,
                        context.bonds,
                        #[trigger] infos[j],
                    ) is Some,
                forall|j: int|
                    0 <= j < inputs_info@.len() ==> bond_exists(
                        self.store.fidelity_bond@.len(),
                        (#[trigger] inputs_info@[j])@,
                    ),
                forall|j: int|
                    0 <= j < inputs_info@.len() ==> signer_fits(
                        (#[trigger] inputs_info@[j])@,
                        all_signers[j],
                    ),
                i <= inputs_info.len(),
                remaining@ == all_signers.skip(i as int),
                signed_up_to(context, infos, all_signers, i as int, tx@, before),
                forall|j: int|
                    0 <= j < i ==> signable(
                        context,
                        j as usize,
                        #[trigger] infos[j],
                        all_signers[j],
                    ),
            decreases inputs_info.len() - i,
        {
            let ghost so_far = tx@;
            let ghost info = infos[i as int];
            let ghost signer_view = all_signers[i as int];
            assert(remaining@[0] == signer_view);
            let signer = remaining.remove(0);
            assert(remaining@ =~= all_signers.skip(i + 1));
            assert(info == inputs_info@[i as int]@);
            assert(signer_fits(inputs_info@[i as int]@, all_signers[i as int]));
            assert(bond_exists(self.store.fidelity_bond@.len(), inputs_info@[i as int]@));
            assert(prevout(context.master, context.bonds, infos[i as int]) is Some);
            let step: Result<(bool, Vec<Vec<u8>>), WalletError> = match &inputs_info[i] {
                UTXOSpendInfo::OutgoingSwapCoin { .. } => Err(
                    WalletError::general("Can't sign for outgoing swapcoins"),
                ),
                UTXOSpendInfo::SeedCoin { path, input_value, address_type }
                | UTXOSpendInfo::SweptCoin { path, input_value, address_type } => {
                    match sign_seed(
                        &self.store,
                        &raw,
                        &prevouts,
                        i,
                        path.as_str(),
                        *input_value,
                        *address_type,
                        Ghost(context),
                    ) {
                        Ok(stack) => Ok((false, stack)),
                        Err(e) => Err(e),
                    }
                },
                UTXOSpendInfo::FidelityBondCoin { index, input_value } => {
                    let bond = &self.store.fidelity_bond[*index as usize];
                    assert(context.bonds[*index as int] == bond@);
                    match signer {
                        Signer::Bond(Ok(secret)) => {
                            let digest = sighash_p2wsh(&raw, i, &bond.redeem_script, *input_value);
                            match ecdsa_stack(digest, &secret, &bond.redeem_script.bytes) {
                                Ok(stack) => Ok((false, stack)),
                                Err(e) => Err(e),
                            }
                        },
                        Signer::Bond(Err(e)) => Err(e),
                        _ => Err(WalletError::Signing),
                    }
                },
                _ => match signer {
                    Signer::SwapCoin(Ok(signed)) => {
                        let mut inputs = signed.input;
                        assert(signed@.input[0] == inputs@[0]@);
                        Ok((true, inputs.remove(0).witness))
                    },
                    Signer::SwapCoin(Err(e)) => Err(e),
                    _ => Err(WalletError::Signing),
                },
            };
            match step {
                Ok((true, stack)) => {
                    set_witness(tx, i, stack);
                },
                Ok((false, stack)) => {
                    append_witness(tx, i, stack);
                },
                Err(e) => {
                    proof {
                        assert(stops_at(context, infos, all_signers, i as int, e));
                        assert(signing_stopped(context, infos, all_signers, before, tx@, e));
                        law_witnesses_keep_the_id(tx@, before);
                    }
                    return Err(e);
                },
            }
            i += 1;
        }
        proof {
            law_witnesses_keep_the_id(tx@, before);
        }
        Ok(())
    }
}

/// What the signatures of a transaction depend on, if the keys of its inputs can be derived.
pub open spec fn signing_context(
    store: WalletStore,
    infos: Seq<SpendInfoView>,
    tx: TransactionView,
) -> Option<SigningContext> {
    match all_prevouts(store.master_key@, views(store.fidelity_bond@), infos) {
        Some(prevouts) => Some(
            SigningContext {
                raw: tx_bytes(tx),
                prevouts,
                master: store.master_key@,
                bonds: views(store.fidelity_bond@),
            },
        ),
        None => None,
    }
}

/// Whether signing stopped with an error, the inputs before the one that gave it signed.
pub open spec fn signing_stopped(
    context: SigningContext,
    infos: Seq<SpendInfoView>,
    signers: Seq<Signer>,
    before: TransactionView,
    after: TransactionView,
    error: WalletError,
) -> bool {
    exists|n: int| #[trigger]
        stops_at(context, infos, signers, n, error) && signed_up_to(
            context,
            infos,
            signers,
            n,
            after,
            before,
        )
}

/// How the signing of a transaction ends: with all inputs signed; with an error and the transaction
/// untouched, where a key cannot be derived or the signers are too few or too many; or with the error
/// of the first input that cannot be signed, those before it signed.
pub open spec fn signing_outcome(
    store: WalletStore,
    infos: Seq<SpendInfoView>,
    signers: Seq<Signer>,
    before: TransactionView,
    after: TransactionView,
    result: Result<(), WalletError>,
) -> bool {
    match signing_context(store, infos, before) {
        None => result == Err::<(), WalletError>(WalletError::Derivation) && after == before,
        Some(context) => if before.input.len() != infos.len() {
            &&& result matches Err(e)
            &&& e.is_general(count_message(before.input.len(), infos.len()))
            &&& after == before
        } else {
            match result {
                Ok(_) => {
                    &&& forall|i: int|
                        0 <= i < infos.len() ==> signable(
                            context,
                            i as usize,
                            #[trigger] infos[i],
                            signers[i],
                        )
                    &&& signed_up_to(context, infos, signers, infos.len() as int, after, before)
                },
                Err(e) => signing_stopped(context, infos, signers, before, after, e),
            }
        },
    }
}

/// A transaction that spends a coin that was sent in a swap is never signed to the end, and a coin that
/// stands behind it stays unsigned.
pub proof fn law_outgoing_coins_are_never_signed(
    store: WalletStore,
    infos: Seq<SpendInfoView>,
    signers: Seq<Signer>,
    before: TransactionView,
    after: TransactionView,
    result: Result<(), WalletError>,
    i: int,
)
    requires
        signing_outcome(store, infos, signers, before, after, result),
        0 <= i < infos.len(),
        infos[i] is OutgoingSwapCoin,
        i <= usize::MAX,
    ensures
        result is Err,
        forall|j: int|
            i <= j < before.input.len() && before.input.len() == infos.len() ==> (
            #[trigger] after.input[j]) == before.input[j],
{
}

/// The private key that a coin of the seed is spent with: that at the coin's path, below the account key at
/// the hardened path of its address type.
pub open spec fn is_seed_secret(
    master: Seq<u8>,
    address_type: AddressType,
    path: Seq<char>,
    secret: Seq<u8>,
) -> bool {
    let hardened = parsed_path(
        if address_type == AddressType::P2TR {
            "m/86'/1'/0'"@
        } else {
            "m/84'/1'/0'"@
        },
    );
    let account = derived_key(master, hardened->Some_0);
    let numbers = parsed_path(path);
    let child = derived_key(account->Some_0, numbers->Some_0);
    &&& hardened is Some
    &&& account is Some
    &&& numbers is Some
    &&& child is Some
    &&& secret == child->Some_0.subrange(46, 78)
}

/// Whether a script is the one that locks a coin of the seed.
pub open spec fn locked_by_coin(
    master: Seq<u8>,
    address_type: AddressType,
    path: Seq<char>,
    script: Seq<u8>,
) -> bool {
    exists|secret: Seq<u8>|
        {
            &&& #[trigger] is_seed_secret(master, address_type, path, secret)
            &&& public_key_bytes(secret) is Some
            &&& match address_type {
                AddressType::P2TR => p2tr_bytes(public_key_bytes(secret)->Some_0) == Some(script),
                AddressType::P2WPKH => p2wpkh_bytes(public_key_bytes(secret)->Some_0) == Some(
                    script,
                ),
            }
        }
}

/// Whether an output is the one that an input spends: a coin of the seed is worth its value, and locked by
/// the script of its key; a fidelity bond is worth its value, and locked by the script of the bond; of a
/// swap coin nothing is told.
pub open spec fn is_spent_output(store: WalletStore, info: SpendInfoView, output: TxOutView) -> bool {
    match info {
        SpendInfoView::SeedCoin { path, input_value, address_type } => {
            &&& output.value == input_value
            &&& locked_by_coin(store.master_key@, address_type, path, output.script_pubkey)
        },
        SpendInfoView::SweptCoin { path, input_value, address_type } => {
            &&& output.value == input_value
            &&& locked_by_coin(store.master_key@, address_type, path, output.script_pubkey)
        },
        SpendInfoView::FidelityBondCoin { index, input_value } => {
            &&& output.value == input_value
            &&& output.script_pubkey == p2wsh_bytes(
                store.fidelity_bond@[index as int].redeem_script@,
            )
        },
        _ => output.value == 0 && output.script_pubkey.len() == 0,
    }
}

proof fn lemma_seed_secret(
    master: Seq<u8>,
    address_type: AddressType,
    path: Seq<char>,
    secret: Seq<u8>,
)
    requires
        is_seed_secret(master, address_type, path, secret),
    ensures
        seed_key(master, address_type, path) == Some(secret),
{
}

proof fn lemma_seed_secret_of(master: Seq<u8>, address_type: AddressType, path: Seq<char>)
    requires
        seed_key(master, address_type, path) is Some,
    ensures
        is_seed_secret(
            master,
            address_type,
            path,
            seed_key(master, address_type, path)->Some_0,
        ),
{
}

proof fn lemma_locked_by_coin(
    master: Seq<u8>,
    address_type: AddressType,
    path: Seq<char>,
    script: Seq<u8>,
)
    requires
        locked_by_coin(master, address_type, path, script),
    ensures
        seed_key(master, address_type, path) is Some,
        key_script(seed_key(master, address_type, path)->Some_0, address_type) == Some(script),
{
    let secret = choose|secret: Seq<u8>|
        {
            &&& #[trigger] is_seed_secret(master, address_type, path, secret)
            &&& public_key_bytes(secret) is Some
            &&& match address_type {
                AddressType::P2TR => p2tr_bytes(public_key_bytes(secret)->Some_0) == Some(script),
                AddressType::P2WPKH => p2wpkh_bytes(public_key_bytes(secret)->Some_0) == Some(
                    script,
                ),
            }
        };
    lemma_seed_secret(master, address_type, path, secret);
}

proof fn lemma_spent_outputs(
    store: WalletStore,
    infos: Seq<SpendInfoView>,
    before: TransactionView,
    spent: Seq<TxOutView>,
)
    requires
        signing_context(store, infos, before) is Some,
        spent.len() == infos.len(),
        forall|j: int| 0 <= j < infos.len() ==> is_spent_output(store, #[trigger] infos[j], spent[j]),
        forall|j: int|
            0 <= j < infos.len() ==> bond_exists(store.fidelity_bond@.len(), #[trigger] infos[j]),
    ensures
        signing_context(store, infos, before)->Some_0.prevouts == spent,
{
    let master = store.master_key@;
    let bonds = views(store.fidelity_bond@);
    let context = signing_context(store, infos, before)->Some_0;
    assert forall|j: int| 0 <= j < infos.len() implies context.prevouts[j] == spent[j] by {
        assert(prevout(master, bonds, infos[j]) is Some);
        assert(is_spent_output(store, infos[j], spent[j]));
        assert(bond_exists(store.fidelity_bond@.len(), infos[j]));
        match infos[j] {
            SpendInfoView::SeedCoin { path, input_value, address_type } => {
                lemma_locked_by_coin(master, address_type, path, spent[j].script_pubkey);
            },
            SpendInfoView::SweptCoin { path, input_value, address_type } => {
                lemma_locked_by_coin(master, address_type, path, spent[j].script_pubkey);
            },
            SpendInfoView::FidelityBondCoin { index, input_value } => {
                assert(bonds[index as int] == store.fidelity_bond@[index as int]@);
            },
            _ => {
                assert(spent[j].script_pubkey =~= Seq::<u8>::empty());
            },
        }
    }
    assert(context.prevouts =~= spent);
}

/// The outputs that a signature commits to are the ones that the inputs spend: each coin of the seed,
/// regular or swept and of either address type, with its value and the script of its key.
pub proof fn law_signatures_commit_to_spent_outputs(
    store: WalletStore,
    infos: Seq<SpendInfoView>,
    before: TransactionView,
    j: int,
)
    requires
        signing_context(store, infos, before) is Some,
        0 <= j < infos.len(),
        bond_exists(store.fidelity_bond@.len(), infos[j]),
    ensures
        signing_context(store, infos, before)->Some_0.prevouts.len() == infos.len(),
        is_spent_output(
            store,
            infos[j],
            signing_context(store, infos, before)->Some_0.prevouts[j],
        ),
        signing_context(store, infos, before)->Some_0.raw == raw_encoding(raw_form(before)),
{
    let master = store.master_key@;
    let bonds = views(store.fidelity_bond@);
    let output = signing_context(store, infos, before)->Some_0.prevouts[j];
    assert(prevout(master, bonds, infos[j]) == Some(output));
    match infos[j] {
        SpendInfoView::SeedCoin { path, input_value, address_type } => {
            let secret = seed_key(master, address_type, path)->Some_0;
            lemma_seed_secret_of(master, address_type, path);
            assert(key_script(secret, address_type) == Some(output.script_pubkey));
            assert(is_seed_secret(master, address_type, path, secret));
            assert(locked_by_coin(master, address_type, path, output.script_pubkey));
        },
        SpendInfoView::SweptCoin { path, input_value, address_type } => {
            let secret = seed_key(master, address_type, path)->Some_0;
            lemma_seed_secret_of(master, address_type, path);
            assert(key_script(secret, address_type) == Some(output.script_pubkey));
            assert(is_seed_secret(master, address_type, path, secret));
            assert(locked_by_coin(master, address_type, path, output.script_pubkey));
        },
        SpendInfoView::FidelityBondCoin { index, input_value } => {
            assert(bonds[index as int] == store.fidelity_bond@[index as int]@);
        },
        _ => {},
    }
}

/// Whether 64 bytes are a Schnorr signature of a digest for the public key of a tweaked private key.
pub open spec fn verifies_for_coin(
    signature: Seq<u8>,
    digest: Option<Seq<u8>>,
    tweaked: Option<Seq<u8>>,
) -> bool {
    &&& signature.len() == 64
    &&& digest is Some
    &&& tweaked is Some
    &&& public_key_bytes(tweaked->Some_0) is Some
    &&& schnorr_verifies(
        signature,
        digest->Some_0,
        public_key_bytes(tweaked->Some_0)->Some_0.subrange(1, 33),
    )
}

/// A P2TR coin of the seed, regular or swept, is signed by a Schnorr signature of 64 bytes that stands behind
/// the witness that was there. It verifies for the tweaked public key of the coin, over the hash of the
/// unsigned transaction and of the outputs that the inputs spend.
pub proof fn law_taproot_coins_are_signed(
    store: WalletStore,
    infos: Seq<SpendInfoView>,
    signers: Seq<Signer>,
    before: TransactionView,
    after: TransactionView,
    spent: Seq<TxOutView>,
    i: int,
    path: Seq<char>,
    value: u64,
    secret: Seq<u8>,
)
    requires
        signing_outcome(store, infos, signers, before, after, Ok(())),
        spent.len() == infos.len(),
        forall|j: int| 0 <= j < infos.len() ==> is_spent_output(store, #[trigger] infos[j], spent[j]),
        forall|j: int|
            0 <= j < infos.len() ==> bond_exists(store.fidelity_bond@.len(), #[trigger] infos[j]),
        0 <= i < infos.len(),
        infos.len() <= usize::MAX,
        infos[i] == (SpendInfoView::SeedCoin {
            path,
            input_value: value,
            address_type: AddressType::P2TR,
        }) || infos[i] == (SpendInfoView::SweptCoin {
            path,
            input_value: value,
            address_type: AddressType::P2TR,
        }),
        is_seed_secret(store.master_key@, AddressType::P2TR, path, secret),
    ensures
        exists|signature: Seq<u8>|
            {
                &&& #[trigger] verifies_for_coin(
                    signature,
                    taproot_sighash(raw_encoding(raw_form(before)), i as usize, spent),
                    tweaked_key(secret),
                )
                &&& after.input[i].witness == before.input[i].witness.push(signature)
            },
{
    lemma_spent_outputs(store, infos, before, spent);
    lemma_seed_secret(store.master_key@, AddressType::P2TR, path, secret);
    let context = signing_context(store, infos, before)->Some_0;
    assert(after.input[i] == (TxInView { witness: after.input[i].witness, ..before.input[i] }));
    let old_stack = before.input[i].witness;
    let stack = choose|stack: Seq<Seq<u8>>|
        signs_seed(context, i as usize, path, value, AddressType::P2TR, stack)
            && after.input[i].witness == #[trigger] (old_stack + stack);
    let signature = stack[0];
    assert(old_stack + stack =~= old_stack.push(signature));
    assert(verifies_for_coin(
        signature,
        taproot_sighash(raw_encoding(raw_form(before)), i as usize, spent),
        tweaked_key(secret),
    ));
}

/// A P2WPKH coin of the seed, regular or swept, is signed by an ECDSA signature over all inputs and outputs,
/// of the hash of the unsigned transaction with the coin's value, and by its public key. Both stand
/// behind the witness that was there.
pub proof fn law_segwit_coins_are_signed(
    store: WalletStore,
    infos: Seq<SpendInfoView>,
    signers: Seq<Signer>,
    before: TransactionView,
    after: TransactionView,
    i: int,
    path: Seq<char>,
    value: u64,
    secret: Seq<u8>,
)
    requires
        signing_outcome(store, infos, signers, before, after, Ok(())),
        0 <= i < infos.len(),
        infos.len() <= usize::MAX,
        infos[i] == (SpendInfoView::SeedCoin {
            path,
            input_value: value,
            address_type: AddressType::P2WPKH,
        }) || infos[i] == (SpendInfoView::SweptCoin {
            path,
            input_value: value,
            address_type: AddressType::P2WPKH,
        }),
        is_seed_secret(store.master_key@, AddressType::P2WPKH, path, secret),
    ensures
        ({
            let key = public_key_bytes(secret)->Some_0;
            let digest = p2wpkh_sighash(
                raw_encoding(raw_form(before)),
                i as usize,
                p2wpkh_bytes(key)->Some_0,
                value,
            );
            &&& digest is Some
            &&& ecdsa_signature(digest->Some_0, secret) is Some
            &&& after.input[i].witness == before.input[i].witness.push(
                ecdsa_signature(digest->Some_0, secret)->Some_0.push(1u8),
            ).push(key)
        }),
{
    lemma_seed_secret(store.master_key@, AddressType::P2WPKH, path, secret);
    let context = signing_context(store, infos, before)->Some_0;
    assert(after.input[i] == (TxInView { witness: after.input[i].witness, ..before.input[i] }));
    let old_stack = before.input[i].witness;
    let stack = choose|stack: Seq<Seq<u8>>|
        signs_seed(context, i as usize, path, value, AddressType::P2WPKH, stack)
            && after.input[i].witness == #[trigger] (old_stack + stack);
    assert(old_stack + stack =~= old_stack.push(stack[0]).push(stack[1]));
}

/// A fidelity bond is signed by an ECDSA signature, with the bond's private key, of the hash of the unsigned
/// transaction with the bond's value and redeem script, and by the redeem script.
pub proof fn law_bonds_are_signed(
    store: WalletStore,
    infos: Seq<SpendInfoView>,
    signers: Seq<Signer>,
    before: TransactionView,
    after: TransactionView,
    i: int,
    index: u32,
    value: u64,
    secret: SecretKey,
)
    requires
        signing_outcome(store, infos, signers, before, after, Ok(())),
        0 <= i < infos.len(),
        infos.len() <= usize::MAX,
        infos[i] == (SpendInfoView::FidelityBondCoin { index, input_value: value }),
        index < store.fidelity_bond@.len(),
        signers[i] == Signer::Bond(Ok(secret)),
    ensures
        ({
            let redeem = store.fidelity_bond@[index as int].redeem_script@;
            let digest = p2wsh_sighash(raw_encoding(raw_form(before)), i as usize, redeem, value);
            &&& digest is Some
            &&& ecdsa_signature(digest->Some_0, secret@) is Some
            &&& after.input[i].witness == before.input[i].witness.push(
                ecdsa_signature(digest->Some_0, secret@)->Some_0.push(1u8),
            ).push(redeem)
        }),
{
    let context = signing_context(store, infos, before)->Some_0;
    assert(context.bonds[index as int] == store.fidelity_bond@[index as int]@);
    assert(after.input[i] == (TxInView { witness: after.input[i].witness, ..before.input[i] }));
    assert(signable(context, i as usize, infos[i], signers[i]));
    let stack = bond_witness(context, i as usize, index, value, secret@)->Some_0;
    let old_stack = before.input[i].witness;
    assert(old_stack + stack =~= old_stack.push(stack[0]).push(stack[1]));
}

/// A coin received in a swap, a hashlock contract and a timelock contract get the witness of the first input
/// of what the swap coin signed, in place of the one that was there.
pub proof fn law_swap_coins_give_their_witness(
    store: WalletStore,
    infos: Seq<SpendInfoView>,
    signers: Seq<Signer>,
    before: TransactionView,
    after: TransactionView,
    i: int,
    signed: Transaction,
)
    requires
        signing_outcome(store, infos, signers, before, after, Ok(())),
        0 <= i < infos.len(),
        infos.len() <= usize::MAX,
        infos[i] is IncomingSwapCoin || infos[i] is HashlockContract || infos[i] is TimelockContract,
        signers[i] == Signer::SwapCoin(Ok(signed)),
    ensures
        after.input[i].witness == signed@.input[0].witness,
{
    assert(after.input[i] == (TxInView { witness: after.input[i].witness, ..before.input[i] }));
}

/// Signing changes nothing of a transaction but its witnesses, and signs no input where it cannot derive a
/// key or the numbers of inputs and signers do not agree.
pub proof fn law_signing_changes_witnesses_alone(
    store: WalletStore,
    infos: Seq<SpendInfoView>,
    signers: Seq<Signer>,
    before: TransactionView,
    after: TransactionView,
    result: Result<(), WalletError>,
)
    requires
        signing_outcome(store, infos, signers, before, after, result),
    ensures
        after.version == before.version,
        after.lock_time == before.lock_time,
        after.output == before.output,
        after.input.len() == before.input.len(),
        forall|i: int|
            0 <= i < before.input.len() ==> {
                &&& (#[trigger] after.input[i]).previous_output == before.input[i].previous_output
                &&& after.input[i].script_sig == before.input[i].script_sig
                &&& after.input[i].sequence == before.input[i].sequence
            },
        before.input.len() != infos.len() ==> result is Err && after == before,
        result is Ok ==> before.input.len() == infos.len(),
{
    if result is Err && signing_context(store, infos, before) is Some && before.input.len()
        == infos.len() {
        let context = signing_context(store, infos, before)->Some_0;
        let e = result->Err_0;
        let n = choose|n: int| #[trigger]
            stops_at(context, infos, signers, n, e) && signed_up_to(
                context,
                infos,
                signers,
                n,
                after,
                before,
            );
        assert(same_but_witnesses(after, before));
    }
}

/// Whether a coin of the seed can be signed with a private key: its script and its signature can be made.
pub open spec fn signs_with(
    secret: Seq<u8>,
    value: u64,
    address_type: AddressType,
    raw: Seq<u8>,
    spent: Seq<TxOutView>,
    i: int,
) -> bool {
    let key = public_key_bytes(secret)->Some_0;
    &&& public_key_bytes(secret) is Some
    &&& match address_type {
        AddressType::P2WPKH => {
            let digest = p2wpkh_sighash(raw, i as usize, p2wpkh_bytes(key)->Some_0, value);
            &&& p2wpkh_bytes(key) is Some
            &&& digest is Some
            &&& ecdsa_signature(digest->Some_0, secret) is Some
        },
        AddressType::P2TR => {
            let digest = taproot_sighash(raw, i as usize, spent);
            &&& p2tr_bytes(key) is Some
            &&& digest is Some
            &&& digest->Some_0.len() == 32
            &&& tweaked_key(secret) is Some
            &&& public_key_bytes(tweaked_key(secret)->Some_0) is Some
        },
    }
}

/// Whether a coin of the seed can be signed: its key can be derived, and its signature made.
pub open spec fn coin_can_be_signed(
    master: Seq<u8>,
    path: Seq<char>,
    value: u64,
    address_type: AddressType,
    raw: Seq<u8>,
    spent: Seq<TxOutView>,
    i: int,
) -> bool {
    exists|secret: Seq<u8>| #[trigger]
        is_seed_secret(master, address_type, path, secret) && signs_with(
            secret,
            value,
            address_type,
            raw,
            spent,
            i,
        )
}

/// Whether an input can be signed: the coin's key can be derived and its signature made, the bond's key is
/// at hand, or the swap coin has signed.
pub open spec fn can_be_signed(
    store: WalletStore,
    info: SpendInfoView,
    signer: Signer,
    raw: Seq<u8>,
    spent: Seq<TxOutView>,
    i: int,
) -> bool {
    match info {
        SpendInfoView::SeedCoin { path, input_value, address_type } => coin_can_be_signed(
            store.master_key@,
            path,
            input_value,
            address_type,
            raw,
            spent,
            i,
        ),
        SpendInfoView::SweptCoin { path, input_value, address_type } => coin_can_be_signed(
            store.master_key@,
            path,
            input_value,
            address_type,
            raw,
            spent,
            i,
        ),
        SpendInfoView::FidelityBondCoin { index, input_value } => {
            let redeem = store.fidelity_bond@[index as int].redeem_script@;
            let digest = p2wsh_sighash(raw, i as usize, redeem, input_value);
            &&& index < store.fidelity_bond@.len()
            &&& signer matches Signer::Bond(Ok(secret))
            &&& digest is Some
            &&& ecdsa_signature(digest->Some_0, secret@) is Some
        },
        SpendInfoView::OutgoingSwapCoin { .. } => false,
        _ => signer matches Signer::SwapCoin(Ok(_)),
    }
}

/// A transaction whose every input can be signed is signed to the end.
pub proof fn law_signing_succeeds(
    store: WalletStore,
    infos: Seq<SpendInfoView>,
    signers: Seq<Signer>,
    before: TransactionView,
    after: TransactionView,
    result: Result<(), WalletError>,
    spent: Seq<TxOutView>,
)
    requires
        signing_outcome(store, infos, signers, before, after, result),
        infos.len() == before.input.len(),
        infos.len() <= usize::MAX,
        spent.len() == infos.len(),
        forall|j: int| 0 <= j < infos.len() ==> is_spent_output(store, #[trigger] infos[j], spent[j]),
        forall|j: int|
            0 <= j < infos.len() ==> can_be_signed(
                store,
                #[trigger] infos[j],
                signers[j],
                raw_encoding(raw_form(before)),
                spent,
                j,
            ),
    ensures
        result is Ok,
{
    let master = store.master_key@;
    let bonds = views(store.fidelity_bond@);
    let raw = raw_encoding(raw_form(before));
    assert forall|j: int| 0 <= j < infos.len() implies bond_exists(
        store.fidelity_bond@.len(),
        #[trigger] infos[j],
    ) by {
        assert(can_be_signed(store, infos[j], signers[j], raw, spent, j));
    }
    assert forall|j: int| 0 <= j < infos.len() implies prevout(
        master,
        bonds,
        #[trigger] infos[j],
    ) is Some by {
        assert(can_be_signed(store, infos[j], signers[j], raw, spent, j));
        lemma_can_be_signed_key(store, infos[j], signers[j], raw, spent, j);
    }
    lemma_spent_outputs(store, infos, before, spent);
    let context = signing_context(store, infos, before)->Some_0;
    assert forall|j: int| 0 <= j < infos.len() implies signable(
        context,
        j as usize,
        #[trigger] infos[j],
        signers[j],
    ) by {
        assert(can_be_signed(store, infos[j], signers[j], raw, spent, j));
        lemma_can_be_signed_key(store, infos[j], signers[j], raw, spent, j);
        if infos[j] is FidelityBondCoin {
            let index = infos[j]->FidelityBondCoin_index;
            assert(context.bonds[index as int] == store.fidelity_bond@[index as int]@);
        }
    }
    if result is Err {
        let e = result->Err_0;
        let n = choose|n: int| #[trigger]
            stops_at(context, infos, signers, n, e) && signed_up_to(
                context,
                infos,
                signers,
                n,
                after,
                before,
            );
        assert(signable(context, n as usize, infos[n], signers[n]));
    }
}

proof fn lemma_can_be_signed_key(
    store: WalletStore,
    info: SpendInfoView,
    signer: Signer,
    raw: Seq<u8>,
    spent: Seq<TxOutView>,
    i: int,
)
    requires
        can_be_signed(store, info, signer, raw, spent, i),
    ensures
        prevout(store.master_key@, views(store.fidelity_bond@), info) is Some,
        forall|context: SigningContext|
            context.raw == raw && context.prevouts == spent && context.master
                == store.master_key@ && context.bonds == views(store.fidelity_bond@)
                ==> #[trigger] signable(context, i as usize, info, signer),
{
    let master = store.master_key@;
    match info {
        SpendInfoView::SeedCoin { path, input_value, address_type } => {
            let secret = choose|secret: Seq<u8>| #[trigger]
                is_seed_secret(master, address_type, path, secret) && signs_with(
                    secret,
                    input_value,
                    address_type,
                    raw,
                    spent,
                    i,
                );
            lemma_seed_secret(master, address_type, path, secret);
        },
        SpendInfoView::SweptCoin { path, input_value, address_type } => {
            let secret = choose|secret: Seq<u8>| #[trigger]
                is_seed_secret(master, address_type, path, secret) && signs_with(
                    secret,
                    input_value,
                    address_type,
                    raw,
                    spent,
                    i,
                );
            lemma_seed_secret(master, address_type, path, secret);
        },
        SpendInfoView::FidelityBondCoin { index, input_value } => {
            assert(views(store.fidelity_bond@)[index as int] == store.fidelity_bond@[index as int]@);
        },
        _ => {},
    }
}

/// A received coin is asked to be spent whole: at its funding amount, to the script of the first output of
/// the transaction, at one satoshi per virtual byte. It is a legacy coin of the wallet whose two-of-two
/// script is the one that the input has, and no such coin stands before it.
pub proof fn law_received_coin_is_spent_whole(
    request: Option<SwapSigning>,
    store: WalletStore,
    redeem: Seq<u8>,
    tx: TransactionView,
)
    requires
        asks_to_spend(request, store, redeem, tx),
    ensures
        request is Some && request->Some_0 is Spend,
        request->Some_0->value == request->Some_0->Spend_coin.funding_amount,
        request->Some_0->script@ == tx.output[0].script_pubkey,
        request->Some_0->feerate == 1,
        request->Some_0->Spend_coin.protocol == ProtocolVersion::Legacy,
        exists|i: int|
            {
                &&& 0 <= i < store.incoming_swapcoins.entries@.len()
                &&& (#[trigger] store.incoming_swapcoins.entries@[i]).1@ == request->Some_0->Spend_coin@
                &&& store.incoming_swapcoins.entries@[i].1.my_pubkey is Some
                &&& store.incoming_swapcoins.entries@[i].1.other_pubkey is Some
                &&& multisig_script(
                    store.incoming_swapcoins.entries@[i].1.my_pubkey->Some_0@,
                    store.incoming_swapcoins.entries@[i].1.other_pubkey->Some_0@,
                ) == redeem
                &&& forall|j: int|
                    0 <= j < i && (#[trigger] store.incoming_swapcoins.entries@[j]).1.protocol == ProtocolVersion::Legacy
                        && store.incoming_swapcoins.entries@[j].1.my_pubkey is Some && store.incoming_swapcoins.entries@[j].1.other_pubkey is Some
                        ==> multisig_script(
                        store.incoming_swapcoins.entries@[j].1.my_pubkey->Some_0@,
                        store.incoming_swapcoins.entries@[j].1.other_pubkey->Some_0@,
                    ) != redeem
            },
{
    let coins = store.incoming_swapcoins.entries@;
    let i = choose|i: int|
        {
            &&& first_incoming(store.incoming_swapcoins, redeem, i)
            &&& request matches Some(SwapSigning::Spend { coin, value, script, feerate })
            &&& coin@ == (#[trigger] store.incoming_swapcoins.entries@[i]).1@
            &&& value == coin.funding_amount
            &&& script@ == tx.output[0].script_pubkey
            &&& feerate == SWAP_SPEND_FEERATE
        };
    assert(coins[i].1@.has_multisig(redeem));
    assert forall|j: int|
        0 <= j < i && (#[trigger] coins[j]).1.protocol == ProtocolVersion::Legacy
            && coins[j].1.my_pubkey is Some && coins[j].1.other_pubkey is Some implies multisig_script(
        coins[j].1.my_pubkey->Some_0@,
        coins[j].1.other_pubkey->Some_0@,
    ) != redeem by {
        assert(!coins[j].1@.has_multisig(redeem));
    }
}

/// A sent coin is asked to sign the very transaction. It is a legacy coin of the wallet whose two-of-two
/// script is the one that the input has, and no such coin stands before it.
pub proof fn law_sent_coin_signs_the_transaction(
    request: Option<SwapSigning>,
    store: WalletStore,
    redeem: Seq<u8>,
    tx: TransactionView,
)
    requires
        asks_to_recover(request, store, redeem, tx),
    ensures
        request is Some && request->Some_0 is Recovery,
        request->Some_0->tx@ == tx,
        request->Some_0->Recovery_coin.protocol == ProtocolVersion::Legacy,
        exists|i: int|
            {
                &&& 0 <= i < store.outgoing_swapcoins.entries@.len()
                &&& (#[trigger] store.outgoing_swapcoins.entries@[i]).1@ == request->Some_0->Recovery_coin@
                &&& store.outgoing_swapcoins.entries@[i].1.my_pubkey is Some
                &&& store.outgoing_swapcoins.entries@[i].1.other_pubkey is Some
                &&& multisig_script(
                    store.outgoing_swapcoins.entries@[i].1.my_pubkey->Some_0@,
                    store.outgoing_swapcoins.entries@[i].1.other_pubkey->Some_0@,
                ) == redeem
            },
{
    let coins = store.outgoing_swapcoins.entries@;
    let i = choose|i: int|
        {
            &&& first_outgoing(store.outgoing_swapcoins, redeem, i)
            &&& request matches Some(SwapSigning::Recovery { coin, tx: asked })
            &&& coin@ == (#[trigger] store.outgoing_swapcoins.entries@[i]).1@
            &&& asked@ == tx
        };
    assert(coins[i].1@.has_multisig(redeem));
}

/// Signing that fails says why, and leaves what was not signed as it was: where a key cannot be derived or the counts
/// differ, nothing was signed; otherwise it stopped at an input, the inputs from there on are untouched, and the
/// error is that of the coin, or the one that came in place of its signer.
pub proof fn law_failed_signing_leaves_the_rest(
    store: WalletStore,
    infos: Seq<SpendInfoView>,
    signers: Seq<Signer>,
    before: TransactionView,
    after: TransactionView,
    error: WalletError,
)
    requires
        signing_outcome(store, infos, signers, before, after, Err(error)),
    ensures
        signing_context(store, infos, before) is None ==> after == before && error
            == WalletError::Derivation,
        signing_context(store, infos, before) is Some && before.input.len() != infos.len()
            ==> after == before && error is General,
        signing_context(store, infos, before) is Some && before.input.len() == infos.len()
            ==> exists|n: int| 0 <= n < infos.len() && #[trigger] is_failure_at(
            infos,
            signers,
            before,
            after,
            error,
            n,
        ),
{
    if signing_context(store, infos, before) is Some && before.input.len() == infos.len() {
        let context = signing_context(store, infos, before)->Some_0;
        let n = choose|n: int| #[trigger]
            stops_at(context, infos, signers, n, error) && signed_up_to(
                context,
                infos,
                signers,
                n,
                after,
                before,
            );
        assert(is_failure_at(infos, signers, before, after, error, n));
    }
}

/// Whether signing failed at an input with the error that is its due, and left all inputs from there on untouched.
pub open spec fn is_failure_at(
    infos: Seq<SpendInfoView>,
    signers: Seq<Signer>,
    before: TransactionView,
    after: TransactionView,
    error: WalletError,
    n: int,
) -> bool {
    &&& after.output == before.output
    &&& after.input.len() == before.input.len()
    &&& forall|i: int|
        n <= i < before.input.len() ==> (#[trigger] after.input[i]) == before.input[i]
    &&& infos[n] is SeedCoin || infos[n] is SweptCoin ==> error == WalletError::Signing
    &&& infos[n] is OutgoingSwapCoin ==> error is General
    &&& infos[n] is FidelityBondCoin ==> (match signers[n]->Bond_0 {
        Ok(_) => error == WalletError::Signing,
        Err(e) => error == e,
    })
    &&& infos[n] is IncomingSwapCoin || infos[n] is HashlockContract || infos[n]
        is TimelockContract ==> signers[n]->SwapCoin_0 == Err::<Transaction, WalletError>(error)
}

} // verus!
