//! What a node's wallet has to be told to import.
use vstd::prelude::*;
use vstd::string::*;
use crate::backend::BlockchainBackend;
use crate::bytes::{option_view, views, ScriptBuf};
use crate::descriptor::{
    finished, multi_descriptor, raw_descriptor, sortedmulti_descriptor, descriptor_error, wallet_descriptor,
    write_multi_descriptor, write_raw_descriptor, write_sortedmulti_descriptor,
    write_wallet_descriptor,
};
use crate::error::WalletError;
use crate::keys::{
    key_fingerprint, p2wsh_bytes, public_key_bytes, public_key_of, random_secret,
};
use crate::multisig::{
    bytes_less, create_multisig_redeemscript, law_order_is_symmetric,
    law_redeem_script_names_both_keys, lemma_less_at, multisig_script, multisig_spk, ordered,
    redeemscript_to_scriptpubkey,
};
use crate::primitives::{AddressType, KeychainKind, Network, PublicKey, SecretKey, Txid};
use crate::store::BondView;
use crate::swapcoin::{IncomingSwapCoin, OutgoingSwapCoin};
use crate::text::{chars_of, hex};
use crate::wallet::{Wallet, ADDRESS_IMPORT_COUNT};

verus! {

/// The seconds that a node takes off the time from which it scans for imported descriptors.
pub const TIMESTAMP_WINDOW: u32 = 7200;

/// The descriptors of a wallet's chains for one address type.
pub struct ChainDescriptors {
    /// The descriptor of the receiving addresses.
    pub external: String,
    /// The descriptor of the change addresses.
    pub internal: String,
}

/// From when a node scans for a descriptor.
#[derive(Debug, Clone, Copy, PartialEq, Eq, Structural)]
pub enum Timestamp {
    /// From now on: nothing is scanned.
    Now,
    /// From a time on, in seconds since the Unix epoch.
    At(u32),
}

/// A request to import one descriptor.
#[derive(Debug)]
pub struct ImportRequest {
    /// From when to scan.
    pub timestamp: Timestamp,
    /// The descriptor.
    pub desc: String,
    /// The last index of a descriptor with a wildcard.
    pub range: Option<u32>,
    /// The label of a descriptor without a wildcard.
    pub label: Option<String>,
}

/// A request to import one descriptor, as a mathematical value.
pub struct ImportView {
    pub timestamp: Timestamp,
    pub desc: Seq<char>,
    pub range: Option<u32>,
    pub label: Option<Seq<char>>,
}

impl View for ImportRequest {
    type V = ImportView;

    open spec fn view(&self) -> ImportView {
        ImportView {
            timestamp: self.timestamp,
            desc: self.desc@,
            range: self.range,
            label: option_view(self.label),
        }
    }
}

/// Whether a descriptor has a wildcard for the index.
pub open spec fn has_wildcard(desc: Seq<char>) -> bool {
    exists|i: int| 0 <= i < desc.len() - 1 && #[trigger] wildcard_at(desc, i)
}

/// Whether a wildcard for the index begins at a position.
pub open spec fn wildcard_at(desc: Seq<char>, i: int) -> bool {
    desc[i] == '/' && desc[i + 1] == '*'
}

fn contains_wildcard(desc: &str) -> (found: bool)
    ensures
        found == has_wildcard(desc@),
{
    let text = chars_of(desc);
    let mut i: usize = 0;
    while i < text.len()
        invariant
            text@ == desc@,
            i <= text.len(),
            forall|j: int| 0 <= j < i && j < text.len() - 1 ==> !#[trigger] wildcard_at(desc@, j),
        decreases text.len() - i,
    {
        if text.len() - i >= 2 && text[i] == '/' && text[i + 1] == '*' {
            assert(wildcard_at(desc@, i as int));
            return true;
        }
        i += 1;
    }
    false
}

/// The request for a descriptor: one with a wildcard is imported up to the gap limit, another one
/// under a label.
pub open spec fn request_for(desc: Seq<char>, timestamp: Timestamp, label: Seq<char>) -> ImportView {
    if has_wildcard(desc) {
        ImportView { timestamp, desc, range: Some((ADDRESS_IMPORT_COUNT - 1) as u32), label: None }
    } else {
        ImportView { timestamp, desc, range: None, label: Some(label) }
    }
}

/// From when to scan, so that the node scans from `time` on.
pub open spec fn scan_from(time: Option<u32>) -> Timestamp {
    match time {
        Some(t) => Timestamp::At((t + TIMESTAMP_WINDOW) as u32),
        None => Timestamp::Now,
    }
}

/// Whether a chain has to be imported: its first or its last address is not watched yet.
pub open spec fn spec_needs_import(first: Option<bool>, last: Option<bool>) -> bool {
    first != Some(true) || last != Some(true)
}

/// Whether a chain has to be imported, by what a node knows of its first and its last address.
pub fn needs_import(first: Option<bool>, last: Option<bool>) -> (needed: bool)
    ensures
        needed == spec_needs_import(first, last),
{
    !first.unwrap_or(false) || !last.unwrap_or(false)
}

/// The descriptors of a swap coin: its two-of-two output, and its contract output.
pub open spec fn coin_descriptors(
    mine: Option<Seq<u8>>,
    other: Option<Seq<u8>>,
    redeem: Option<Seq<u8>>,
) -> Seq<Seq<char>> {
    (match (mine, other) {
        (Some(a), Some(b)) => seq![finished(sortedmulti_descriptor(b, a))->Some_0],
        _ => Seq::empty(),
    }) + (match redeem {
        Some(script) => seq![finished(raw_descriptor(p2wsh_bytes(script)))->Some_0],
        None => Seq::empty(),
    })
}

/// The descriptors of the received coins.
pub open spec fn incoming_descriptors(coins: Seq<(Txid, IncomingSwapCoin)>) -> Seq<Seq<char>>
    decreases coins.len(),
{
    if coins.len() == 0 {
        Seq::empty()
    } else {
        let c = coins.last().1@;
        incoming_descriptors(coins.drop_last()) + coin_descriptors(
            c.my_pubkey,
            c.other_pubkey,
            c.contract_redeemscript,
        )
    }
}

/// The descriptors of the sent coins.
pub open spec fn outgoing_descriptors(coins: Seq<(Txid, OutgoingSwapCoin)>) -> Seq<Seq<char>>
    decreases coins.len(),
{
    if coins.len() == 0 {
        Seq::empty()
    } else {
        let c = coins.last().1@;
        outgoing_descriptors(coins.drop_last()) + coin_descriptors(
            c.my_pubkey,
            c.other_pubkey,
            c.contract_redeemscript,
        )
    }
}

/// The descriptors of the fidelity bonds.
pub open spec fn bond_descriptors(bonds: Seq<BondView>) -> Seq<Seq<char>> {
    Seq::new(bonds.len(), |i: int| finished(raw_descriptor(bonds[i].script()))->Some_0)
}

fn push_coin_descriptors(
    list: &mut Vec<String>,
    mine: &Option<PublicKey>,
    other: &Option<PublicKey>,
    redeem: &Option<ScriptBuf>,
) -> (result: Result<(), WalletError>)
    ensures
        result is Ok,
        views(final(list)@) == views(old(list)@) + coin_descriptors(
            option_view(*mine),
            option_view(*other),
            option_view(*redeem),
        ),
{
    let ghost before = views(list@);
    let ghost mut added: Seq<Seq<char>> = Seq::empty();
    if let (Some(a), Some(b)) = (mine, other) {
        let descriptor = write_sortedmulti_descriptor(b, a)?;
        let ghost text = descriptor@;
        list.push(descriptor);
        proof {
            added = added.push(text);
            assert(views(list@) =~= before + added);
        }
    }
    if let Some(script) = redeem {
        let descriptor = write_raw_descriptor(&redeemscript_to_scriptpubkey(script))?;
        let ghost text = descriptor@;
        let ghost now = views(list@);
        list.push(descriptor);
        proof {
            assert(views(list@) =~= now.push(text));
            added = added.push(text);
        }
    }
    proof {
        assert(added =~= coin_descriptors(
            option_view(*mine),
            option_view(*other),
            option_view(*redeem),
        ));
        assert(views(list@) =~= before + added);
    }
    Ok(())
}

fn push_texts(list: &mut Vec<String>, texts: Vec<String>)
    ensures
        views(final(list)@) == views(old(list)@) + views(texts@),
{
    let ghost before = list@;
    let ghost tail = texts@;
    let mut texts = texts;
    list.append(&mut texts);
    assert(list@ =~= before + tail);
    assert(views(list@) =~= views(before) + views(tail));
}

impl<B: BlockchainBackend> Wallet<B> {
    /// The descriptors of the wallet's two chains for an address type.
    pub fn get_wallet_descriptors(&self, address_type: AddressType) -> (descriptors: Result<
        ChainDescriptors,
        WalletError,
    >)
        ensures
            match descriptors {
                Ok(d) => {
                    &&& wallet_descriptor(
                        self.store.master_key@,
                        address_type,
                        KeychainKind::External,
                    ) == Some(d.external@)
                    &&& wallet_descriptor(
                        self.store.master_key@,
                        address_type,
                        KeychainKind::Internal,
                    ) == Some(d.internal@)
                },
                Err(e) => e == descriptor_error(self.store.master_key@, address_type) && (
                wallet_descriptor(self.store.master_key@, address_type, KeychainKind::External)
                    is None || wallet_descriptor(
                    self.store.master_key@,
                    address_type,
                    KeychainKind::Internal,
                ) is None),
            },
    {
        let external = write_wallet_descriptor(
            &self.store.master_key,
            address_type,
            KeychainKind::External,
        )?;
        let internal = write_wallet_descriptor(
            &self.store.master_key,
            address_type,
            KeychainKind::Internal,
        )?;
        Ok(ChainDescriptors { external, internal })
    }

    /// The chains of an address type that a node has to import, by what it knows of the first and
    /// the last address of each: `external` and `internal` give whether the node watches them.
    pub fn get_unimported_wallet_desc(
        &self,
        descriptors: ChainDescriptors,
        external: (Option<bool>, Option<bool>),
        internal: (Option<bool>, Option<bool>),
    ) -> (unimported: Vec<String>)
        ensures
            views(unimported@) == (if spec_needs_import(external.0, external.1) {
                seq![descriptors.external@]
            } else {
                Seq::empty()
            }) + (if spec_needs_import(internal.0, internal.1) {
                seq![descriptors.internal@]
            } else {
                Seq::empty()
            }),
    {
        let mut unimported: Vec<String> = Vec::new();
        if needs_import(external.0, external.1) {
            unimported.push(descriptors.external);
        }
        let ghost first = views(unimported@);
        if needs_import(internal.0, internal.1) {
            unimported.push(descriptors.internal);
            assert(views(unimported@) =~= first.push(descriptors.internal@));
        }
        assert(views(unimported@) =~= (if spec_needs_import(external.0, external.1) {
            seq![descriptors.external@]
        } else {
            Seq::empty()
        }) + (if spec_needs_import(internal.0, internal.1) {
            seq![descriptors.internal@]
        } else {
            Seq::empty()
        }));
        unimported
    }

    /// Every descriptor that a node has to import: the chains of the wallet that it does not watch
    /// yet, the outputs of swap coins, and the fidelity bonds.
    pub fn descriptors_to_import(
        &self,
        unimported_p2wpkh: Vec<String>,
        unimported_p2tr: Vec<String>,
    ) -> (descriptors: Result<Vec<String>, WalletError>)
        ensures
            descriptors matches Ok(d) && views(d@) == views(unimported_p2wpkh@) + views(
                unimported_p2tr@,
            ) + incoming_descriptors(self.store.incoming_swapcoins.entries@)
                + outgoing_descriptors(self.store.outgoing_swapcoins.entries@) + bond_descriptors(
                views(self.store.fidelity_bond@),
            ),
    {
        let ghost chains = views(unimported_p2wpkh@) + views(unimported_p2tr@);
        let mut list: Vec<String> = Vec::new();
        push_texts(&mut list, unimported_p2wpkh);
        push_texts(&mut list, unimported_p2tr);
        assert(views(list@) =~= chains);
        let incoming = &self.store.incoming_swapcoins.entries;
        let mut i: usize = 0;
        assert(incoming@.take(0) =~= Seq::<(Txid, IncomingSwapCoin)>::empty());
        assert(chains + incoming_descriptors(incoming@.take(0)) =~= chains);
        while i < incoming.len()
            invariant
                incoming == self.store.incoming_swapcoins.entries,
                i <= incoming.len(),
                views(list@) == chains + incoming_descriptors(incoming@.take(i as int)),
            decreases incoming.len() - i,
        {
            let coin = &incoming[i].1;
            let ghost before = incoming_descriptors(incoming@.take(i as int));
            push_coin_descriptors(
                &mut list,
                &coin.my_pubkey,
                &coin.other_pubkey,
                &coin.contract_redeemscript,
            )?;
            proof {
                assert(incoming@.take(i + 1).drop_last() =~= incoming@.take(i as int));
                assert(views(list@) =~= chains + incoming_descriptors(incoming@.take(i + 1)));
            }
            i += 1;
        }
        assert(incoming@.take(i as int) =~= incoming@);
        let ghost with_incoming = chains + incoming_descriptors(incoming@);
        let outgoing = &self.store.outgoing_swapcoins.entries;
        let mut j: usize = 0;
        assert(outgoing@.take(0) =~= Seq::<(Txid, OutgoingSwapCoin)>::empty());
        assert(with_incoming + outgoing_descriptors(outgoing@.take(0)) =~= with_incoming);
        while j < outgoing.len()
            invariant
                outgoing == self.store.outgoing_swapcoins.entries,
                j <= outgoing.len(),
                views(list@) == with_incoming + outgoing_descriptors(outgoing@.take(j as int)),
            decreases outgoing.len() - j,
        {
            let coin = &outgoing[j].1;
            push_coin_descriptors(
                &mut list,
                &coin.my_pubkey,
                &coin.other_pubkey,
                &coin.contract_redeemscript,
            )?;
            proof {
                assert(outgoing@.take(j + 1).drop_last() =~= outgoing@.take(j as int));
                assert(views(list@) =~= with_incoming + outgoing_descriptors(
                    outgoing@.take(j + 1),
                ));
            }
            j += 1;
        }
        assert(outgoing@.take(j as int) =~= outgoing@);
        let ghost with_coins = with_incoming + outgoing_descriptors(outgoing@);
        let bonds = &self.store.fidelity_bond;
        let ghost last = bond_descriptors(views(bonds@));
        let mut k: usize = 0;
        assert(with_coins + last.take(0) =~= with_coins);
        while k < bonds.len()
            invariant
                bonds == self.store.fidelity_bond,
                last == bond_descriptors(views(bonds@)),
                k <= bonds.len(),
                views(list@) == with_coins + last.take(k as int),
            decreases bonds.len() - k,
        {
            let descriptor = write_raw_descriptor(&bonds[k].script_pub_key())?;
            let ghost text = descriptor@;
            let ghost before = views(list@);
            list.push(descriptor);
            proof {
                assert(views(list@) =~= before.push(text));
                assert(views(bonds@)[k as int] == bonds@[k as int]@);
                assert(last[k as int] == text);
                assert(last.take(k + 1) =~= last.take(k as int).push(text));
                assert(views(list@) =~= with_coins + last.take(k + 1));
            }
            k += 1;
        }
        proof {
            assert(last.take(k as int) =~= last);
            assert(with_coins + last =~= chains + incoming_descriptors(incoming@)
                + outgoing_descriptors(outgoing@) + last);
        }
        Ok(list)
    }

    /// The requests that import descriptors into a node's wallet: from the given time on, or without
    /// a scan, and under the given label or the wallet's own.
    pub fn import_descriptors(
        &self,
        descriptors_to_import: &Vec<String>,
        time: Option<u32>,
        address_label: Option<String>,
    ) -> (requests: Result<Vec<ImportRequest>, WalletError>)
        requires
            time matches Some(t) ==> t + TIMESTAMP_WINDOW <= u32::MAX,
        ensures
            match requests {
                Ok(list) => {
                    let label = match address_label {
                        Some(text) => Some(text@),
                        None => key_fingerprint(self.store.master_key@),
                    };
                    &&& label is Some
                    &&& list@.len() == descriptors_to_import@.len()
                    &&& forall|i: int|
                        0 <= i < list@.len() ==> (#[trigger] list@[i])@ == request_for(
                            descriptors_to_import@[i]@,
                            scan_from(time),
                            label->Some_0,
                        )
                },
                Err(e) => address_label is None && key_fingerprint(self.store.master_key@) is None
                    && e == WalletError::Derivation,
            },
    {
        let label = match address_label {
            Some(label) => label,
            None => match self.get_core_wallet_label() {
                Some(label) => label,
                None => {
                    return Err(WalletError::Derivation);
                },
            },
        };
        let timestamp = match time {
            Some(t) => Timestamp::At(t + TIMESTAMP_WINDOW),
            None => Timestamp::Now,
        };
        let mut requests: Vec<ImportRequest> = Vec::new();
        let mut i: usize = 0;
        while i < descriptors_to_import.len()
            invariant
                i <= descriptors_to_import.len(),
                requests.len() == i,
                timestamp == scan_from(time),
                forall|j: int|
                    0 <= j < i ==> (#[trigger] requests@[j])@ == request_for(
                        descriptors_to_import@[j]@,
                        timestamp,
                        label@,
                    ),
            decreases descriptors_to_import.len() - i,
        {
            let desc = descriptors_to_import[i].clone();
            if contains_wildcard(desc.as_str()) {
                requests.push(
                    ImportRequest {
                        timestamp,
                        desc,
                        range: Some(self.get_addrss_import_count() - 1),
                        label: None,
                    },
                );
            } else {
                requests.push(
                    ImportRequest { timestamp, desc, range: None, label: Some(label.clone()) },
                );
            }
            i += 1;
        }
        Ok(requests)
    }
}

/// The P2WSH address of a witness script on a network.
pub uninterp spec fn p2wsh_address_of(script: Seq<u8>, network: Network) -> Seq<char>;

/// Calls `bitcoin::Address::p2wsh` and displays it. The contract names the text as a function of the
/// script and the network.
#[verifier::external_body]
fn p2wsh_address(script: &ScriptBuf, network: Network) -> (address: String)
    ensures
        address@ == p2wsh_address_of(script@, network),
{
    let network = match network {
        Network::Bitcoin => bitcoin::Network::Bitcoin,
        Network::Testnet => bitcoin::Network::Testnet,
        Network::Signet => bitcoin::Network::Signet,
        Network::Regtest => bitcoin::Network::Regtest,
    };
    let script = bitcoin::ScriptBuf::from_bytes(script.bytes.clone());
    bitcoin::Address::p2wsh(&script, network).to_string()
}

/// A new two-of-two address for a swap, and what belongs to it.
pub struct CoinswapAddress {
    /// The address.
    pub address: String,
    /// The script that locks it.
    pub script_pubkey: ScriptBuf,
    /// The descriptor that a node has to import for it.
    pub descriptor: String,
    /// The wallet's private key.
    pub my_privkey: SecretKey,
}

/// Whether an address is the two-of-two address of the wallet's key and another one.
pub open spec fn is_coinswap_address(
    a: CoinswapAddress,
    mine: Seq<u8>,
    other: Seq<u8>,
    network: Network,
) -> bool {
    &&& a.address@ == p2wsh_address_of(multisig_script(mine, other), network)
    &&& a.script_pubkey@ == multisig_spk(mine, other)
    &&& finished(multi_descriptor(ordered(mine, other).0, ordered(mine, other).1)) == Some(
        a.descriptor@,
    )
}

/// Makes the two-of-two address of a private key of the wallet and another party's public key.
pub fn coinswap_address(my_privkey: SecretKey, other_pubkey: &PublicKey, network: Network) -> (made:
    Result<CoinswapAddress, WalletError>)
    ensures
        match made {
            Ok(a) => {
                &&& a.my_privkey == my_privkey
                &&& public_key_bytes(my_privkey@) is Some
                &&& is_coinswap_address(
                    a,
                    public_key_bytes(my_privkey@)->Some_0,
                    other_pubkey@,
                    network,
                )
            },
            Err(e) => public_key_bytes(my_privkey@) is None && e == WalletError::Derivation,
        },
{
    let mine = match public_key_of(&my_privkey) {
        Some(key) => key,
        None => {
            return Err(WalletError::Derivation);
        },
    };
    let redeem = create_multisig_redeemscript(&mine, other_pubkey);
    let address = p2wsh_address(&redeem, network);
    let script_pubkey = redeemscript_to_scriptpubkey(&redeem);
    let descriptor = if bytes_less(&mine.bytes, &other_pubkey.bytes) {
        write_multi_descriptor(&mine, other_pubkey)?
    } else {
        write_multi_descriptor(other_pubkey, &mine)?
    };
    Ok(CoinswapAddress { address, script_pubkey, descriptor, my_privkey })
}

impl<B: BlockchainBackend> Wallet<B> {
    /// Makes a new two-of-two address with another party's public key, drawing the wallet's private
    /// key, and the request that imports it into a node's wallet.
    pub fn create_and_import_coinswap_address(&self, other_pubkey: &PublicKey) -> (made: Result<
        (CoinswapAddress, Vec<ImportRequest>),
        WalletError,
    >)
        ensures
            match made {
                Ok((a, requests)) => {
                    &&& public_key_bytes(a.my_privkey@) is Some
                    &&& is_coinswap_address(
                        a,
                        public_key_bytes(a.my_privkey@)->Some_0,
                        other_pubkey@,
                        self.store.network,
                    )
                    &&& requests@.len() == 1
                    &&& key_fingerprint(self.store.master_key@) is Some
                    &&& requests@[0]@ == request_for(
                        a.descriptor@,
                        Timestamp::Now,
                        key_fingerprint(self.store.master_key@)->Some_0,
                    )
                },
                Err(e) => key_fingerprint(self.store.master_key@) is None && e
                    == WalletError::Derivation,
            },
    {
        let made = coinswap_address(random_secret(), other_pubkey, self.store.network)?;
        let mut list: Vec<String> = Vec::new();
        list.push(made.descriptor.clone());
        let requests = self.import_descriptors(&list, None, None)?;
        Ok((made, requests))
    }

    /// Has the backend watch a two-of-two address, once it is imported.
    pub fn watch_coinswap_address(&mut self, made: &CoinswapAddress)
        requires
            old(self).well_formed(),
        ensures
            final(self).well_formed(),
            final(self).store == old(self).store,
            final(self).rpc.privacy() == old(self).rpc.privacy(),
            final(self).rpc.rest() == old(self).rpc.rest(),
            final(self).rpc.local() == (if B::spec_is_electrum() {
                old(self).rpc.local().watch(made.script_pubkey@, None)
            } else {
                old(self).rpc.local()
            }),
    {
        self.rpc.watch_script(&made.script_pubkey, None);
    }
}

/// The descriptor of a two-of-two address names its keys in the order of its redeem script, so that
/// descriptor and address cannot disagree; and both parties make the same address.
pub proof fn law_coinswap_address_is_shared(
    a: CoinswapAddress,
    b: CoinswapAddress,
    mine: Seq<u8>,
    other: Seq<u8>,
    network: Network,
)
    requires
        is_coinswap_address(a, mine, other, network),
        is_coinswap_address(b, other, mine, network),
    ensures
        a.address@ == b.address@,
        a.script_pubkey@ == b.script_pubkey@,
        a.descriptor@ == b.descriptor@,
{
    law_order_is_symmetric(mine, other);
}

/// A descriptor with a wildcard is imported for the first 500 indices, and without a label; any other is imported
/// as it stands, under the label. Both are scanned for from the given time on.
pub proof fn law_request_asks_for_the_descriptor(
    before: Seq<char>,
    after: Seq<char>,
    timestamp: Timestamp,
    label: Seq<char>,
)
    ensures
        request_for(before + seq!['/', '*'] + after, timestamp, label) == (ImportView {
            timestamp,
            desc: before + seq!['/', '*'] + after,
            range: Some(499u32),
            label: None,
        }),
        !before.contains('*') ==> request_for(before, timestamp, label) == (ImportView {
            timestamp,
            desc: before,
            range: None,
            label: Some(label),
        }),
{
    let whole = before + seq!['/', '*'] + after;
    assert(wildcard_at(whole, before.len() as int));
    if has_wildcard(before) {
        let i = choose|i: int| 0 <= i < before.len() - 1 && #[trigger] wildcard_at(before, i);
        assert(before.contains(before[i + 1]));
    }
}

/// A node scans two hours before the time that it is given, so that two hours are added to the time from which
/// it shall scan. Without a time it does not scan.
pub proof fn law_scan_begins_at_the_time(time: u32)
    ensures
        time + 7200 <= u32::MAX ==> scan_from(Some(time)) == Timestamp::At((time + 7200) as u32),
        scan_from(None) == Timestamp::Now,
{
}

/// A chain is left out of an import exactly where the node watches its first and its last address.
pub proof fn law_watched_chain_is_not_imported(first: Option<bool>, last: Option<bool>)
    ensures
        first == Some(true) && last == Some(true) ==> !spec_needs_import(first, last),
        first is None || last is None ==> spec_needs_import(first, last),
        first == Some(false) || last == Some(false) ==> spec_needs_import(first, last),
{
}

/// A node is told of both outputs of a coin that the wallet received: of the two-of-two output of its keys, and
/// of the output of its contract.
pub proof fn law_received_coin_is_imported(
    coins: Seq<(Txid, IncomingSwapCoin)>,
    txid: Txid,
    coin: IncomingSwapCoin,
    multisig: Seq<char>,
    contract: Seq<char>,
)
    ensures
        incoming_descriptors(Seq::<(Txid, IncomingSwapCoin)>::empty()).len() == 0,
        coin.my_pubkey is Some && coin.other_pubkey is Some && coin.contract_redeemscript is Some
            && finished(
            "wsh(sortedmulti(2,"@ + hex(coin.other_pubkey->Some_0@) + ","@ + hex(
                coin.my_pubkey->Some_0@,
            ) + "))"@,
        ) == Some(multisig) && finished(
            "raw("@ + hex(p2wsh_bytes(coin.contract_redeemscript->Some_0@)) + ")"@,
        ) == Some(contract) ==> incoming_descriptors(coins.push((txid, coin)))
            == incoming_descriptors(coins).push(multisig).push(contract),
{
    assert(coins.push((txid, coin)).drop_last() =~= coins);
    assert(incoming_descriptors(coins) + (seq![multisig] + seq![contract])
        =~= incoming_descriptors(coins).push(multisig).push(contract));
}

/// A node is told of both outputs of a coin that the wallet sent.
pub proof fn law_sent_coin_is_imported(
    coins: Seq<(Txid, OutgoingSwapCoin)>,
    txid: Txid,
    coin: OutgoingSwapCoin,
    multisig: Seq<char>,
    contract: Seq<char>,
)
    ensures
        outgoing_descriptors(Seq::<(Txid, OutgoingSwapCoin)>::empty()).len() == 0,
        coin.my_pubkey is Some && coin.other_pubkey is Some && coin.contract_redeemscript is Some
            && finished(
            "wsh(sortedmulti(2,"@ + hex(coin.other_pubkey->Some_0@) + ","@ + hex(
                coin.my_pubkey->Some_0@,
            ) + "))"@,
        ) == Some(multisig) && finished(
            "raw("@ + hex(p2wsh_bytes(coin.contract_redeemscript->Some_0@)) + ")"@,
        ) == Some(contract) ==> outgoing_descriptors(coins.push((txid, coin)))
            == outgoing_descriptors(coins).push(multisig).push(contract),
{
    assert(coins.push((txid, coin)).drop_last() =~= coins);
    assert(outgoing_descriptors(coins) + (seq![multisig] + seq![contract])
        =~= outgoing_descriptors(coins).push(multisig).push(contract));
}

/// A node is told of the output of every fidelity bond.
pub proof fn law_bonds_are_imported(bonds: Seq<BondView>, i: int, text: Seq<char>)
    requires
        0 <= i < bonds.len(),
        finished("raw("@ + hex(p2wsh_bytes(bonds[i].redeem_script)) + ")"@) == Some(text),
    ensures
        bond_descriptors(bonds).len() == bonds.len(),
        bond_descriptors(bonds)[i] == text,
{
}

/// The address, the locking script and the descriptor of a swap all stand for the same two-of-two redeem script,
/// which names the lesser key first.
pub proof fn law_coinswap_address_asks_for_both_keys(
    a: CoinswapAddress,
    less: Seq<u8>,
    greater: Seq<u8>,
    at: int,
    network: Network,
)
    requires
        is_coinswap_address(a, less, greater, network) || is_coinswap_address(
            a,
            greater,
            less,
            network,
        ),
        0 <= at < less.len(),
        at < greater.len(),
        less.take(at) == greater.take(at),
        less[at] < greater[at],
    ensures
        ({
            let script = seq![0x52u8, 0x21u8] + less + seq![0x21u8] + greater + seq![
                0x52u8,
                0xaeu8,
            ];
            &&& a.address@ == p2wsh_address_of(script, network)
            &&& a.script_pubkey@ == p2wsh_bytes(script)
            &&& finished("wsh(multi(2,"@ + hex(less) + ","@ + hex(greater) + "))"@) == Some(
                a.descriptor@,
            )
        }),
{
    law_redeem_script_names_both_keys(less, greater, at);
    law_order_is_symmetric(less, greater);
    assert forall|j: int| 0 <= j < at implies less[j] == greater[j] by {
        assert(less.take(at)[j] == less[j]);
        assert(greater.take(at)[j] == greater[j]);
    }
    lemma_less_at(less, greater, 0, at);
}

} // verus!
