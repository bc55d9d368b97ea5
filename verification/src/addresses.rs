//! Deriving addresses from the wallet's own descriptors.
use vstd::prelude::*;
use vstd::string::*;
use bitcoin::bip32::{ChildNumber, Xpub};
use bitcoin::secp256k1::Secp256k1;
use crate::bytes::{option_view, views};
use crate::descriptor::chain_descriptor;
use crate::keys::result_view;
use crate::primitives::{AddressType, KeychainKind, Network, PublicKey};
use crate::text::{
    chars_between, chars_of, decimal, digit, digits_value, find_char, first_from,
    law_first_place_is_the_first, parse_u32, parsed_u32, starts_with, text_of,
};

verus! {

/// The 78-byte encoding of an extended public key in text, if `bitcoin` can read it.
pub uninterp spec fn parsed_xpub(text: Seq<char>) -> Option<Seq<u8>>;

/// Calls `bitcoin::bip32::Xpub::from_str`. The contract names the encoding of the key, or that the
/// text is none, as a function of the text.
#[verifier::external_body]
fn parse_xpub(text: &str) -> (xpub: Option<Vec<u8>>)
    ensures
        option_view(xpub) == parsed_xpub(text@),
{
    Some(text.parse::<Xpub>().ok()?.encode().to_vec())
}

/// The P2WPKH address of a compressed public key on a network, if the key is valid.
pub uninterp spec fn p2wpkh_address_of(key: Seq<u8>, network: Network) -> Option<Seq<char>>;

/// Calls `bitcoin::Address::p2wpkh` and displays it. The contract names the text as a function of
/// the key and the network.
#[verifier::external_body]
fn p2wpkh_address(key: &PublicKey, network: Network) -> (address: Option<String>)
    ensures
        option_view(address) == p2wpkh_address_of(key@, network),
{
    let network = match network {
        Network::Bitcoin => bitcoin::Network::Bitcoin,
        Network::Testnet => bitcoin::Network::Testnet,
        Network::Signet => bitcoin::Network::Signet,
        Network::Regtest => bitcoin::Network::Regtest,
    };
    let key = bitcoin::CompressedPublicKey::from_slice(&key.bytes).ok()?;
    Some(bitcoin::Address::p2wpkh(&key, network).to_string())
}

/// The P2TR address whose internal key is the given public key, if the key is valid.
pub uninterp spec fn p2tr_address_of(key: Seq<u8>, network: Network) -> Option<Seq<char>>;

/// Calls `bitcoin::Address::p2tr` without a script tree and displays it. The contract names the
/// text as a function of the key and the network.
#[verifier::external_body]
fn p2tr_address(key: &PublicKey, network: Network) -> (address: Option<String>)
    ensures
        option_view(address) == p2tr_address_of(key@, network),
{
    let network = match network {
        Network::Bitcoin => bitcoin::Network::Bitcoin,
        Network::Testnet => bitcoin::Network::Testnet,
        Network::Signet => bitcoin::Network::Signet,
        Network::Regtest => bitcoin::Network::Regtest,
    };
    let key = bitcoin::secp256k1::PublicKey::from_slice(&key.bytes).ok()?;
    let xonly = key.x_only_public_key().0;
    Some(bitcoin::Address::p2tr(&Secp256k1::new(), xonly, None, network).to_string())
}

/// The address of a public key, if the key is valid.
pub open spec fn address_of(key: Seq<u8>, address_type: AddressType, network: Network) -> Option<
    Seq<char>,
> {
    match address_type {
        AddressType::P2WPKH => p2wpkh_address_of(key, network),
        AddressType::P2TR => p2tr_address_of(key, network),
    }
}

/// The public key at `chain/index` below an encoded extended public key, or the text of the error
/// that `bitcoin` gives.
pub uninterp spec fn child_public_key(xpub: Seq<u8>, chain: u32, index: u32) -> Result<
    Seq<u8>,
    Seq<char>,
>;

/// Calls `bitcoin::bip32::Xpub::derive_pub` with two unhardened child numbers. The contract names
/// the compressed key, or the text of the error, as a function of the arguments, and claims that a
/// key that was derived has an address on every network.
#[verifier::external_body]
fn derive_child(xpub: &Vec<u8>, chain: u32, index: u32) -> (key: Result<PublicKey, String>)
    ensures
        result_view(key) == child_public_key(xpub@, chain, index),
        key matches Ok(k) ==> forall|t: AddressType, n: Network|
            #[trigger] address_of(k@, t, n) is Some,
{
    let xpub = Xpub::decode(xpub).map_err(|e| e.to_string())?;
    let path = [ChildNumber::Normal { index: chain }, ChildNumber::Normal { index }];
    let child = xpub.derive_pub(&Secp256k1::new(), &path).map_err(|e| e.to_string())?;
    Ok(PublicKey { bytes: child.public_key.serialize().to_vec() })
}

/// The last position before `n` that holds `c`, or -1 where there is none.
pub open spec fn last_before(s: Seq<char>, c: char, n: int) -> int
    decreases n,
{
    if n <= 0 {
        -1
    } else if s[n - 1] == c {
        n - 1
    } else {
        last_before(s, c, n - 1)
    }
}

fn find_last(s: &Vec<char>, c: char, n: usize) -> (at: Option<usize>)
    requires
        n <= s.len(),
    ensures
        match at {
            Some(i) => i == last_before(s@, c, n as int) && i < n,
            None => last_before(s@, c, n as int) == -1,
        },
{
    let mut i: usize = n;
    while i > 0
        invariant
            i <= n <= s.len(),
            last_before(s@, c, n as int) == last_before(s@, c, i as int),
        decreases i,
    {
        if s[i - 1] == c {
            return Some(i - 1);
        }
        i -= 1;
    }
    None
}

/// What a descriptor of the form `wpkh(<xpub>/<chain>/*)` or `tr(<xpub>/<chain>/*)` holds.
pub struct ChainKey {
    /// The address type.
    pub address_type: AddressType,
    /// The encoding of the extended public key.
    pub xpub: Vec<u8>,
    /// The chain.
    pub chain: u32,
}

/// A chain key as a mathematical value.
pub type ChainKeyView = (AddressType, Seq<u8>, u32);

impl View for ChainKey {
    type V = ChainKeyView;

    open spec fn view(&self) -> ChainKeyView {
        (self.address_type, self.xpub@, self.chain)
    }
}

/// The key and the chain in `<xpub>/<chain>/*`, or the text of the error.
pub open spec fn spec_chain_key(inner: Seq<char>, address_type: AddressType) -> Result<
    ChainKeyView,
    Seq<char>,
> {
    let b = last_before(inner, '/', inner.len() as int);
    let a = last_before(inner, '/', b);
    if a < 0 || inner.skip(b + 1) != "*"@ {
        Err("deriveaddresses: unexpected key form: "@ + inner)
    } else {
        match parsed_u32(inner.subrange(a + 1, b)) {
            None => Err("deriveaddresses: chain index parse"@),
            Some(chain) => match parsed_xpub(inner.take(a)) {
                None => Err("deriveaddresses: xpub parse"@),
                Some(xpub) => Ok((address_type, xpub, chain)),
            },
        }
    }
}

/// What a descriptor holds, its optional checksum left aside, or the text of the error.
pub open spec fn spec_read_descriptor(descriptor: Seq<char>) -> Result<ChainKeyView, Seq<char>> {
    let body = descriptor.take(first_from(descriptor, '#', 0));
    let wpkh = "wpkh("@.is_prefix_of(body);
    let tr = "tr("@.is_prefix_of(body);
    if !wpkh && !tr {
        Err("deriveaddresses: unsupported descriptor: "@ + descriptor)
    } else {
        let rest = if wpkh {
            body.skip(5)
        } else {
            body.skip(3)
        };
        if rest.len() == 0 || rest.last() != ')' {
            Err("deriveaddresses: missing closing `)`: "@ + descriptor)
        } else {
            spec_chain_key(
                rest.drop_last(),
                if wpkh {
                    AddressType::P2WPKH
                } else {
                    AddressType::P2TR
                },
            )
        }
    }
}

fn message(prefix: &str, text: &str) -> (message: String)
    ensures
        message@ == prefix@ + text@,
{
    let mut message = prefix.to_owned();
    message.append(text);
    message
}

fn read_chain_key(inner: &Vec<char>, address_type: AddressType) -> (key: Result<ChainKey, String>)
    ensures
        result_view(key) == spec_chain_key(inner@, address_type),
{
    let b = find_last(inner, '/', inner.len());
    let a = match b {
        Some(b) => find_last(inner, '/', b),
        None => None,
    };
    let (a, b) = match (a, b) {
        (Some(a), Some(b)) => (a, b),
        _ => {
            return Err(message("deriveaddresses: unexpected key form: ", text_of(inner).as_str()));
        },
    };
    proof {
        reveal_strlit("*");
        let tail = inner@.skip(b + 1);
        assert(tail == "*"@ <==> tail.len() == 1 && tail[0] == '*') by {
            if tail.len() == 1 && tail[0] == '*' {
                assert(tail =~= "*"@);
            }
        }
    }
    if inner.len() - b != 2 || inner[b + 1] != '*' {
        return Err(message("deriveaddresses: unexpected key form: ", text_of(inner).as_str()));
    }
    let chain = match parse_u32(&chars_between(inner, a + 1, b)) {
        Some(chain) => chain,
        None => {
            return Err("deriveaddresses: chain index parse".to_owned());
        },
    };
    let head = chars_between(inner, 0, a);
    assert(head@ =~= inner@.take(a as int));
    match parse_xpub(text_of(&head).as_str()) {
        Some(xpub) => Ok(ChainKey { address_type, xpub, chain }),
        None => Err("deriveaddresses: xpub parse".to_owned()),
    }
}

/// Reads a descriptor of one of the wallet's chains.
pub fn read_descriptor(descriptor: &str) -> (key: Result<ChainKey, String>)
    ensures
        result_view(key) == spec_read_descriptor(descriptor@),
{
    let text = chars_of(descriptor);
    let end = find_char(&text, '#', 0);
    let body = chars_between(&text, 0, end);
    assert(body@ =~= descriptor@.take(end as int));
    let body_text = text_of(&body);
    proof {
        reveal_strlit("wpkh(");
        reveal_strlit("tr(");
    }
    let wpkh = starts_with(body_text.as_str(), "wpkh(");
    let tr = starts_with(body_text.as_str(), "tr(");
    if !wpkh && !tr {
        return Err(message("deriveaddresses: unsupported descriptor: ", descriptor));
    }
    let from: usize = if wpkh {
        5
    } else {
        3
    };
    let ghost rest = body@.skip(from as int);
    if body.len() == from || body[body.len() - 1] != ')' {
        return Err(message("deriveaddresses: missing closing `)`: ", descriptor));
    }
    let inner = chars_between(&body, from, body.len() - 1);
    assert(inner@ =~= rest.drop_last());
    read_chain_key(
        &inner,
        if wpkh {
            AddressType::P2WPKH
        } else {
            AddressType::P2TR
        },
    )
}

/// The address at an index of a chain, or the text of the error.
pub open spec fn spec_address_at(key: ChainKeyView, index: u32, network: Network) -> Result<
    Seq<char>,
    Seq<char>,
> {
    match child_public_key(key.1, key.2, index) {
        Ok(child) => match address_of(child, key.0, network) {
            Some(address) => Ok(address),
            None => Err("deriveaddresses: derive: "@),
        },
        Err(e) => Err("deriveaddresses: derive: "@ + e),
    }
}

/// Derives the address at an index of a chain.
fn address_at(key: &ChainKey, index: u32, network: Network) -> (address: Result<String, String>)
    ensures
        result_view(address) == spec_address_at(key@, index, network),
{
    match derive_child(&key.xpub, key.chain, index) {
        Ok(child) => {
            let address = match key.address_type {
                AddressType::P2WPKH => p2wpkh_address(&child, network),
                AddressType::P2TR => p2tr_address(&child, network),
            };
            assert(address_of(child@, key.address_type, network) is Some);
            match address {
                Some(text) => Ok(text),
                None => Err("deriveaddresses: derive: ".to_owned()),
            }
        },
        Err(e) => Err(message("deriveaddresses: derive: ", e.as_str())),
    }
}

/// What deriving the addresses from `start` to `end` comes to: all of them in order, or the error
/// of the first that cannot be derived.
pub open spec fn derived_addresses(
    result: Result<Seq<Seq<char>>, Seq<char>>,
    descriptor: Seq<char>,
    start: u32,
    end: u32,
    network: Network,
) -> bool {
    match spec_read_descriptor(descriptor) {
        Err(e) => result == Err::<Seq<Seq<char>>, Seq<char>>(e),
        Ok(key) => match result {
            Ok(addresses) => addresses.len() == end - start + 1 && forall|i: int|
                0 <= i < addresses.len() ==> spec_address_at(key, (start + i) as u32, network)
                    == Ok::<Seq<char>, Seq<char>>(#[trigger] addresses[i]),
            Err(e) => exists|k: u32|
                {
                    &&& start <= k <= end
                    &&& #[trigger] spec_address_at(key, k, network) == Err::<
                        Seq<char>,
                        Seq<char>,
                    >(e)
                    &&& forall|j: u32|
                        start <= j < k ==> #[trigger] spec_address_at(key, j, network) is Ok
                },
        },
    }
}

/// Derives the addresses of a descriptor at the indices `start` to `end`. A descriptor that cannot be read
/// gives its error, whatever the indices.
pub fn derive_addresses_local(
    descriptor: &str,
    start: u32,
    end: u32,
    network: Network,
) -> (result: Result<Vec<String>, String>)
    requires
        spec_read_descriptor(descriptor@) is Ok ==> start <= end,
    ensures
        derived_addresses(
            match result {
                Ok(addresses) => Ok(views(addresses@)),
                Err(e) => Err(e@),
            },
            descriptor@,
            start,
            end,
            network,
        ),
{
    let key = match read_descriptor(descriptor) {
        Ok(key) => key,
        Err(e) => {
            return Err(e);
        },
    };
    let mut addresses: Vec<String> = Vec::new();
    let mut i: u32 = start;
    loop
        invariant
            spec_read_descriptor(descriptor@) == Ok::<ChainKeyView, Seq<char>>(key@),
            start <= i <= end,
            addresses.len() == i - start,
            forall|j: int|
                0 <= j < addresses.len() ==> spec_address_at(key@, (start + j) as u32, network)
                    == Ok::<Seq<char>, Seq<char>>((#[trigger] addresses@[j])@),
        decreases end - i,
    {
        match address_at(&key, i, network) {
            Ok(address) => {
                addresses.push(address);
            },
            Err(e) => {
                assert forall|j: u32| start <= j < i implies #[trigger] spec_address_at(
                    key@,
                    j,
                    network,
                ) is Ok by {
                    assert(spec_address_at(key@, (start + (j - start)) as u32, network) == Ok::<
                        Seq<char>,
                        Seq<char>,
                    >(addresses@[j - start]@));
                }
                return Err(e);
            },
        }
        if i == end {
            proof {
                assert forall|j: int| 0 <= j < views(addresses@).len() implies spec_address_at(
                    key@,
                    (start + j) as u32,
                    network,
                ) == Ok::<Seq<char>, Seq<char>>(#[trigger] views(addresses@)[j]) by {
                    assert(views(addresses@)[j] == addresses@[j]@);
                }
            }
            return Ok(addresses);
        }
        i += 1;
    }
}

proof fn lemma_first_hash(s: Seq<char>, i: int, n: int)
    requires
        0 <= i <= n < s.len(),
        forall|j: int| i <= j < n ==> s[j] != '#',
        s[n] == '#',
    ensures
        first_from(s, '#', i) == n,
    decreases n - i,
{
    if i < n {
        lemma_first_hash(s, i + 1, n);
    }
}

/// What stands between the brackets of a descriptor that the wallet writes.
spec fn key_part(xpub: Seq<char>, d: char) -> Seq<char> {
    xpub + seq!['/'] + seq![d] + seq!['/', '*']
}

proof fn lemma_chain_key_reads(xpub: Seq<char>, keychain: KeychainKind, address_type: AddressType)
    ensures
        spec_chain_key(key_part(xpub, digit(keychain.spec_index_num() as nat)), address_type)
            == match parsed_xpub(xpub) {
            Some(key) => Ok::<ChainKeyView, Seq<char>>(
                (address_type, key, keychain.spec_index_num()),
            ),
            None => Err("deriveaddresses: xpub parse"@),
        },
{
    reveal_strlit("*");
    let d = digit(keychain.spec_index_num() as nat);
    let len = xpub.len() as int;
    let inner = key_part(xpub, d);
    reveal_with_fuel(last_before, 3);
    assert(inner[len + 3] == '*' && inner[len + 2] == '/' && inner[len + 1] == d && inner[len]
        == '/');
    assert(last_before(inner, '/', inner.len() as int) == len + 2);
    assert(last_before(inner, '/', len + 2) == len);
    assert(inner.skip(len + 3) =~= "*"@);
    let digits = inner.subrange(len + 1, len + 2);
    assert(digits =~= seq![d]);
    reveal_with_fuel(digits_value, 3);
    assert(digits.drop_last() =~= Seq::<char>::empty());
    assert(inner.take(len) =~= xpub);
}

proof fn lemma_body_parts(
    prefix: Seq<char>,
    xpub: Seq<char>,
    keychain: KeychainKind,
    body: Seq<char>,
)
    requires
        body == prefix + xpub + "/"@ + decimal(keychain.spec_index_num() as nat) + "/*)"@,
        !xpub.contains('#'),
        !prefix.contains('#'),
    ensures
        body.take(prefix.len() as int) == prefix,
        body.skip(prefix.len() as int) == key_part(
            xpub,
            digit(keychain.spec_index_num() as nat),
        ).push(')'),
        forall|j: int| 0 <= j < body.len() ==> #[trigger] body[j] != '#',
{
    reveal_strlit("/");
    reveal_strlit("/*)");
    let d = digit(keychain.spec_index_num() as nat);
    let p = prefix.len() as int;
    let inner = key_part(xpub, d);
    assert(decimal(keychain.spec_index_num() as nat) =~= seq![d]);
    assert(body.take(p) =~= prefix);
    assert(body.skip(p) =~= inner.push(')'));
    assert forall|j: int| 0 <= j < body.len() implies #[trigger] body[j] != '#' by {
        if j < p {
            assert(body[j] == prefix[j]);
            assert(prefix.contains(prefix[j]));
        } else if j < p + xpub.len() {
            assert(body[j] == xpub[j - p]);
            assert(xpub.contains(xpub[j - p]));
        } else {
            assert(body[j] == inner.push(')')[j - p]);
        }
    }
}

proof fn lemma_before_hash(body: Seq<char>, sum: Seq<char>)
    requires
        forall|j: int| 0 <= j < body.len() ==> #[trigger] body[j] != '#',
    ensures
        (body + "#"@ + sum).take(first_from(body + "#"@ + sum, '#', 0)) == body,
{
    reveal_strlit("#");
    let whole = body + "#"@ + sum;
    assert(whole[body.len() as int] == '#');
    assert forall|j: int| 0 <= j < body.len() implies whole[j] != '#' by {
        assert(whole[j] == body[j]);
    }
    lemma_first_hash(whole, 0, body.len() as int);
    assert(whole.take(body.len() as int) =~= body);
}

/// A descriptor that the wallet writes for one of its chains is read back as the same address
/// type, key and chain, whatever checksum stands behind it.
pub proof fn law_wallet_descriptor_reads_back(
    xpub: Seq<char>,
    sum: Seq<char>,
    address_type: AddressType,
    keychain: KeychainKind,
)
    requires
        !xpub.contains('#'),
    ensures
        spec_read_descriptor(chain_descriptor(xpub, address_type, keychain) + "#"@ + sum)
            == match parsed_xpub(xpub) {
            Some(key) => Ok::<ChainKeyView, Seq<char>>(
                (address_type, key, keychain.spec_index_num()),
            ),
            None => Err("deriveaddresses: xpub parse"@),
        },
{
    reveal_strlit("wpkh(");
    reveal_strlit("tr(");
    let body = chain_descriptor(xpub, address_type, keychain);
    let inner = key_part(xpub, digit(keychain.spec_index_num() as nat));
    lemma_chain_key_reads(xpub, keychain, address_type);
    assert(inner.push(')').drop_last() =~= inner);
    match address_type {
        AddressType::P2WPKH => {
            lemma_body_parts("wpkh("@, xpub, keychain, body);
        },
        AddressType::P2TR => {
            lemma_body_parts("tr("@, xpub, keychain, body);
            assert(body[0] == body.take(3)[0]);
            if "wpkh("@.is_prefix_of(body) {
                assert(body[0] == body.take(5)[0]);
            }
        },
    }
    lemma_before_hash(body, sum);
}

/// The addresses that are derived for a descriptor of the wallet are those of the public keys of its chain, 0 for
/// receiving and 1 for change, from the first index to the last, of the type that the descriptor names.
pub proof fn law_derived_addresses_are_the_chains(
    xpub: Seq<char>,
    key: Seq<u8>,
    sum: Seq<char>,
    keychain: KeychainKind,
    addresses: Seq<Seq<char>>,
    start: u32,
    end: u32,
    network: Network,
    i: int,
)
    requires
        !xpub.contains('#'),
        parsed_xpub(xpub) == Some(key),
        start <= end,
        0 <= i <= end - start,
    ensures
        derived_addresses(
            Ok(addresses),
            chain_descriptor(xpub, AddressType::P2WPKH, keychain) + "#"@ + sum,
            start,
            end,
            network,
        ) ==> addresses.len() == end - start + 1 && child_public_key(
            key,
            if keychain == KeychainKind::External {
                0
            } else {
                1
            },
            (start + i) as u32,
        ) is Ok && p2wpkh_address_of(
            child_public_key(
                key,
                if keychain == KeychainKind::External {
                    0
                } else {
                    1
                },
                (start + i) as u32,
            )->Ok_0,
            network,
        ) == Some(addresses[i]),
        derived_addresses(
            Ok(addresses),
            chain_descriptor(xpub, AddressType::P2TR, keychain) + "#"@ + sum,
            start,
            end,
            network,
        ) ==> addresses.len() == end - start + 1 && child_public_key(
            key,
            if keychain == KeychainKind::External {
                0
            } else {
                1
            },
            (start + i) as u32,
        ) is Ok && p2tr_address_of(
            child_public_key(
                key,
                if keychain == KeychainKind::External {
                    0
                } else {
                    1
                },
                (start + i) as u32,
            )->Ok_0,
            network,
        ) == Some(addresses[i]),
{
    law_wallet_descriptor_reads_back(xpub, sum, AddressType::P2WPKH, keychain);
    law_wallet_descriptor_reads_back(xpub, sum, AddressType::P2TR, keychain);
    let w = chain_descriptor(xpub, AddressType::P2WPKH, keychain) + "#"@ + sum;
    let t = chain_descriptor(xpub, AddressType::P2TR, keychain) + "#"@ + sum;
    if derived_addresses(Ok(addresses), w, start, end, network) {
        assert(addresses[i] == addresses[i]);
        assert(spec_address_at(spec_read_descriptor(w)->Ok_0, (start + i) as u32, network) == Ok::<
            Seq<char>,
            Seq<char>,
        >(addresses[i]));
    }
    if derived_addresses(Ok(addresses), t, start, end, network) {
        assert(spec_address_at(spec_read_descriptor(t)->Ok_0, (start + i) as u32, network) == Ok::<
            Seq<char>,
            Seq<char>,
        >(addresses[i]));
    }
}

/// A descriptor that is neither for P2WPKH nor for P2TR addresses is refused.
pub proof fn law_other_descriptors_are_refused(descriptor: Seq<char>)
    requires
        !"wpkh("@.is_prefix_of(descriptor),
        !"tr("@.is_prefix_of(descriptor),
    ensures
        spec_read_descriptor(descriptor) is Err,
{
    let n = first_from(descriptor, '#', 0);
    law_first_place_is_the_first(descriptor, '#', 0);
    let body = descriptor.take(n);
    assert(body.is_prefix_of(descriptor));
    if "wpkh("@.is_prefix_of(body) {
        assert("wpkh("@ =~= descriptor.take("wpkh("@.len() as int));
    }
    if "tr("@.is_prefix_of(body) {
        assert("tr("@ =~= descriptor.take("tr("@.len() as int));
    }
}

} // verus!
