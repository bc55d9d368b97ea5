//! Output descriptors: writing the wallet's own, and reading what backends and callers give.
use vstd::prelude::*;
use vstd::string::*;
use crate::bytes::ScriptBuf;
use crate::checksum::{checksum, compute_checksum, descriptor_text, input_charset};
use crate::error::WalletError;
use crate::keys::{account_key, derive_account, xpub_display, xpub_text, Xpriv};
use crate::primitives::{AddressType, KeychainKind, PublicKey};
use crate::text::{
    chars_between, chars_of, decimal, decimal_text, find_char, first_from, hex, hex_digit, hex_text,
    parse_i32, parse_u32, parsed_i32, parsed_u32, starts_with, text_of,
};

verus! {

/// A descriptor with its checksum, if a descriptor may hold its characters.
pub open spec fn finished(body: Seq<char>) -> Option<Seq<char>> {
    if descriptor_text(body) {
        Some(body + "#"@ + checksum(body))
    } else {
        None
    }
}

/// Puts the checksum behind a descriptor.
pub fn finish_descriptor(body: String) -> (descriptor: Result<String, WalletError>)
    ensures
        match descriptor {
            Ok(d) => finished(body@) == Some(d@),
            Err(e) => finished(body@) is None && e == WalletError::InvalidDescriptor,
        },
{
    let sum = compute_checksum(body.as_str())?;
    let mut descriptor = body;
    descriptor.append("#");
    descriptor.append(sum.as_str());
    Ok(descriptor)
}

/// What a backend tells of the place of an output in the wallet: the fingerprint of the account
/// key, the chain, and the index on it.
pub struct HdPath {
    /// The fingerprint.
    pub fingerprint: String,
    /// The chain.
    pub keychain_idx: u32,
    /// The index.
    pub index: i32,
}

/// The key origin of a descriptor: what stands between its first `[` and its first `]`.
pub open spec fn key_origin(descriptor: Seq<char>) -> Option<Seq<char>> {
    let from = first_from(descriptor, '[', 0);
    let to = first_from(descriptor, ']', 0);
    if from < descriptor.len() && to < descriptor.len() && from < to {
        Some(descriptor.subrange(from + 1, to))
    } else {
        None
    }
}

/// The three parts of a text with exactly two slashes.
pub open spec fn three_parts(s: Seq<char>) -> Option<(Seq<char>, Seq<char>, Seq<char>)> {
    let a = first_from(s, '/', 0);
    let b = first_from(s, '/', a + 1);
    if a < s.len() && b < s.len() && first_from(s, '/', b + 1) == s.len() {
        Some((s.subrange(0, a), s.subrange(a + 1, b), s.subrange(b + 1, s.len() as int)))
    } else {
        None
    }
}

/// The place that a descriptor gives, if its key origin has the form
/// `fingerprint/chain/index`.
pub open spec fn spec_hd_path(descriptor: Seq<char>) -> Option<(Seq<char>, u32, i32)> {
    match key_origin(descriptor) {
        Some(origin) => match three_parts(origin) {
            Some(parts) => match (parsed_u32(parts.1), parsed_i32(parts.2)) {
                (Some(chain), Some(index)) => Some((parts.0, chain, index)),
                _ => None,
            },
            None => None,
        },
        None => None,
    }
}

/// Reads the place of an output in the wallet from its descriptor.
pub fn get_hd_path_from_descriptor(descriptor: &str) -> (path: Option<HdPath>)
    ensures
        match path {
            Some(p) => spec_hd_path(descriptor@) == Some((p.fingerprint@, p.keychain_idx, p.index)),
            None => spec_hd_path(descriptor@) is None,
        },
{
    let text = chars_of(descriptor);
    let from = find_char(&text, '[', 0);
    let to = find_char(&text, ']', 0);
    if from >= text.len() || to >= text.len() || from >= to {
        return None;
    }
    let origin = chars_between(&text, from + 1, to);
    let a = find_char(&origin, '/', 0);
    if a >= origin.len() {
        return None;
    }
    let b = find_char(&origin, '/', a + 1);
    if b >= origin.len() {
        return None;
    }
    let c = find_char(&origin, '/', b + 1);
    if c < origin.len() {
        return None;
    }
    let first = chars_between(&origin, 0, a);
    let second = chars_between(&origin, a + 1, b);
    let third = chars_between(&origin, b + 1, origin.len());
    match (parse_u32(&second), parse_i32(&third)) {
        (Some(keychain_idx), Some(index)) => Some(
            HdPath { fingerprint: text_of(&first), keychain_idx, index },
        ),
        _ => None,
    }
}

/// The address type that a descriptor stands for: Taproot where it begins with `tr(`.
pub open spec fn spec_descriptor_type(descriptor: Seq<char>) -> AddressType {
    if "tr("@.is_prefix_of(descriptor) {
        AddressType::P2TR
    } else {
        AddressType::P2WPKH
    }
}

/// The address type that a descriptor stands for.
pub fn descriptor_type(descriptor: &str) -> (address_type: AddressType)
    ensures
        address_type == spec_descriptor_type(descriptor@),
{
    if starts_with(descriptor, "tr(") {
        AddressType::P2TR
    } else {
        AddressType::P2WPKH
    }
}

/// The descriptor of a chain of the wallet, without its checksum: the extended public key of the
/// account, the chain, and a wildcard for the index.
pub open spec fn chain_descriptor(
    xpub: Seq<char>,
    address_type: AddressType,
    keychain: KeychainKind,
) -> Seq<char> {
    (match address_type {
        AddressType::P2WPKH => "wpkh("@,
        AddressType::P2TR => "tr("@,
    }) + xpub + "/"@ + decimal(keychain.spec_index_num() as nat) + "/*)"@
}

/// The descriptor of a chain of a wallet with the given master key, if there is one.
pub open spec fn wallet_descriptor(
    master: Seq<u8>,
    address_type: AddressType,
    keychain: KeychainKind,
) -> Option<Seq<char>> {
    match account_key(master, address_type) {
        Some(account) => match xpub_display(account) {
            Some(xpub) => finished(chain_descriptor(xpub, address_type, keychain)),
            None => None,
        },
        None => None,
    }
}

/// The error that a descriptor gives that cannot be written: its keys cannot be derived, or its text
/// holds a character that has no place in a descriptor.
pub open spec fn descriptor_error(master: Seq<u8>, address_type: AddressType) -> WalletError {
    match account_key(master, address_type) {
        Some(account) => if xpub_display(account) is None {
            WalletError::Derivation
        } else {
            WalletError::InvalidDescriptor
        },
        None => WalletError::Derivation,
    }
}

/// Writes the descriptor of a chain of the wallet.
pub fn write_wallet_descriptor(
    master: &Xpriv,
    address_type: AddressType,
    keychain: KeychainKind,
) -> (descriptor: Result<String, WalletError>)
    ensures
        match descriptor {
            Ok(d) => wallet_descriptor(master@, address_type, keychain) == Some(d@),
            Err(e) => wallet_descriptor(master@, address_type, keychain) is None && e
                == descriptor_error(master@, address_type),
        },
{
    let account = derive_account(master, address_type)?;
    let xpub = match xpub_text(&account) {
        Some(xpub) => xpub,
        None => {
            return Err(WalletError::Derivation);
        },
    };
    let mut body = match address_type {
        AddressType::P2WPKH => "wpkh(".to_owned(),
        AddressType::P2TR => "tr(".to_owned(),
    };
    body.append(xpub.as_str());
    body.append("/");
    body.append(decimal_text(keychain.index_num() as u64).as_str());
    body.append("/*)");
    finish_descriptor(body)
}

/// The descriptor of a two-of-two output, without its checksum.
pub open spec fn sortedmulti_descriptor(other: Seq<u8>, mine: Seq<u8>) -> Seq<char> {
    "wsh(sortedmulti(2,"@ + hex(other) + ","@ + hex(mine) + "))"@
}

/// Writes the descriptor of a two-of-two output.
pub fn write_sortedmulti_descriptor(other: &PublicKey, mine: &PublicKey) -> (descriptor: Result<
    String,
    WalletError,
>)
    ensures
        descriptor matches Ok(d) && finished(sortedmulti_descriptor(other@, mine@)) == Some(d@),
{
    proof {
        law_sortedmulti_descriptor_is_valid(other@, mine@);
    }
    let mut body = "wsh(sortedmulti(2,".to_owned();
    body.append(hex_text(&other.bytes).as_str());
    body.append(",");
    body.append(hex_text(&mine.bytes).as_str());
    body.append("))");
    finish_descriptor(body)
}

/// The descriptor of a two-of-two output whose keys stand in the given order, without its
/// checksum.
pub open spec fn multi_descriptor(first: Seq<u8>, second: Seq<u8>) -> Seq<char> {
    "wsh(multi(2,"@ + hex(first) + ","@ + hex(second) + "))"@
}

/// Writes the descriptor of a two-of-two output whose keys stand in the given order.
pub fn write_multi_descriptor(first: &PublicKey, second: &PublicKey) -> (descriptor: Result<
    String,
    WalletError,
>)
    ensures
        descriptor matches Ok(d) && finished(multi_descriptor(first@, second@)) == Some(d@),
{
    proof {
        law_multi_descriptor_is_valid(first@, second@);
    }
    let mut body = "wsh(multi(2,".to_owned();
    body.append(hex_text(&first.bytes).as_str());
    body.append(",");
    body.append(hex_text(&second.bytes).as_str());
    body.append("))");
    finish_descriptor(body)
}

/// The descriptor of one script, without its checksum.
pub open spec fn raw_descriptor(script: Seq<u8>) -> Seq<char> {
    "raw("@ + hex(script) + ")"@
}

/// Writes the descriptor of one script.
pub fn write_raw_descriptor(script: &ScriptBuf) -> (descriptor: Result<String, WalletError>)
    ensures
        descriptor matches Ok(d) && finished(raw_descriptor(script@)) == Some(d@),
{
    proof {
        law_raw_descriptor_is_valid(script@);
    }
    let mut body = "raw(".to_owned();
    body.append(hex_text(&script.bytes).as_str());
    body.append(")");
    finish_descriptor(body)
}

proof fn lemma_charset_letters()
    ensures
        forall|c: char| '0' <= c && c <= '9' ==> #[trigger] input_charset().contains(c),
        forall|c: char| 'a' <= c && c <= 'z' ==> #[trigger] input_charset().contains(c),
        input_charset().contains('('),
        input_charset().contains(')'),
        input_charset().contains(','),
{
    reveal_strlit(
        "0123456789()[],'/*abcdefgh@:$%{}IJKLMNOPQRSTUVWXYZ&+-.;<=>?!^_|~ijklmnopqrstuvwxyzABCDEFGH`#\"\\ ",
    );
    let set = input_charset();
    assert(set[10] == '(' && set[11] == ')' && set[14] == ',');
    assert forall|c: char| '0' <= c && c <= '9' implies #[trigger] set.contains(c) by {
        assert(set[c as int - 48] == c);
    }
    assert forall|c: char| 'a' <= c && c <= 'z' implies #[trigger] set.contains(c) by {
        if c <= 'h' {
            assert(set[c as int - 97 + 18] == c);
        } else {
            assert(set[c as int - 105 + 64] == c);
        }
    }
}

proof fn lemma_hex_is_descriptor_text(bytes: Seq<u8>)
    ensures
        descriptor_text(hex(bytes)),
{
    lemma_charset_letters();
    assert forall|i: int| 0 <= i < hex(bytes).len() implies input_charset().contains(
        #[trigger] hex(bytes)[i],
    ) by {
        let d = if i % 2 == 0 {
            bytes[i / 2] / 16
        } else {
            bytes[i / 2] % 16
        };
        assert(d < 16);
        assert(hex(bytes)[i] == hex_digit(d as nat));
    }
}

/// The descriptor of one script can always be finished.
pub proof fn law_raw_descriptor_is_valid(script: Seq<u8>)
    ensures
        finished(raw_descriptor(script)) is Some,
{
    lemma_charset_letters();
    lemma_hex_is_descriptor_text(script);
    reveal_strlit("raw(");
    reveal_strlit(")");
    let body = raw_descriptor(script);
    assert forall|i: int| 0 <= i < body.len() implies input_charset().contains(
        #[trigger] body[i],
    ) by {
        if 4 <= i < 4 + hex(script).len() {
            assert(body[i] == hex(script)[i - 4]);
        }
    }
}

/// The descriptor of a two-of-two output can always be finished.
pub proof fn law_sortedmulti_descriptor_is_valid(other: Seq<u8>, mine: Seq<u8>)
    ensures
        finished(sortedmulti_descriptor(other, mine)) is Some,
{
    lemma_charset_letters();
    lemma_hex_is_descriptor_text(other);
    lemma_hex_is_descriptor_text(mine);
    reveal_strlit("wsh(sortedmulti(2,");
    reveal_strlit(",");
    reveal_strlit("))");
    let body = sortedmulti_descriptor(other, mine);
    let n = 18 + hex(other).len();
    assert forall|i: int| 0 <= i < body.len() implies input_charset().contains(
        #[trigger] body[i],
    ) by {
        if 18 <= i < n {
            assert(body[i] == hex(other)[i - 18]);
        } else if n < i < n + 1 + hex(mine).len() {
            assert(body[i] == hex(mine)[i - n - 1]);
        }
    }
}

/// The descriptor of a two-of-two output with ordered keys can always be finished.
pub proof fn law_multi_descriptor_is_valid(first: Seq<u8>, second: Seq<u8>)
    ensures
        finished(multi_descriptor(first, second)) is Some,
{
    lemma_charset_letters();
    lemma_hex_is_descriptor_text(first);
    lemma_hex_is_descriptor_text(second);
    reveal_strlit("wsh(multi(2,");
    reveal_strlit(",");
    reveal_strlit("))");
    let body = multi_descriptor(first, second);
    let n = 12 + hex(first).len();
    assert forall|i: int| 0 <= i < body.len() implies input_charset().contains(
        #[trigger] body[i],
    ) by {
        if 12 <= i < n {
            assert(body[i] == hex(first)[i - 12]);
        } else if n < i < n + 1 + hex(second).len() {
            assert(body[i] == hex(second)[i - n - 1]);
        }
    }
}

/// A descriptor is finished with a hash sign and eight characters of the checksum's alphabet, and is kept as it
/// is before them. It can be exactly where each of its characters may stand in a descriptor.
pub proof fn law_finished_descriptor_keeps_its_text(body: Seq<char>)
    ensures
        finished(body) is Some <==> forall|i: int|
            0 <= i < body.len() ==> input_charset().contains(#[trigger] body[i]),
        finished(body) matches Some(d) ==> d.len() == body.len() + 9 && d.take(body.len() as int)
            == body && d[body.len() as int] == '#' && d.skip(body.len() as int + 1) == checksum(body),
{
    reveal_strlit("#");
    if finished(body) is Some {
        let d = finished(body)->Some_0;
        assert(d.take(body.len() as int) =~= body);
        assert(d.skip(body.len() as int + 1) =~= checksum(body));
    }
}

proof fn lemma_first_is(s: Seq<char>, c: char, from: int, at: int)
    requires
        0 <= from <= at < s.len(),
        forall|j: int| from <= j < at ==> s[j] != c,
        s[at] == c,
    ensures
        first_from(s, c, from) == at,
    decreases at - from,
{
    if from < at {
        lemma_first_is(s, c, from + 1, at);
    }
}

proof fn lemma_first_is_none(s: Seq<char>, c: char, from: int)
    requires
        0 <= from <= s.len(),
        forall|j: int| from <= j < s.len() ==> s[j] != c,
    ensures
        first_from(s, c, from) == s.len(),
    decreases s.len() - from,
{
    if from < s.len() {
        lemma_first_is_none(s, c, from + 1);
    }
}

/// The place of an output is read from a descriptor whose key origin writes the fingerprint, the chain and the
/// index, whatever stands before and behind it.
#[verifier::spinoff_prover]
#[verifier::rlimit(60)]
pub proof fn law_written_place_is_read(
    before: Seq<char>,
    fingerprint: Seq<char>,
    chain: Seq<char>,
    index: Seq<char>,
    after: Seq<char>,
)
    requires
        !before.contains('['),
        !before.contains(']'),
        !fingerprint.contains('/'),
        !fingerprint.contains(']'),
        !chain.contains('/'),
        !chain.contains(']'),
        !index.contains('/'),
        !index.contains(']'),
    ensures
        spec_hd_path(
            before + seq!['['] + (fingerprint + seq!['/'] + chain + seq!['/'] + index) + seq![']']
                + after,
        ) == (if parsed_u32(chain) is Some && parsed_i32(index) is Some {
            Some((fingerprint, parsed_u32(chain)->Some_0, parsed_i32(index)->Some_0))
        } else {
            None::<(Seq<char>, u32, i32)>
        }),
{
    let origin = fingerprint + seq!['/'] + chain + seq!['/'] + index;
    let whole = before + seq!['['] + origin + seq![']'] + after;
    let b = before.len() as int;
    let f = fingerprint.len() as int;
    let c = chain.len() as int;
    let n = origin.len() as int;
    assert forall|j: int| 0 <= j < b implies whole[j] != '[' && whole[j] != ']' by {
        assert(whole[j] == before[j]);
        assert(before.contains(before[j]));
    }
    assert forall|j: int| 0 <= j < n implies #[trigger] origin[j] != ']' && (j != f && j != f + 1
        + c ==> origin[j] != '/') by {
        if j < f {
            assert(origin[j] == fingerprint[j]);
            assert(fingerprint.contains(fingerprint[j]));
        } else if f < j < f + 1 + c {
            assert(origin[j] == chain[j - f - 1]);
            assert(chain.contains(chain[j - f - 1]));
        } else if f + 1 + c < j {
            assert(origin[j] == index[j - f - c - 2]);
            assert(index.contains(index[j - f - c - 2]));
        }
    }
    assert forall|j: int| 0 <= j < b + 1 + n implies whole[j] != ']' by {
        if b < j {
            assert(whole[j] == origin[j - b - 1]);
        }
    }
    lemma_first_is(whole, '[', 0, b);
    lemma_first_is(whole, ']', 0, b + 1 + n);
    assert(whole.subrange(b + 1, b + 1 + n) =~= origin);
    lemma_first_is(origin, '/', 0, f);
    lemma_first_is(origin, '/', f + 1, f + 1 + c);
    lemma_first_is_none(origin, '/', f + c + 2);
    assert(origin.subrange(0, f) =~= fingerprint);
    assert(origin.subrange(f + 1, f + 1 + c) =~= chain);
    assert(origin.subrange(f + c + 2, n) =~= index);
}

/// A descriptor of the wallet names the address type by its function, the key by its text and the chain by its
/// number, 0 for receiving and 1 for change, with a wildcard for the index.
pub proof fn law_chain_descriptor_names_the_chain(xpub: Seq<char>)
    ensures
        chain_descriptor(xpub, AddressType::P2WPKH, KeychainKind::External) == "wpkh("@ + xpub
            + "/0/*)"@,
        chain_descriptor(xpub, AddressType::P2WPKH, KeychainKind::Internal) == "wpkh("@ + xpub
            + "/1/*)"@,
        chain_descriptor(xpub, AddressType::P2TR, KeychainKind::External) == "tr("@ + xpub
            + "/0/*)"@,
        chain_descriptor(xpub, AddressType::P2TR, KeychainKind::Internal) == "tr("@ + xpub
            + "/1/*)"@,
{
    reveal_strlit("/");
    reveal_strlit("/*)");
    reveal_strlit("/0/*)");
    reveal_strlit("/1/*)");
    assert("/"@ + decimal(0) + "/*)"@ =~= "/0/*)"@);
    assert("/"@ + decimal(1) + "/*)"@ =~= "/1/*)"@);
    assert forall|f: Seq<char>| #[trigger]
        (f + xpub) + "/"@ + decimal(0) + "/*)"@ =~= f + xpub + "/0/*)"@ by {}
    assert forall|f: Seq<char>| #[trigger]
        (f + xpub) + "/"@ + decimal(1) + "/*)"@ =~= f + xpub + "/1/*)"@ by {}
}

} // verus!
