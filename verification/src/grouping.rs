//! Groups of coins that share an address.
use vstd::prelude::*;
use vstd::string::*;
use crate::bytes::{views, ScriptBuf};
use crate::spend_info::{copy_coin, total_amount, Coin, CoinView, ListUnspentResultEntry, UtxoView};

verus! {

/// The text that `bitcoin::ScriptBuf` displays for a script with the given bytes.
pub uninterp spec fn script_display(script: Seq<u8>) -> Seq<char>;

/// Calls the `Display` of `bitcoin::ScriptBuf` (its `to_string`), which writes the script's
/// instructions out. The contract names that text as a function of the script's bytes.
#[verifier::external_body]
fn display_script(script: &ScriptBuf) -> (text: String)
    ensures
        text@ == script_display(script@),
{
    bitcoin::ScriptBuf::from_bytes(script.bytes.clone()).to_string()
}

/// What tells the coins of one address from those of another: the address, or the script where
/// the backend gives no address.
pub open spec fn address_key(utxo: UtxoView) -> Seq<char> {
    match utxo.address {
        Some(address) => address,
        None => "script_"@ + script_display(utxo.script_pub_key),
    }
}

fn address_key_text(utxo: &ListUnspentResultEntry) -> (key: String)
    ensures
        key@ == address_key(utxo@),
{
    match &utxo.address {
        Some(address) => address.clone(),
        None => {
            let mut key = "script_".to_owned();
            key.append(display_script(&utxo.script_pub_key).as_str());
            key
        },
    }
}

/// The coins of a list that share an address key, in the list's order.
pub open spec fn with_key(coins: Seq<CoinView>, key: Seq<char>) -> Seq<CoinView> {
    coins.filter(|c: CoinView| address_key(c.0) == key)
}

/// Whether `group` is the whole of what one address holds among `coins`.
pub open spec fn is_group(group: Seq<CoinView>, coins: Seq<CoinView>) -> bool {
    exists|i: int|
        0 <= i < coins.len() && group == with_key(coins, address_key((#[trigger] coins[i]).0))
}

/// The views of a list of groups.
pub open spec fn group_views(groups: Seq<Vec<Coin>>) -> Seq<Seq<CoinView>> {
    Seq::new(groups.len(), |h: int| views(groups[h]@))
}

/// Whether groups stand in order of their total value, smallest first.
pub open spec fn sorted_by_total(groups: Seq<Seq<CoinView>>) -> bool {
    forall|g: int, h: int|
        0 <= g < h < groups.len() ==> total_amount(#[trigger] groups[g]) <= total_amount(
            #[trigger] groups[h],
        )
}

/// Whether `reused` holds the groups of the addresses with several coins, and `single` those of
/// the addresses with one coin, each group once and by growing total value.
pub open spec fn arranged(
    reused: Seq<Seq<CoinView>>,
    single: Seq<Seq<CoinView>>,
    coins: Seq<CoinView>,
) -> bool {
    &&& reused.no_duplicates()
    &&& single.no_duplicates()
    &&& forall|g: Seq<CoinView>| #[trigger]
        reused.contains(g) <==> is_group(g, coins) && g.len() > 1
    &&& forall|g: Seq<CoinView>| #[trigger]
        single.contains(g) <==> is_group(g, coins) && g.len() == 1
    &&& sorted_by_total(reused)
    &&& sorted_by_total(single)
}

/// A coin of a list is in its own address group.
pub proof fn lemma_with_key_contains(coins: Seq<CoinView>, i: int)
    requires
        0 <= i < coins.len(),
    ensures
        with_key(coins, address_key(coins[i].0)).contains(coins[i]),
        with_key(coins, address_key(coins[i].0)).len() > 0,
{
    let pred = |c: CoinView| address_key(c.0) == address_key(coins[i].0);
    coins.lemma_filter_contains(pred, i);
}

/// Every coin of an address group has the group's key.
pub proof fn lemma_with_key_uniform(coins: Seq<CoinView>, key: Seq<char>, j: int)
    requires
        0 <= j < with_key(coins, key).len(),
    ensures
        address_key(with_key(coins, key)[j].0) == key,
        coins.contains(with_key(coins, key)[j]),
{
    let pred = |c: CoinView| address_key(c.0) == key;
    coins.lemma_filter_pred(pred, j);
    coins.lemma_filter_contains_rev(pred, with_key(coins, key)[j]);
}

proof fn lemma_with_key_push(coins: Seq<CoinView>, c: CoinView, key: Seq<char>)
    ensures
        with_key(coins.push(c), key) == if address_key(c.0) == key {
            with_key(coins, key).push(c)
        } else {
            with_key(coins, key)
        },
{
    let pred = |c: CoinView| address_key(c.0) == key;
    coins.lemma_filter_push(c, pred);
}

/// Where a key stands in a list of keys.
fn position_of_key(keys: &Vec<String>, wanted: &String) -> (found: Option<usize>)
    ensures
        match found {
            Some(h) => h < keys.len() && keys@[h as int]@ == wanted@,
            None => forall|h: int| 0 <= h < keys.len() ==> (#[trigger] keys@[h])@ != wanted@,
        },
{
    let mut h: usize = 0;
    while h < keys.len()
        invariant
            h <= keys.len(),
            forall|j: int| 0 <= j < h ==> (#[trigger] keys@[j])@ != wanted@,
        decreases keys.len() - h,
    {
        if keys[h] == *wanted {
            return Some(h);
        }
        h += 1;
    }
    None
}

/// Whether a list of keys holds `key`.
spec fn key_listed(keys: Seq<String>, key: Seq<char>) -> bool {
    exists|h: int| 0 <= h < keys.len() && (#[trigger] keys[h])@ == key
}

/// Whether `groups` are the address groups of `coins`, one for each of `keys`.
spec fn keyed_groups(groups: Seq<Vec<Coin>>, keys: Seq<String>, coins: Seq<CoinView>) -> bool {
    &&& groups.len() == keys.len()
    &&& forall|h: int|
        0 <= h < groups.len() ==> views((#[trigger] groups[h])@) == with_key(coins, keys[h]@)
            && groups[h]@.len() > 0
    &&& forall|h: int, k: int|
        0 <= h < k < keys.len() ==> (#[trigger] keys[h])@ != (#[trigger] keys[k])@
    &&& forall|i: int|
        0 <= i < coins.len() ==> key_listed(keys, address_key((#[trigger] coins[i]).0))
}

proof fn lemma_keyed_groups_complete(
    groups: Seq<Vec<Coin>>,
    keys: Seq<String>,
    coins: Seq<CoinView>,
)
    requires
        keyed_groups(groups, keys, coins),
    ensures
        group_views(groups).no_duplicates(),
        forall|g: Seq<CoinView>| #[trigger]
            group_views(groups).contains(g) <==> is_group(g, coins),
{
    let all = group_views(groups);
    assert forall|g: Seq<CoinView>| #[trigger] all.contains(g) implies is_group(g, coins) by {
        let h = choose|h: int| 0 <= h < all.len() && all[h] == g;
        assert(views(groups[h]@) == g);
        lemma_with_key_uniform(coins, keys[h]@, 0);
        let i = choose|i: int| 0 <= i < coins.len() && coins[i] == g[0];
        assert(g == with_key(coins, address_key(coins[i].0)));
    }
    assert forall|g: Seq<CoinView>| is_group(g, coins) implies #[trigger] all.contains(g) by {
        let i = choose|i: int|
            0 <= i < coins.len() && g == with_key(coins, address_key((#[trigger] coins[i]).0));
        let h = choose|h: int|
            0 <= h < keys.len() && (#[trigger] keys[h])@ == address_key(coins[i].0);
        assert(views(groups[h]@) == g);
        assert(all[h] == g);
    }
    assert forall|h: int, k: int| 0 <= h < all.len() && 0 <= k < all.len() && h != k implies all[h]
        != all[k] by {
        assert(views(groups[h]@) == with_key(coins, keys[h]@));
        assert(views(groups[k]@) == with_key(coins, keys[k]@));
        lemma_with_key_uniform(coins, keys[h]@, 0);
        lemma_with_key_uniform(coins, keys[k]@, 0);
        if h < k {
            assert(keys[h]@ != keys[k]@);
        } else {
            assert(keys[k]@ != keys[h]@);
        }
    }
}

/// Puts the coins of each address together, addresses in the order of their first coin.
fn group_by_address(coins: &Vec<Coin>) -> (groups: Vec<Vec<Coin>>)
    ensures
        group_views(groups@).no_duplicates(),
        forall|g: Seq<CoinView>| #[trigger]
            group_views(groups@).contains(g) <==> is_group(g, views(coins@)),
{
    let mut groups: Vec<Vec<Coin>> = Vec::new();
    let mut keys: Vec<String> = Vec::new();
    let ghost all = views(coins@);
    let mut i: usize = 0;
    proof {
        assert(keyed_groups(groups@, keys@, all.take(0)));
    }
    while i < coins.len()
        invariant
            all == views(coins@),
            i <= coins.len(),
            keyed_groups(groups@, keys@, all.take(i as int)),
        decreases coins.len() - i,
    {
        let key = address_key_text(&coins[i].0);
        let coin = copy_coin(&coins[i]);
        let ghost before = all.take(i as int);
        let ghost after = all.take(i + 1);
        let ghost old_groups = groups@;
        let ghost old_keys = keys@;
        let ghost c = all[i as int];
        proof {
            assert(after =~= before.push(c));
            assert(coin@ == c);
            assert forall|k: Seq<char>| #[trigger] with_key(after, k) == if address_key(c.0) == k {
                with_key(before, k).push(c)
            } else {
                with_key(before, k)
            } by {
                lemma_with_key_push(before, c, k);
            }
        }
        match position_of_key(&keys, &key) {
            Some(h) => {
                groups[h].push(coin);
                proof {
                    assert forall|k: int| 0 <= k < groups@.len() implies views(
                        (#[trigger] groups@[k])@,
                    ) == with_key(after, keys@[k]@) && groups@[k]@.len() > 0 by {
                        if k == h {
                            assert(views(groups@[k]@) =~= views(old_groups[k]@).push(c));
                        } else {
                            assert(groups@[k] == old_groups[k]);
                            assert(keys@[k]@ != keys@[h as int]@);
                        }
                    }
                    assert forall|j: int| 0 <= j < after.len() implies key_listed(
                        keys@,
                        address_key((#[trigger] after[j]).0),
                    ) by {
                        if j < i {
                            assert(after[j] == before[j]);
                        } else {
                            assert(keys@[h as int]@ == address_key(after[j].0));
                        }
                    }
                    assert(keyed_groups(groups@, keys@, after));
                }
            },
            None => {
                let mut fresh: Vec<Coin> = Vec::new();
                fresh.push(coin);
                groups.push(fresh);
                keys.push(key);
                proof {
                    let last = old_keys.len() as int;
                    assert forall|k: int| 0 <= k < groups@.len() implies views(
                        (#[trigger] groups@[k])@,
                    ) == with_key(after, keys@[k]@) && groups@[k]@.len() > 0 by {
                        if k == last {
                            assert(with_key(before, key@).len() == 0) by {
                                if with_key(before, key@).len() > 0 {
                                    lemma_with_key_uniform(before, key@, 0);
                                    let w = with_key(before, key@)[0];
                                    let j = choose|j: int| 0 <= j < before.len() && before[j] == w;
                                    let m = choose|m: int|
                                        0 <= m < old_keys.len() && (#[trigger] old_keys[m])@
                                            == address_key(before[j].0);
                                    assert(old_keys[m]@ == key@);
                                }
                            }
                            assert(views(groups@[k]@) =~= with_key(before, key@).push(c));
                        } else {
                            assert(groups@[k] == old_groups[k]);
                            assert(keys@[k] == old_keys[k]);
                        }
                    }
                    assert forall|j: int| 0 <= j < after.len() implies key_listed(
                        keys@,
                        address_key((#[trigger] after[j]).0),
                    ) by {
                        if j < i {
                            assert(after[j] == before[j]);
                            let m = choose|m: int|
                                0 <= m < old_keys.len() && (#[trigger] old_keys[m])@
                                    == address_key(before[j].0);
                            assert(keys@[m] == old_keys[m]);
                        } else {
                            assert(keys@[last]@ == address_key(after[j].0));
                        }
                    }
                    assert forall|k: int, m: int| 0 <= k < m < keys@.len() implies (
                    #[trigger] keys@[k])@ != (#[trigger] keys@[m])@ by {
                        assert(keys@[k] == old_keys[k]);
                        if m < last {
                            assert(keys@[m] == old_keys[m]);
                        }
                    }
                    assert(keyed_groups(groups@, keys@, after));
                }
            },
        }
        i += 1;
    }
    proof {
        assert(all.take(i as int) =~= all);
        lemma_keyed_groups_complete(groups@, keys@, all);
    }
    groups
}

/// Appending a coin adds its value to the total.
pub proof fn lemma_total_push(coins: Seq<CoinView>, c: CoinView)
    ensures
        total_amount(coins.push(c)) == total_amount(coins) + c.0.amount,
{
    assert(coins.push(c).drop_last() =~= coins);
}

/// The total of two lists is the sum of their totals.
pub proof fn lemma_total_concat(a: Seq<CoinView>, b: Seq<CoinView>)
    ensures
        total_amount(a + b) == total_amount(a) + total_amount(b),
    decreases b.len(),
{
    if b.len() == 0 {
        assert(a + b =~= a);
    } else {
        lemma_total_concat(a, b.drop_last());
        assert((a + b).drop_last() =~= a + b.drop_last());
        assert((a + b).last() == b.last());
    }
}

/// A part of a list is worth no more than the list.
pub proof fn lemma_total_filter(coins: Seq<CoinView>, pred: spec_fn(CoinView) -> bool)
    ensures
        total_amount(coins.filter(pred)) <= total_amount(coins),
    decreases coins.len(),
{
    reveal(Seq::filter);
    if coins.len() > 0 {
        lemma_total_filter(coins.drop_last(), pred);
        lemma_total_push(coins.drop_last().filter(pred), coins.last());
    }
}

/// The first coins of a list are worth no more than the list.
pub proof fn lemma_total_take(coins: Seq<CoinView>, n: int)
    requires
        0 <= n <= coins.len(),
    ensures
        total_amount(coins.take(n)) <= total_amount(coins),
{
    lemma_total_concat(coins.take(n), coins.skip(n));
    assert(coins.take(n) + coins.skip(n) =~= coins);
}

/// The sum of a measure over a list of coins.
pub open spec fn tally(coins: Seq<CoinView>, f: spec_fn(CoinView) -> nat) -> nat
    decreases coins.len(),
{
    if coins.len() == 0 {
        0
    } else {
        tally(coins.drop_last(), f) + f(coins.last())
    }
}

/// The value of a coin, as a measure.
pub open spec fn amount_of() -> spec_fn(CoinView) -> nat {
    |c: CoinView| c.0.amount as nat
}

/// Several groups, one behind the other.
pub open spec fn joined(groups: Seq<Seq<CoinView>>) -> Seq<CoinView>
    decreases groups.len(),
{
    if groups.len() == 0 {
        Seq::empty()
    } else {
        joined(groups.drop_last()) + groups.last()
    }
}

/// The total value is the sum of the coins' values.
pub proof fn lemma_total_is_tally(coins: Seq<CoinView>)
    ensures
        total_amount(coins) == tally(coins, amount_of()),
    decreases coins.len(),
{
    if coins.len() > 0 {
        lemma_total_is_tally(coins.drop_last());
    }
}

pub proof fn lemma_tally_push(coins: Seq<CoinView>, c: CoinView, f: spec_fn(CoinView) -> nat)
    ensures
        tally(coins.push(c), f) == tally(coins, f) + f(c),
{
    assert(coins.push(c).drop_last() =~= coins);
}

pub proof fn lemma_tally_concat(
    a: Seq<CoinView>,
    b: Seq<CoinView>,
    f: spec_fn(CoinView) -> nat,
)
    ensures
        tally(a + b, f) == tally(a, f) + tally(b, f),
    decreases b.len(),
{
    if b.len() == 0 {
        assert(a + b =~= a);
    } else {
        lemma_tally_concat(a, b.drop_last(), f);
        assert((a + b).drop_last() =~= a + b.drop_last());
    }
}

/// What a test lets through and what it holds back make up the whole.
pub proof fn lemma_tally_split(
    coins: Seq<CoinView>,
    pred: spec_fn(CoinView) -> bool,
    f: spec_fn(CoinView) -> nat,
)
    ensures
        tally(coins.filter(pred), f) + tally(coins.filter(|c: CoinView| !pred(c)), f) == tally(
            coins,
            f,
        ),
    decreases coins.len(),
{
    reveal(Seq::filter);
    let other = |c: CoinView| !pred(c);
    if coins.len() > 0 {
        lemma_tally_split(coins.drop_last(), pred, f);
        lemma_tally_push(coins.drop_last().filter(pred), coins.last(), f);
        lemma_tally_push(coins.drop_last().filter(other), coins.last(), f);
    }
}

pub proof fn lemma_joined_push(groups: Seq<Seq<CoinView>>, group: Seq<CoinView>)
    ensures
        joined(groups.push(group)) == joined(groups) + group,
{
    assert(groups.push(group).drop_last() =~= groups);
}

pub proof fn lemma_joined_concat(a: Seq<Seq<CoinView>>, b: Seq<Seq<CoinView>>)
    ensures
        joined(a + b) == joined(a) + joined(b),
    decreases b.len(),
{
    if b.len() == 0 {
        assert(a + b =~= a);
        assert(joined(a + b) =~= joined(a) + joined(b));
    } else {
        lemma_joined_concat(a, b.drop_last());
        assert((a + b).drop_last() =~= a + b.drop_last());
        assert(joined(a + b) =~= joined(a) + joined(b));
    }
}

/// The sum of a measure over the coins of the given keys.
spec fn tally_keys(
    coins: Seq<CoinView>,
    keys: Seq<Seq<char>>,
    f: spec_fn(CoinView) -> nat,
) -> nat
    decreases keys.len(),
{
    if keys.len() == 0 {
        0
    } else {
        tally_keys(coins, keys.drop_last(), f) + tally(with_key(coins, keys.last()), f)
    }
}

proof fn lemma_tally_keys_push(
    coins: Seq<CoinView>,
    c: CoinView,
    keys: Seq<Seq<char>>,
    f: spec_fn(CoinView) -> nat,
)
    requires
        keys.no_duplicates(),
    ensures
        tally_keys(coins.push(c), keys, f) == tally_keys(coins, keys, f) + if keys.contains(
            address_key(c.0),
        ) {
            f(c)
        } else {
            0
        },
    decreases keys.len(),
{
    if keys.len() > 0 {
        let shorter = keys.drop_last();
        lemma_tally_keys_push(coins, c, shorter, f);
        lemma_with_key_push(coins, c, keys.last());
        lemma_tally_push(with_key(coins, keys.last()), c, f);
        let key = address_key(c.0);
        assert(keys[keys.len() - 1] == keys.last());
        if shorter.contains(key) {
            let i = choose|i: int| 0 <= i < shorter.len() && shorter[i] == key;
            assert(keys[i] == key);
            assert(key != keys.last());
        }
        if keys.contains(key) && key != keys.last() {
            let i = choose|i: int| 0 <= i < keys.len() && keys[i] == key;
            assert(shorter[i] == key);
        }
    }
}

proof fn lemma_tally_keys_all(
    coins: Seq<CoinView>,
    keys: Seq<Seq<char>>,
    f: spec_fn(CoinView) -> nat,
)
    requires
        keys.no_duplicates(),
        forall|i: int|
            0 <= i < coins.len() ==> keys.contains(address_key((#[trigger] coins[i]).0)),
    ensures
        tally_keys(coins, keys, f) == tally(coins, f),
    decreases coins.len(),
{
    if coins.len() == 0 {
        lemma_tally_keys_empty(coins, keys, f);
    } else {
        let shorter = coins.drop_last();
        assert forall|i: int| 0 <= i < shorter.len() implies keys.contains(
            address_key((#[trigger] shorter[i]).0),
        ) by {
            assert(shorter[i] == coins[i]);
        }
        lemma_tally_keys_all(shorter, keys, f);
        lemma_tally_keys_push(shorter, coins.last(), keys, f);
        assert(shorter.push(coins.last()) =~= coins);
        assert(coins.last() == coins[coins.len() - 1]);
    }
}

proof fn lemma_tally_keys_empty(
    coins: Seq<CoinView>,
    keys: Seq<Seq<char>>,
    f: spec_fn(CoinView) -> nat,
)
    requires
        coins.len() == 0,
    ensures
        tally_keys(coins, keys, f) == 0,
    decreases keys.len(),
{
    reveal(Seq::filter);
    if keys.len() > 0 {
        lemma_tally_keys_empty(coins, keys.drop_last(), f);
        assert(with_key(coins, keys.last()).len() == 0);
    }
}

proof fn lemma_joined_is_tally_keys(
    groups: Seq<Seq<CoinView>>,
    keys: Seq<Seq<char>>,
    coins: Seq<CoinView>,
    f: spec_fn(CoinView) -> nat,
)
    requires
        groups.len() == keys.len(),
        forall|h: int| 0 <= h < groups.len() ==> #[trigger] groups[h] == with_key(coins, keys[h]),
    ensures
        tally(joined(groups), f) == tally_keys(coins, keys, f),
    decreases groups.len(),
{
    if groups.len() > 0 {
        let n = groups.len() - 1;
        assert forall|h: int| 0 <= h < groups.drop_last().len() implies #[trigger] groups.drop_last()[h]
            == with_key(coins, keys.drop_last()[h]) by {
            assert(groups.drop_last()[h] == groups[h]);
        }
        lemma_joined_is_tally_keys(groups.drop_last(), keys.drop_last(), coins, f);
        lemma_tally_concat(joined(groups.drop_last()), groups.last(), f);
        assert(groups.last() == groups[n]);
    }
}

/// The address groups of a list, each once, make up the list.
pub proof fn lemma_groups_tally(
    groups: Seq<Seq<CoinView>>,
    coins: Seq<CoinView>,
    f: spec_fn(CoinView) -> nat,
)
    requires
        groups.no_duplicates(),
        forall|h: int| 0 <= h < groups.len() ==> is_group(#[trigger] groups[h], coins),
        forall|i: int|
            0 <= i < coins.len() ==> groups.contains(
                with_key(coins, address_key((#[trigger] coins[i]).0)),
            ),
    ensures
        tally(joined(groups), f) == tally(coins, f),
{
    let keys = Seq::new(
        groups.len(),
        |h: int|
            address_key(
                coins[choose|i: int|
                    0 <= i < coins.len() && groups[h] == with_key(
                        coins,
                        address_key((#[trigger] coins[i]).0),
                    )].0,
            ),
    );
    assert forall|h: int| 0 <= h < groups.len() implies #[trigger] groups[h] == with_key(
        coins,
        keys[h],
    ) by {
        assert(is_group(groups[h], coins));
    }
    assert forall|g: int, h: int| 0 <= g < keys.len() && 0 <= h < keys.len() && g != h implies keys[g]
        != keys[h] by {
        assert(groups[g] != groups[h]);
    }
    assert forall|i: int| 0 <= i < coins.len() implies keys.contains(
        address_key((#[trigger] coins[i]).0),
    ) by {
        let group = with_key(coins, address_key(coins[i].0));
        assert(groups.contains(group));
        let h = choose|h: int| 0 <= h < groups.len() && groups[h] == group;
        assert(groups[h] == with_key(coins, keys[h]));
        lemma_with_key_contains(coins, i);
        let j = choose|j: int| 0 <= j < group.len() && group[j] == coins[i];
        lemma_with_key_uniform(coins, keys[h], j);
        assert(keys[h] == address_key(coins[i].0));
    }
    lemma_joined_is_tally_keys(groups, keys, coins, f);
    lemma_tally_keys_all(coins, keys, f);
}

/// Adds up the values of a list of coins, if the sum fits in 64 bits.
pub fn checked_total(coins: &Vec<Coin>) -> (total: Option<u64>)
    ensures
        match total {
            Some(t) => t == total_amount(views(coins@)),
            None => total_amount(views(coins@)) > u64::MAX,
        },
{
    let ghost all = views(coins@);
    let mut total: u64 = 0;
    let mut i: usize = 0;
    assert(all.take(0) =~= Seq::<CoinView>::empty());
    while i < coins.len()
        invariant
            all == views(coins@),
            i <= coins.len(),
            total == total_amount(all.take(i as int)),
        decreases coins.len() - i,
    {
        proof {
            assert(all.take(i + 1) =~= all.take(i as int).push(all[i as int]));
            lemma_total_push(all.take(i as int), all[i as int]);
            lemma_total_take(all, i + 1);
        }
        match total.checked_add(coins[i].0.amount) {
            Some(sum) => {
                total = sum;
            },
            None => {
                return None;
            },
        }
        i += 1;
    }
    assert(all.take(i as int) =~= all);
    Some(total)
}

/// Adds up the values of a list of coins.
pub fn coins_total(coins: &Vec<Coin>) -> (total: u64)
    requires
        total_amount(views(coins@)) <= u64::MAX,
    ensures
        total == total_amount(views(coins@)),
{
    let ghost all = views(coins@);
    let mut total: u64 = 0;
    let mut i: usize = 0;
    while i < coins.len()
        invariant
            all == views(coins@),
            i <= coins.len(),
            total_amount(all) <= u64::MAX,
            total == total_amount(all.take(i as int)),
        decreases coins.len() - i,
    {
        proof {
            assert(all.take(i + 1) =~= all.take(i as int).push(all[i as int]));
            lemma_total_push(all.take(i as int), all[i as int]);
            lemma_total_take(all, i + 1);
        }
        total = total + coins[i].0.amount;
        i += 1;
    }
    assert(all.take(i as int) =~= all);
    total
}

proof fn lemma_insert_contains<A>(s: Seq<A>, p: int, x: A)
    requires
        0 <= p <= s.len(),
    ensures
        forall|g: A| #[trigger] s.insert(p, x).contains(g) <==> s.contains(g) || g == x,
        s.no_duplicates() && !s.contains(x) ==> s.insert(p, x).no_duplicates(),
{
    let t = s.insert(p, x);
    assert forall|g: A| #[trigger] t.contains(g) <==> s.contains(g) || g == x by {
        if t.contains(g) {
            let i = choose|i: int| 0 <= i < t.len() && t[i] == g;
            if i < p {
                assert(s[i] == g);
            } else if i > p {
                assert(s[i - 1] == g);
            }
        }
        if s.contains(g) {
            let i = choose|i: int| 0 <= i < s.len() && s[i] == g;
            if i < p {
                assert(t[i] == g);
            } else {
                assert(t[i + 1] == g);
            }
        }
        if g == x {
            assert(t[p] == g);
        }
    }
}

/// Puts a group behind the last group that is worth no more than it.
fn insert_by_total(groups: &mut Vec<Vec<Coin>>, group: Vec<Coin>) -> (at: usize)
    requires
        sorted_by_total(group_views(old(groups)@)),
        total_amount(views(group@)) <= u64::MAX,
        forall|h: int|
            0 <= h < old(groups).len() ==> total_amount(views((#[trigger] old(groups)@[h])@))
                <= u64::MAX,
    ensures
        at <= old(groups).len(),
        group_views(final(groups)@) == group_views(old(groups)@).insert(at as int, views(group@)),
        final(groups)@ == old(groups)@.insert(at as int, group),
        sorted_by_total(group_views(final(groups)@)),
{
    let ghost before = group_views(groups@);
    let worth = coins_total(&group);
    let mut at: usize = groups.len();
    while at > 0 && coins_total(&groups[at - 1]) > worth
        invariant
            before == group_views(groups@),
            at <= groups.len(),
            worth == total_amount(views(group@)),
            forall|h: int|
                0 <= h < groups.len() ==> total_amount(views((#[trigger] groups@[h])@)) <= u64::MAX,
            forall|h: int| at <= h < before.len() ==> total_amount(#[trigger] before[h]) > worth,
        decreases at,
    {
        assert(before[at - 1] == views(groups@[at - 1]@));
        at -= 1;
    }
    proof {
        if at > 0 {
            assert(before[at - 1] == views(groups@[at - 1]@));
        }
    }
    groups.insert(at, group);
    proof {
        let after = group_views(groups@);
        assert(after =~= before.insert(at as int, views(group@)));
        assert forall|g: int, h: int| 0 <= g < h < after.len() implies total_amount(
            #[trigger] after[g],
        ) <= total_amount(#[trigger] after[h]) by {
            let og = if g < at { g } else { g - 1 };
            let oh = if h < at { h } else { h - 1 };
            if g == at {
                assert(after[h] == before[oh]);
            } else if h == at {
                assert(after[g] == before[og]);
                if og < at - 1 {
                    assert(total_amount(before[og]) <= total_amount(before[at - 1]));
                }
            } else {
                assert(after[g] == before[og]);
                assert(after[h] == before[oh]);
            }
        }
    }
    at
}

/// Groups coins by address, and parts the addresses with several coins from those with one.
pub fn arrange(coins: &Vec<Coin>) -> (parts: (Vec<Vec<Coin>>, Vec<Vec<Coin>>))
    requires
        total_amount(views(coins@)) <= u64::MAX,
    ensures
        arranged(group_views(parts.0@), group_views(parts.1@), views(coins@)),
{
    let mut groups = group_by_address(coins);
    let ghost list = views(coins@);
    let ghost all = group_views(groups@);
    let mut reused: Vec<Vec<Coin>> = Vec::new();
    let mut single: Vec<Vec<Coin>> = Vec::new();
    let ghost mut t: int = 0;
    proof {
        assert(all.skip(0) =~= all);
        assert forall|h: int| 0 <= h < all.len() implies #[trigger] all[h].len() > 0
            && total_amount(all[h]) <= u64::MAX by {
            assert(all.contains(all[h]));
            let i = choose|i: int|
                0 <= i < list.len() && all[h] == with_key(
                    list,
                    address_key((#[trigger] list[i]).0),
                );
            lemma_with_key_contains(list, i);
            let pred = |c: CoinView| address_key(c.0) == address_key(list[i].0);
            lemma_total_filter(list, pred);
        }
    }
    while groups.len() > 0
        invariant
            0 <= t <= all.len(),
            all.no_duplicates(),
            forall|h: int|
                0 <= h < all.len() ==> #[trigger] all[h].len() > 0 && total_amount(all[h])
                    <= u64::MAX,
            group_views(groups@) == all.skip(t),
            group_views(reused@).no_duplicates(),
            group_views(single@).no_duplicates(),
            forall|g: Seq<CoinView>| #[trigger]
                group_views(reused@).contains(g) <==> all.take(t).contains(g) && g.len() > 1,
            forall|g: Seq<CoinView>| #[trigger]
                group_views(single@).contains(g) <==> all.take(t).contains(g) && g.len() == 1,
            sorted_by_total(group_views(reused@)),
            sorted_by_total(group_views(single@)),
        decreases groups.len(),
    {
        let ghost old_reused = group_views(reused@);
        let ghost old_single = group_views(single@);
        let ghost old_groups = groups@;
        let group = groups.remove(0);
        let ghost g0 = all[t];
        proof {
            assert(group_views(old_groups).len() == old_groups.len());
            assert(t < all.len());
            assert(g0 == all.skip(t)[0]);
            assert(g0 == group_views(old_groups)[0]);
            assert(views(group@) == g0);
            assert forall|h: int| 0 <= h < groups@.len() implies #[trigger] group_views(groups@)[h]
                == all.skip(t + 1)[h] by {
                assert(group_views(old_groups)[h + 1] == views(old_groups[h + 1]@));
                assert(all.skip(t)[h + 1] == all[t + h + 1]);
            }
            assert(group_views(groups@) =~= all.skip(t + 1));
            assert forall|h: int| 0 <= h < reused@.len() implies total_amount(
                views((#[trigger] reused@[h])@),
            ) <= u64::MAX by {
                assert(old_reused[h] == views(reused@[h]@));
                assert(old_reused.contains(old_reused[h]));
            }
            assert forall|h: int| 0 <= h < single@.len() implies total_amount(
                views((#[trigger] single@[h])@),
            ) <= u64::MAX by {
                assert(old_single[h] == views(single@[h]@));
                assert(old_single.contains(old_single[h]));
            }
            assert(!all.take(t).contains(g0));
            assert forall|g: Seq<CoinView>| #[trigger] all.take(t + 1).contains(g) <==> all.take(
                t,
            ).contains(g) || g == g0 by {
                if all.take(t + 1).contains(g) {
                    let longer = all.take(t + 1);
                    let i = choose|i: int| 0 <= i < longer.len() && longer[i] == g;
                    if i < t {
                        assert(all.take(t)[i] == g);
                    }
                }
                if all.take(t).contains(g) {
                    let shorter = all.take(t);
                    let i = choose|i: int| 0 <= i < shorter.len() && shorter[i] == g;
                    assert(all.take(t + 1)[i] == g);
                }
                if g == g0 {
                    assert(all.take(t + 1)[t] == g);
                }
            }
        }
        if group.len() > 1 {
            let at = insert_by_total(&mut reused, group);
            proof {
                lemma_insert_contains(old_reused, at as int, g0);
            }
        } else {
            let at = insert_by_total(&mut single, group);
            proof {
                lemma_insert_contains(old_single, at as int, g0);
            }
        }
        proof {
            t = t + 1;
        }
    }
    proof {
        assert(all.take(t) =~= all);
    }
    (reused, single)
}

} // verus!
