//! Chance: numbers, coin flips and shuffles.
use vstd::prelude::*;
use secp256k1::rand::rng;
use secp256k1::rand::seq::{IndexedRandom, SliceRandom};
use secp256k1::rand::Rng;

verus! {

/// Calls `rand::Rng::random_range` on an inclusive range. Claimed: the number lies in the range.
/// Which one comes is chance.
#[verifier::external_body]
fn random_usize(low: usize, high: usize) -> (n: usize)
    requires
        low <= high,
    ensures
        low <= n <= high,
{
    rng().random_range(low..=high)
}

/// Calls `rand::Rng::random_range` on an inclusive range. Claimed: the number lies in the range.
/// Which one comes is chance.
#[verifier::external_body]
fn random_u32(low: u32, high: u32) -> (n: u32)
    requires
        low <= high,
    ensures
        low <= n <= high,
{
    rng().random_range(low..=high)
}

/// Calls `rand::Rng::random` for a `bool`. Nothing is claimed of the toss.
#[verifier::external_body]
pub(crate) fn coin_flip() -> bool {
    rng().random()
}

/// Calls `rand::seq::SliceRandom::shuffle`. Claimed: the vector holds the same items as before,
/// each as often. Their new order is chance.
#[verifier::external_body]
pub(crate) fn shuffle<T>(items: &mut Vec<T>)
    ensures
        final(items)@.to_multiset() == old(items)@.to_multiset(),
{
    items.shuffle(&mut rng());
}

/// Calls `rand::seq::IndexedRandom::choose`. Claimed: an item of the vector comes back, and none
/// exactly where the vector is empty. Which one comes is chance.
#[verifier::external_body]
pub(crate) fn choose_one<T>(items: &Vec<T>) -> (chosen: Option<&T>)
    ensures
        match chosen {
            Some(item) => items@.contains(*item),
            None => items@.len() == 0,
        },
{
    items.choose(&mut rng())
}

/// Draws a number between the two ends of a range, whichever way round they stand.
pub fn draw_usize_inclusive(range: (usize, usize)) -> (n: usize)
    ensures
        range.0 <= n <= range.1 || range.1 <= n <= range.0,
{
    if range.0 <= range.1 {
        random_usize(range.0, range.1)
    } else {
        random_usize(range.1, range.0)
    }
}

/// Draws a number between the two ends of a range, whichever way round they stand.
pub fn draw_u32_inclusive(range: (u32, u32)) -> (n: u32)
    ensures
        range.0 <= n <= range.1 || range.1 <= n <= range.0,
{
    if range.0 <= range.1 {
        random_u32(range.0, range.1)
    } else {
        random_u32(range.1, range.0)
    }
}

/// Sequences with the same items have the same items after a map.
pub proof fn lemma_map_multiset<A, B>(a: Seq<A>, b: Seq<A>, f: spec_fn(A) -> B)
    requires
        a.to_multiset() == b.to_multiset(),
    ensures
        a.map_values(f).to_multiset() == b.map_values(f).to_multiset(),
    decreases a.len(),
{
    broadcast use vstd::seq_lib::group_to_multiset_ensures;

    assert(a.len() == a.to_multiset().len());
    assert(b.len() == b.to_multiset().len());
    if a.len() == 0 {
        assert(a.map_values(f) =~= b.map_values(f));
    } else {
        let last = a.len() - 1;
        let x = a[last];
        assert(a.contains(x));
        assert(b.to_multiset().count(x) > 0);
        assert(b.contains(x));
        let i = choose|i: int| 0 <= i < b.len() && b[i] == x;
        assert(a.remove(last).to_multiset() =~= a.to_multiset().remove(x));
        assert(b.remove(i).to_multiset() =~= b.to_multiset().remove(x));
        lemma_map_multiset(a.remove(last), b.remove(i), f);
        let fa = a.map_values(f);
        let fb = b.map_values(f);
        assert(a.remove(last).map_values(f) =~= fa.remove(last));
        assert(b.remove(i).map_values(f) =~= fb.remove(i));
        assert(fa.remove(last).to_multiset() =~= fa.to_multiset().remove(fa[last]));
        assert(fb.remove(i).to_multiset() =~= fb.to_multiset().remove(fb[i]));
        assert(fa[last] == fb[i]);
        let y = fa[last];
        assert(fa.contains(y));
        assert(fb.contains(y));
        assert(fa.to_multiset() =~= fa.to_multiset().remove(y).insert(y));
        assert(fb.to_multiset() =~= fb.to_multiset().remove(y).insert(y));
    }
}

} // verus!
