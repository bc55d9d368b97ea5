//! Query batches that mix the wallet's scripts with decoys.
use vstd::prelude::*;
use vstd::seq_lib::lemma_multiset_commutative;
use crate::bytes::{views, ScriptBuf};
use crate::decoy::{
    after_reuse, alive_entries, can_fail, decoy_selection, decoy_selection_failed, derivable,
    freshly_derived, law_cache_holds_cached_or_fresh, law_selection_bounds_cache,
    law_selection_from_live_or_fresh, law_selection_gives_needed, selection_broken_off, DecoyCache,
    DecoyEntry, DecoyView, PrivacyConfig,
};
use crate::error::WalletError;
use crate::random::{
    choose_one, draw_u32_inclusive, draw_usize_inclusive, lemma_map_multiset, shuffle,
};

verus! {

/// One script of a query.
#[derive(Debug, PartialEq, Eq)]
pub struct PrivateQueryItem {
    /// The script that is asked for.
    pub script: ScriptBuf,
    /// Whether the script is the wallet's own, so that its results count.
    pub is_real: bool,
}

/// A script of a query as a mathematical value: its bytes, and whether it is the wallet's own.
pub type ItemView = (Seq<u8>, bool);

impl View for PrivateQueryItem {
    type V = ItemView;

    open spec fn view(&self) -> ItemView {
        (self.script@, self.is_real)
    }
}

impl Clone for PrivateQueryItem {
    fn clone(&self) -> (copy: Self)
        ensures
            copy@ == self@,
    {
        PrivateQueryItem { script: self.script.clone(), is_real: self.is_real }
    }
}

/// The number of scripts in a query batch where no decoys are used.
pub const FALLBACK_BATCH_SIZE: usize = 200;

/// Scripts as the items of a query.
pub open spec fn as_items(scripts: Seq<Seq<u8>>, is_real: bool) -> Seq<ItemView> {
    Seq::new(scripts.len(), |i: int| (scripts[i], is_real))
}

/// The views of a list of batches.
pub open spec fn batch_views(batches: Seq<Vec<PrivateQueryItem>>) -> Seq<Seq<ItemView>> {
    Seq::new(batches.len(), |b: int| views(batches[b]@))
}

/// Whether a number lies between the two ends of a range, whichever way round they stand.
pub open spec fn in_range(n: int, range: (usize, usize)) -> bool {
    range.0 <= n <= range.1 || range.1 <= n <= range.0
}

/// Where a batch ends that begins at `from` and takes `drawn` of `len` scripts, one at least.
pub open spec fn cut_after(from: int, drawn: int, len: int) -> int {
    let count = if drawn >= 1 {
        drawn
    } else {
        1
    };
    if from + count <= len {
        from + count
    } else {
        len
    }
}

/// Whether a batch holds the given scripts of the wallet and the given decoys, in any order.
pub open spec fn holds(
    batch: Seq<ItemView>,
    reals: Seq<Seq<u8>>,
    decoys: Seq<Seq<u8>>,
) -> bool {
    batch.to_multiset() == (as_items(reals, true) + as_items(decoys, false)).to_multiset()
}

/// Whether batch `b` is made as the configuration asks: it takes the wallet's scripts from one
/// cut to the next, and adds decoys.
pub open spec fn batch_fits(
    batches: Seq<Seq<ItemView>>,
    cuts: Seq<int>,
    decoys: Seq<Seq<Seq<u8>>>,
    own: Seq<Seq<u8>>,
    privacy: PrivacyConfig,
    b: int,
) -> bool {
    &&& 0 <= cuts[b] < cuts[b + 1] <= own.len()
    &&& exists|drawn: int| #[trigger]
        in_range(drawn, privacy.real_batch_range) && cuts[b + 1] == cut_after(
            cuts[b],
            drawn,
            own.len() as int,
        )
    &&& in_range(decoys[b].len() as int, privacy.decoy_pool_range)
    &&& holds(batches[b], own.subrange(cuts[b], cuts[b + 1]), decoys[b])
}

/// Whether batches take the wallet's scripts in order, cut by cut up to the `end`-th script, each
/// mixed with its decoys.
pub open spec fn mixed_up_to(
    batches: Seq<Seq<ItemView>>,
    cuts: Seq<int>,
    decoys: Seq<Seq<Seq<u8>>>,
    own: Seq<Seq<u8>>,
    privacy: PrivacyConfig,
    end: int,
) -> bool {
    &&& cuts.len() == batches.len() + 1
    &&& decoys.len() == batches.len()
    &&& cuts[0] == 0
    &&& cuts[cuts.len() - 1] == end
    &&& forall|b: int|
        0 <= b < batches.len() ==> #[trigger] batch_fits(batches, cuts, decoys, own, privacy, b)
}

/// Whether every decoy of every batch passes a test.
pub open spec fn all_decoys(
    decoys: Seq<Seq<Seq<u8>>>,
    allowed: spec_fn(Seq<u8>) -> bool,
) -> bool {
    forall|b: int, k: int|
        0 <= b < decoys.len() && 0 <= k < decoys[b].len() ==> allowed(#[trigger] decoys[b][k])
}

/// Whether batches ask for every script of the wallet, cut by cut, mixed with allowed decoys.
pub open spec fn mixed_batches(
    batches: Seq<Seq<ItemView>>,
    own: Seq<Seq<u8>>,
    privacy: PrivacyConfig,
    allowed: spec_fn(Seq<u8>) -> bool,
) -> bool {
    exists|cuts: Seq<int>, decoys: Seq<Seq<Seq<u8>>>| #[trigger]
        mixed_up_to(batches, cuts, decoys, own, privacy, own.len() as int) && all_decoys(
            decoys,
            allowed,
        )
}

/// Whether batches ask for the wallet's scripts alone, `size` at a time.
pub open spec fn plain_batches(
    batches: Seq<Seq<ItemView>>,
    own: Seq<Seq<u8>>,
    size: int,
) -> bool {
    &&& size * (batches.len() - 1) < own.len() <= size * batches.len()
    &&& forall|b: int|
        0 <= b < batches.len() ==> #[trigger] batches[b] == as_items(
            own.subrange(
                size * b,
                if size * (b + 1) <= own.len() {
                    size * (b + 1)
                } else {
                    own.len() as int
                },
            ),
            true,
        )
}

fn real_items(own: &Vec<ScriptBuf>, from: usize, to: usize) -> (items: Vec<PrivateQueryItem>)
    requires
        from <= to <= own.len(),
    ensures
        views(items@) == as_items(views(own@).subrange(from as int, to as int), true),
{
    let ghost all = views(own@);
    let mut items: Vec<PrivateQueryItem> = Vec::new();
    let mut i: usize = from;
    while i < to
        invariant
            all == views(own@),
            from <= i <= to <= own.len(),
            items.len() == i - from,
            forall|j: int|
                0 <= j < items.len() ==> (#[trigger] items@[j])@ == (all[from + j], true),
        decreases to - i,
    {
        items.push(PrivateQueryItem { script: own[i].clone(), is_real: true });
        i += 1;
    }
    assert(views(items@) =~= as_items(all.subrange(from as int, to as int), true));
    items
}

fn push_decoys(batch: &mut Vec<PrivateQueryItem>, decoys: Vec<ScriptBuf>)
    ensures
        views(final(batch)@) == views(old(batch)@) + as_items(views(decoys@), false),
{
    let ghost before = views(batch@);
    let ghost all = views(decoys@);
    let mut i: usize = 0;
    assert(views(batch@) =~= before + as_items(all.take(0), false));
    while i < decoys.len()
        invariant
            all == views(decoys@),
            i <= decoys.len(),
            views(batch@) == before + as_items(all.take(i as int), false),
        decreases decoys.len() - i,
    {
        let ghost now = views(batch@);
        batch.push(PrivateQueryItem { script: decoys[i].clone(), is_real: false });
        proof {
            assert(views(batch@) =~= now.push((all[i as int], false)));
            assert(as_items(all.take(i + 1), false) =~= as_items(all.take(i as int), false).push(
                (all[i as int], false),
            ));
            assert(views(batch@) =~= before + as_items(all.take(i + 1), false));
        }
        i += 1;
    }
    assert(all.take(i as int) =~= all);
}

/// Draws scripts from a pool, each by chance.
fn draw_from_pool(pool: &Vec<ScriptBuf>, count: usize) -> (drawn: Vec<ScriptBuf>)
    requires
        pool.len() > 0,
    ensures
        drawn.len() == count,
        forall|k: int| 0 <= k < count ==> views(pool@).contains((#[trigger] drawn@[k])@),
{
    let mut drawn: Vec<ScriptBuf> = Vec::new();
    let mut i: usize = 0;
    while i < count
        invariant
            pool.len() > 0,
            i <= count,
            drawn.len() == i,
            forall|k: int| 0 <= k < i ==> views(pool@).contains((#[trigger] drawn@[k])@),
        decreases count - i,
    {
        if let Some(script) = choose_one(pool) {
            proof {
                let j = choose|j: int| 0 <= j < pool@.len() && pool@[j] == *script;
                assert(views(pool@)[j] == script@);
            }
            drawn.push(script.clone());
        }
        i += 1;
    }
    drawn
}

fn shuffle_batch(batch: &mut Vec<PrivateQueryItem>)
    ensures
        views(final(batch)@).to_multiset() == views(old(batch)@).to_multiset(),
{
    let ghost before = batch@;
    shuffle(batch);
    proof {
        let f = |item: PrivateQueryItem| item@;
        lemma_map_multiset(before, batch@, f);
        assert(before.map_values(f) =~= views(before));
        assert(batch@.map_values(f) =~= views(batch@));
    }
}

fn next_cut(from: usize, drawn: usize, len: usize) -> (end: usize)
    requires
        from < len,
    ensures
        end == cut_after(from as int, drawn as int, len as int),
        from < end <= len,
{
    let count = if drawn >= 1 {
        drawn
    } else {
        1
    };
    if count <= len - from {
        from + count
    } else {
        len
    }
}

proof fn lemma_mixed_push(
    batches: Seq<Seq<ItemView>>,
    cuts: Seq<int>,
    decoys: Seq<Seq<Seq<u8>>>,
    own: Seq<Seq<u8>>,
    privacy: PrivacyConfig,
    from: int,
    batch: Seq<ItemView>,
    end: int,
    drawn: int,
    added: Seq<Seq<u8>>,
)
    requires
        mixed_up_to(batches, cuts, decoys, own, privacy, from),
        0 <= from < end <= own.len(),
        in_range(drawn, privacy.real_batch_range),
        end == cut_after(from, drawn, own.len() as int),
        in_range(added.len() as int, privacy.decoy_pool_range),
        holds(batch, own.subrange(from, end), added),
    ensures
        mixed_up_to(
            batches.push(batch),
            cuts.push(end),
            decoys.push(added),
            own,
            privacy,
            end,
        ),
{
    let nb = batches.push(batch);
    let nc = cuts.push(end);
    let nd = decoys.push(added);
    assert forall|b: int| 0 <= b < nb.len() implies #[trigger] batch_fits(
        nb,
        nc,
        nd,
        own,
        privacy,
        b,
    ) by {
        if b < batches.len() {
            assert(batch_fits(batches, cuts, decoys, own, privacy, b));
            assert(nc[b] == cuts[b] && nc[b + 1] == cuts[b + 1]);
        } else {
            assert(nc[b] == from && nc[b + 1] == end);
        }
    }
}

proof fn lemma_all_decoys_push(
    decoys: Seq<Seq<Seq<u8>>>,
    added: Seq<Seq<u8>>,
    allowed: spec_fn(Seq<u8>) -> bool,
)
    requires
        all_decoys(decoys, allowed),
        forall|k: int| 0 <= k < added.len() ==> allowed(#[trigger] added[k]),
    ensures
        all_decoys(decoys.push(added), allowed),
{
    let nd = decoys.push(added);
    assert forall|b: int, k: int| 0 <= b < nd.len() && 0 <= k < nd[b].len() implies allowed(
        #[trigger] nd[b][k],
    ) by {
        if b < decoys.len() {
            assert(nd[b] == decoys[b]);
            assert(allowed(decoys[b][k]));
        } else {
            assert(nd[b] == added);
            assert(allowed(added[k]));
        }
    }
}

fn plain_query_batches(own: &Vec<ScriptBuf>) -> (batches: Vec<Vec<PrivateQueryItem>>)
    requires
        own.len() > 0,
    ensures
        plain_batches(batch_views(batches@), views(own@), FALLBACK_BATCH_SIZE as int),
{
    let ghost all = views(own@);
    let mut batches: Vec<Vec<PrivateQueryItem>> = Vec::new();
    let mut offset: usize = 0;
    while offset < own.len()
        invariant
            all == views(own@),
            offset <= own.len(),
            offset == 200 * batches.len() || offset == own.len(),
            200 * (batches.len() - 1) < own.len(),
            offset <= 200 * batches.len(),
            forall|b: int|
                0 <= b < batches.len() ==> #[trigger] batch_views(batches@)[b] == as_items(
                    all.subrange(
                        200 * b,
                        if 200 * (b + 1) <= all.len() {
                            200 * (b + 1)
                        } else {
                            all.len() as int
                        },
                    ),
                    true,
                ),
        decreases own.len() - offset,
    {
        let end = next_cut(offset, FALLBACK_BATCH_SIZE, own.len());
        let batch = real_items(own, offset, end);
        let ghost before = batch_views(batches@);
        let ghost added = views(batch@);
        batches.push(batch);
        assert(batch_views(batches@) =~= before.push(added));
        offset = end;
    }
    batches
}

/// Makes query batches from a pool of decoys. Without decoys, or with decoys switched off, the
/// wallet's scripts are asked for alone.
pub fn build_private_query_batches_from_pool(
    real_scripts: &Vec<ScriptBuf>,
    decoy_pool: &Vec<ScriptBuf>,
    privacy: &PrivacyConfig,
) -> (batches: Vec<Vec<PrivateQueryItem>>)
    ensures
        real_scripts@.len() == 0 ==> batches@.len() == 0,
        real_scripts@.len() > 0 && (!privacy.enabled || decoy_pool@.len() == 0) ==> plain_batches(
            batch_views(batches@),
            views(real_scripts@),
            FALLBACK_BATCH_SIZE as int,
        ),
        real_scripts@.len() > 0 && privacy.enabled && decoy_pool@.len() > 0 ==> mixed_batches(
            batch_views(batches@),
            views(real_scripts@),
            *privacy,
            |script: Seq<u8>| views(decoy_pool@).contains(script),
        ),
{
    if real_scripts.is_empty() {
        return Vec::new();
    }
    if !privacy.enabled || decoy_pool.is_empty() {
        return plain_query_batches(real_scripts);
    }
    let ghost own = views(real_scripts@);
    let ghost allowed = |script: Seq<u8>| views(decoy_pool@).contains(script);
    let ghost mut cuts: Seq<int> = seq![0int];
    let ghost mut decoys: Seq<Seq<Seq<u8>>> = Seq::empty();
    let mut batches: Vec<Vec<PrivateQueryItem>> = Vec::new();
    let mut offset: usize = 0;
    while offset < real_scripts.len()
        invariant
            own == views(real_scripts@),
            allowed == (|script: Seq<u8>| views(decoy_pool@).contains(script)),
            decoy_pool.len() > 0,
            offset <= real_scripts.len(),
            mixed_up_to(
                batch_views(batches@),
                cuts,
                decoys,
                own,
                *privacy,
                offset as int,
            ),
            all_decoys(decoys, allowed),
        decreases real_scripts.len() - offset,
    {
        let drawn = draw_usize_inclusive(privacy.real_batch_range);
        let end = next_cut(offset, drawn, real_scripts.len());
        let mut batch = real_items(real_scripts, offset, end);
        let decoy_count = draw_usize_inclusive(privacy.decoy_pool_range);
        let chosen = draw_from_pool(decoy_pool, decoy_count);
        let ghost added = views(chosen@);
        push_decoys(&mut batch, chosen);
        shuffle_batch(&mut batch);
        let ghost before = batch_views(batches@);
        let ghost batch_view = views(batch@);
        batches.push(batch);
        proof {
            assert(batch_views(batches@) =~= before.push(batch_view));
            lemma_mixed_push(
                before,
                cuts,
                decoys,
                own,
                *privacy,
                offset as int,
                batch_view,
                end as int,
                drawn as int,
                added,
            );
            assert forall|k: int| 0 <= k < added.len() implies allowed(#[trigger] added[k]) by {
                assert(added[k] == chosen@[k]@);
            }
            lemma_all_decoys_push(decoys, added, allowed);
            cuts = cuts.push(end as int);
            decoys = decoys.push(added);
        }
        offset = end;
    }
    assert(mixed_up_to(batch_views(batches@), cuts, decoys, own, *privacy, own.len() as int));
    assert(mixed_batches(batch_views(batches@), own, *privacy, allowed));
    batches
}

/// Whether a decoy may come from a cache, or from a closure of the given kind.
pub open spec fn cached_or_derived<F: FnMut() -> Result<DecoyEntry, WalletError>>(
    before: Seq<DecoyView>,
    script: Seq<u8>,
) -> bool {
    (exists|e: DecoyView| #[trigger] before.contains(e) && e.script == script) || (exists|
        e: DecoyView,
    | #[trigger]
        derivable::<F>(e) && e.script == script)
}

/// Whether a closure of the given kind can ask for `fresh` fresh decoys among `needed`.
pub open spec fn can_draw<G: FnMut(usize) -> usize>(needed: usize, fresh: usize) -> bool {
    exists|g: G| #[trigger] call_ensures(g, (needed,), fresh)
}

/// Whether the decoys of a batch are a selection that turns one state of the cache into the next.
/// Without decoys the cache stays as it is.
pub open spec fn selected_from<
    G: FnMut(usize) -> usize,
    F: FnMut() -> Result<DecoyEntry, WalletError>,
>(cache: DecoyCache, next: DecoyCache, decoys: Seq<Seq<u8>>) -> bool {
    if decoys.len() == 0 {
        next == cache
    } else {
        next.same_limits(cache) && exists|fresh: usize|
            {
                &&& #[trigger] can_draw::<G>(decoys.len() as usize, fresh)
                &&& decoy_selection::<F>(
                    cache,
                    views(next.entries@),
                    decoys,
                    decoys.len(),
                    fresh as nat,
                )
            }
    }
}

/// Whether `caches` are the states of a cache while the decoys of each batch are selected in turn.
pub open spec fn cache_states<
    G: FnMut(usize) -> usize,
    F: FnMut() -> Result<DecoyEntry, WalletError>,
>(caches: Seq<DecoyCache>, decoys: Seq<Seq<Seq<u8>>>) -> bool {
    &&& caches.len() == decoys.len() + 1
    &&& forall|b: int|
        0 <= b < decoys.len() ==> selected_from::<G, F>(
            caches[b],
            caches[b + 1],
            #[trigger] decoys[b],
        )
}

/// Whether batches ask for every script of the wallet, cut by cut, each mixed with the decoys that a
/// selection from the cache gave, one selection after the other.
pub open spec fn batches_from_cache<
    G: FnMut(usize) -> usize,
    F: FnMut() -> Result<DecoyEntry, WalletError>,
>(
    batches: Seq<Seq<ItemView>>,
    own: Seq<Seq<u8>>,
    privacy: PrivacyConfig,
    before: DecoyCache,
    after: DecoyCache,
) -> bool {
    exists|cuts: Seq<int>, decoys: Seq<Seq<Seq<u8>>>, caches: Seq<DecoyCache>|
        {
            &&& #[trigger] mixed_up_to(batches, cuts, decoys, own, privacy, own.len() as int)
            &&& #[trigger] cache_states::<G, F>(caches, decoys)
            &&& caches[0] == before
            &&& caches[caches.len() - 1] == after
        }
}

/// What the cache is left as where a fresh decoy for a batch cannot be derived: after the selections for
/// the batches before it, one more selection broke off.
pub open spec fn batches_broken_off<
    G: FnMut(usize) -> usize,
    F: FnMut() -> Result<DecoyEntry, WalletError>,
>(privacy: PrivacyConfig, before: DecoyCache, after: DecoyCache) -> bool {
    exists|caches: Seq<DecoyCache>, decoys: Seq<Seq<Seq<u8>>>, needed: usize, fresh: usize|
        {
            &&& #[trigger] cache_states::<G, F>(caches, decoys)
            &&& caches[0] == before
            &&& in_range(needed as int, privacy.decoy_pool_range)
            &&& #[trigger] can_draw::<G>(needed, fresh)
            &&& decoy_selection_failed::<F>(
                caches[caches.len() - 1],
                views(after.entries@),
                needed as nat,
                fresh as nat,
            )
        }
}

/// Makes query batches with decoys from the wallet's cache. `draw_fresh` says how many of a
/// number of decoys shall be fresh, and `derive_fresh_decoy` makes them.
pub fn build_private_query_batches<
    G: FnMut(usize) -> usize,
    F: FnMut() -> Result<DecoyEntry, WalletError>,
>(
    real_scripts: &Vec<ScriptBuf>,
    decoy_cache: &mut DecoyCache,
    privacy: &PrivacyConfig,
    draw_fresh: &mut G,
    derive_fresh_decoy: &mut F,
) -> (result: Result<Vec<Vec<PrivateQueryItem>>, WalletError>)
    requires
        forall|g: G, n: usize| #[trigger] call_requires(g, (n,)),
        forall|g: F| #[trigger] call_requires(g, ()),
    ensures
        final(decoy_cache).same_limits(*old(decoy_cache)),
        real_scripts@.len() == 0 ==> result is Ok && result->Ok_0@.len() == 0,
        real_scripts@.len() > 0 && !privacy.enabled ==> result is Ok && batch_views(
            result->Ok_0@,
        ) == seq![as_items(views(real_scripts@), true)],
        real_scripts@.len() == 0 || !privacy.enabled ==> *final(decoy_cache) == *old(decoy_cache)
            && *final(draw_fresh) == *old(draw_fresh) && *final(derive_fresh_decoy) == *old(
            derive_fresh_decoy,
        ),
        real_scripts@.len() > 0 && privacy.enabled ==> match result {
            Ok(batches) => {
                &&& mixed_batches(
                    batch_views(batches@),
                    views(real_scripts@),
                    *privacy,
                    |script: Seq<u8>|
                        cached_or_derived::<F>(views(old(decoy_cache).entries@), script),
                )
                &&& batches_from_cache::<G, F>(
                    batch_views(batches@),
                    views(real_scripts@),
                    *privacy,
                    *old(decoy_cache),
                    *final(decoy_cache),
                )
                &&& *final(decoy_cache) == *old(decoy_cache) || final(decoy_cache).entries@.len()
                    <= old(decoy_cache).max_cache_size
            },
            Err(e) => can_fail::<F>(e) && batches_broken_off::<G, F>(
                *privacy,
                *old(decoy_cache),
                *final(decoy_cache),
            ),
        },
        forall|i: int|
            0 <= i < final(decoy_cache).entries@.len() ==> cached_or_derived::<F>(
                views(old(decoy_cache).entries@),
                (#[trigger] views(final(decoy_cache).entries@)[i]).script,
            ),
{
    let ghost own = views(real_scripts@);
    proof {
        lemma_own_entries::<F>(views(decoy_cache.entries@));
    }
    if real_scripts.is_empty() {
        return Ok(Vec::new());
    }
    let mut batches: Vec<Vec<PrivateQueryItem>> = Vec::new();
    if !privacy.enabled {
        let batch = real_items(real_scripts, 0, real_scripts.len());
        let ghost batch_view = views(batch@);
        batches.push(batch);
        proof {
            assert(own.subrange(0, own.len() as int) =~= own);
            assert(batch_views(batches@) =~= seq![batch_view]);
        }
        return Ok(batches);
    }
    let ghost before = views(decoy_cache.entries@);
    let ghost allowed = |script: Seq<u8>| cached_or_derived::<F>(before, script);
    let ghost mut cuts: Seq<int> = seq![0int];
    let ghost mut decoys: Seq<Seq<Seq<u8>>> = Seq::empty();
    let ghost mut caches: Seq<DecoyCache> = seq![*decoy_cache];
    let mut offset: usize = 0;
    proof {
        assert forall|i: int| 0 <= i < before.len() implies allowed((#[trigger] before[i]).script) by {
            assert(before.contains(before[i]));
        }
    }
    while offset < real_scripts.len()
        invariant
            own == views(real_scripts@),
            before == views(old(decoy_cache).entries@),
            allowed == (|script: Seq<u8>| cached_or_derived::<F>(before, script)),
            privacy.enabled,
            real_scripts@.len() > 0,
            forall|g: G, n: usize| #[trigger] call_requires(g, (n,)),
            forall|g: F| #[trigger] call_requires(g, ()),
            decoy_cache.same_limits(*old(decoy_cache)),
            cache_states::<G, F>(caches, decoys),
            caches[0] == *old(decoy_cache),
            caches[caches.len() - 1] == *decoy_cache,
            *decoy_cache == *old(decoy_cache) || decoy_cache.entries@.len()
                <= old(decoy_cache).max_cache_size,
            offset <= real_scripts.len(),
            mixed_up_to(batch_views(batches@), cuts, decoys, own, *privacy, offset as int),
            all_decoys(decoys, allowed),
            forall|i: int|
                0 <= i < decoy_cache.entries@.len() ==> allowed(
                    (#[trigger] views(decoy_cache.entries@)[i]).script,
                ),
        decreases real_scripts.len() - offset,
    {
        let drawn = draw_usize_inclusive(privacy.real_batch_range);
        let end = next_cut(offset, drawn, real_scripts.len());
        let mut batch = real_items(real_scripts, offset, end);
        let decoy_count = draw_usize_inclusive(privacy.decoy_pool_range);
        let fresh_count = draw_fresh(decoy_count);
        let ghost cache = *decoy_cache;
        let selected = decoy_cache.select_decoys_for_batch(
            decoy_count,
            fresh_count,
            derive_fresh_decoy,
        );
        assert(can_draw::<G>(decoy_count, fresh_count));
        let chosen = match selected {
            Ok(chosen) => chosen,
            Err(e) => {
                proof {
                    lemma_failure_sources::<F>(
                        cache,
                        views(decoy_cache.entries@),
                        decoy_count as nat,
                        fresh_count as nat,
                        before,
                    );
                }
                return Err(e);
            },
        };
        let ghost added = views(chosen@);
        proof {
            if decoy_count > 0 {
                law_selection_bounds_cache::<F>(
                    cache,
                    views(decoy_cache.entries@),
                    added,
                    decoy_count as nat,
                    fresh_count as nat,
                );
                lemma_selection_sources::<F>(
                    cache,
                    views(decoy_cache.entries@),
                    added,
                    decoy_count as nat,
                    fresh_count as nat,
                    before,
                );
            }
        }
        push_decoys(&mut batch, chosen);
        shuffle_batch(&mut batch);
        let ghost earlier = batch_views(batches@);
        let ghost batch_view = views(batch@);
        batches.push(batch);
        proof {
            assert(batch_views(batches@) =~= earlier.push(batch_view));
            lemma_mixed_push(
                earlier,
                cuts,
                decoys,
                own,
                *privacy,
                offset as int,
                batch_view,
                end as int,
                drawn as int,
                added,
            );
            lemma_all_decoys_push(decoys, added, allowed);
            assert(added.len() == decoy_count);
            assert(can_draw::<G>(added.len() as usize, fresh_count));
            assert(selected_from::<G, F>(cache, *decoy_cache, added));
            lemma_states_push::<G, F>(caches, decoys, *decoy_cache, added);
            caches = caches.push(*decoy_cache);
            cuts = cuts.push(end as int);
            decoys = decoys.push(added);
        }
        offset = end;
    }
    assert(mixed_up_to(batch_views(batches@), cuts, decoys, own, *privacy, own.len() as int));
    assert(mixed_batches(batch_views(batches@), own, *privacy, allowed));
    Ok(batches)
}

proof fn lemma_own_entries<F: FnMut() -> Result<DecoyEntry, WalletError>>(entries: Seq<DecoyView>)
    ensures
        forall|i: int|
            0 <= i < entries.len() ==> cached_or_derived::<F>(
                entries,
                (#[trigger] entries[i]).script,
            ),
{
    assert forall|i: int| 0 <= i < entries.len() implies cached_or_derived::<F>(
        entries,
        (#[trigger] entries[i]).script,
    ) by {
        assert(entries.contains(entries[i]));
    }
}

proof fn lemma_states_push<
    G: FnMut(usize) -> usize,
    F: FnMut() -> Result<DecoyEntry, WalletError>,
>(caches: Seq<DecoyCache>, decoys: Seq<Seq<Seq<u8>>>, next: DecoyCache, added: Seq<Seq<u8>>)
    requires
        cache_states::<G, F>(caches, decoys),
        selected_from::<G, F>(caches[caches.len() - 1], next, added),
    ensures
        cache_states::<G, F>(caches.push(next), decoys.push(added)),
{
    let more = decoys.push(added);
    let states = caches.push(next);
    assert forall|b: int| 0 <= b < more.len() implies selected_from::<G, F>(
        states[b],
        states[b + 1],
        #[trigger] more[b],
    ) by {
        if b < decoys.len() {
            assert(more[b] == decoys[b]);
        }
    }
}

proof fn lemma_failure_sources<F: FnMut() -> Result<DecoyEntry, WalletError>>(
    cache: DecoyCache,
    after: Seq<DecoyView>,
    needed: nat,
    fresh_count: nat,
    before: Seq<DecoyView>,
)
    requires
        decoy_selection_failed::<F>(cache, after, needed, fresh_count),
        forall|i: int|
            0 <= i < cache.entries@.len() ==> cached_or_derived::<F>(
                before,
                (#[trigger] views(cache.entries@)[i]).script,
            ),
    ensures
        forall|i: int|
            0 <= i < after.len() ==> cached_or_derived::<F>(before, (#[trigger] after[i]).script),
{
    let (now, order, fresh) = choose|now: u64, order: Seq<usize>, fresh: Seq<DecoyView>|
        {
            &&& #[trigger] selection_broken_off(
                cache,
                after,
                needed,
                fresh_count,
                now,
                order,
                fresh,
            )
            &&& freshly_derived::<F>(fresh, cache.retire_after_uses_range)
        };
    let all = views(cache.entries@);
    let live = alive_entries(all, now, cache.max_age_secs);
    let pred = |e: DecoyView| e.alive(now, cache.max_age_secs);
    assert forall|i: int| 0 <= i < after.len() implies cached_or_derived::<F>(
        before,
        (#[trigger] after[i]).script,
    ) by {
        if i < live.len() {
            assert(after[i] == after_reuse(live, order)[i]);
            all.lemma_filter_contains_rev(pred, live[i]);
            let j = choose|j: int| 0 <= j < all.len() && all[j] == live[i];
            assert(cached_or_derived::<F>(before, all[j].script));
        } else {
            let made = choose|made: DecoyView| #[trigger]
                derivable::<F>(made) && fresh[i - live.len()] == made.with_limit(
                    fresh[i - live.len()].retire_after_uses,
                );
            assert(fresh[i - live.len()] == after[i]);
            assert(derivable::<F>(made) && made.script == after[i].script);
        }
    }
}

proof fn lemma_selection_sources<F: FnMut() -> Result<DecoyEntry, WalletError>>(
    cache: DecoyCache,
    after: Seq<DecoyView>,
    scripts: Seq<Seq<u8>>,
    needed: nat,
    fresh_count: nat,
    before: Seq<DecoyView>,
)
    requires
        decoy_selection::<F>(cache, after, scripts, needed, fresh_count),
        forall|i: int|
            0 <= i < cache.entries@.len() ==> cached_or_derived::<F>(
                before,
                (#[trigger] views(cache.entries@)[i]).script,
            ),
    ensures
        scripts.len() == needed,
        forall|k: int|
            0 <= k < scripts.len() ==> cached_or_derived::<F>(before, #[trigger] scripts[k]),
        forall|i: int|
            0 <= i < after.len() ==> cached_or_derived::<F>(before, (#[trigger] after[i]).script),
{
    let all = views(cache.entries@);
    law_selection_gives_needed::<F>(cache, after, scripts, needed, fresh_count);
    assert forall|k: int| 0 <= k < scripts.len() implies cached_or_derived::<F>(
        before,
        #[trigger] scripts[k],
    ) by {
        law_selection_from_live_or_fresh::<F>(cache, after, scripts, needed, fresh_count, k);
        if exists|e: DecoyView, now: u64|
            {
                &&& all.contains(e)
                &&& #[trigger] e.alive(now, cache.max_age_secs)
                &&& e.script == scripts[k]
            } {
            let (e, now) = choose|e: DecoyView, now: u64|
                {
                    &&& all.contains(e)
                    &&& #[trigger] e.alive(now, cache.max_age_secs)
                    &&& e.script == scripts[k]
                };
            let i = choose|i: int| 0 <= i < all.len() && all[i] == e;
            assert(cached_or_derived::<F>(before, all[i].script));
        }
    }
    assert forall|i: int| 0 <= i < after.len() implies cached_or_derived::<F>(
        before,
        (#[trigger] after[i]).script,
    ) by {
        law_cache_holds_cached_or_fresh::<F>(cache, after, scripts, needed, fresh_count, i);
        if exists|e: DecoyView| #[trigger] all.contains(e) && e.script == after[i].script {
            let e = choose|e: DecoyView| #[trigger] all.contains(e) && e.script == after[i].script;
            let j = choose|j: int| 0 <= j < all.len() && all[j] == e;
            assert(cached_or_derived::<F>(before, all[j].script));
        }
    }
}

/// How often a list of batches asks for an item.
pub open spec fn times_asked(batches: Seq<Seq<ItemView>>, item: ItemView) -> nat
    decreases batches.len(),
{
    if batches.len() == 0 {
        0
    } else {
        times_asked(batches.drop_last(), item) + batches.last().to_multiset().count(item)
    }
}

proof fn lemma_item_count(scripts: Seq<Seq<u8>>, script: Seq<u8>, is_real: bool)
    ensures
        as_items(scripts, is_real).to_multiset().count((script, is_real))
            == scripts.to_multiset().count(script),
        as_items(scripts, is_real).to_multiset().count((script, !is_real)) == 0,
    decreases scripts.len(),
{
    broadcast use vstd::seq_lib::group_to_multiset_ensures;

    if scripts.len() == 0 {
        assert(as_items(scripts, is_real) =~= Seq::<ItemView>::empty());
        assert(scripts =~= Seq::<Seq<u8>>::empty());
    } else {
        let shorter = scripts.drop_last();
        lemma_item_count(shorter, script, is_real);
        assert(scripts =~= shorter.push(scripts.last()));
        assert(as_items(scripts, is_real) =~= as_items(shorter, is_real).push(
            (scripts.last(), is_real),
        ));
    }
}

proof fn lemma_asked_up_to(
    batches: Seq<Seq<ItemView>>,
    cuts: Seq<int>,
    decoys: Seq<Seq<Seq<u8>>>,
    own: Seq<Seq<u8>>,
    privacy: PrivacyConfig,
    n: int,
    script: Seq<u8>,
)
    requires
        cuts.len() == batches.len() + 1,
        cuts[0] == 0,
        forall|b: int|
            0 <= b < batches.len() ==> #[trigger] batch_fits(
                batches,
                cuts,
                decoys,
                own,
                privacy,
                b,
            ),
        0 <= n <= batches.len(),
    ensures
        0 <= cuts[n] <= own.len(),
        times_asked(batches.take(n), (script, true)) == own.take(cuts[n]).to_multiset().count(
            script,
        ),
    decreases n,
{
    if n == 0 {
        assert(own.take(0) =~= Seq::<Seq<u8>>::empty());
        broadcast use vstd::seq_lib::group_to_multiset_ensures;

        assert(own.take(0).to_multiset().count(script) == 0);
    } else {
        lemma_asked_up_to(batches, cuts, decoys, own, privacy, n - 1, script);
        assert(batch_fits(batches, cuts, decoys, own, privacy, n - 1));
        let from = cuts[n - 1];
        let end = cuts[n - 1 + 1];
        let reals = own.subrange(from, end);
        let a = as_items(reals, true);
        let d = as_items(decoys[n - 1], false);
        lemma_multiset_commutative(a, d);
        lemma_item_count(reals, script, true);
        lemma_item_count(decoys[n - 1], script, false);
        lemma_multiset_commutative(own.take(from), reals);
        assert(own.take(from) + reals =~= own.take(end));
        assert(batches.take(n).drop_last() =~= batches.take(n - 1));
        assert(batches.take(n).last() == batches[n - 1]);
    }
}

/// Batches with decoys ask for every script of the wallet, each exactly as often as the wallet
/// lists it.
pub proof fn law_every_own_script_asked_once(
    batches: Seq<Seq<ItemView>>,
    own: Seq<Seq<u8>>,
    privacy: PrivacyConfig,
    allowed: spec_fn(Seq<u8>) -> bool,
    script: Seq<u8>,
)
    requires
        mixed_batches(batches, own, privacy, allowed),
    ensures
        times_asked(batches, (script, true)) == own.to_multiset().count(script),
{
    let (cuts, decoys) = choose|cuts: Seq<int>, decoys: Seq<Seq<Seq<u8>>>| #[trigger]
        mixed_up_to(batches, cuts, decoys, own, privacy, own.len() as int) && all_decoys(
            decoys,
            allowed,
        );
    lemma_asked_up_to(batches, cuts, decoys, own, privacy, batches.len() as int, script);
    assert(batches.take(batches.len() as int) =~= batches);
    assert(own.take(own.len() as int) =~= own);
}

proof fn lemma_plain_asked_up_to(
    batches: Seq<Seq<ItemView>>,
    own: Seq<Seq<u8>>,
    size: int,
    n: int,
    script: Seq<u8>,
)
    requires
        plain_batches(batches, own, size),
        size > 0,
        0 <= n <= batches.len(),
    ensures
        times_asked(batches.take(n), (script, true)) == own.take(
            if size * n <= own.len() {
                size * n
            } else {
                own.len() as int
            },
        ).to_multiset().count(script),
    decreases n,
{
    broadcast use vstd::seq_lib::group_to_multiset_ensures;

    if n == 0 {
        assert(batches.take(0) =~= Seq::<Seq<ItemView>>::empty());
        assert(own.take(0) =~= Seq::<Seq<u8>>::empty());
        assert(size * n == 0) by (nonlinear_arith)
            requires
                n == 0,
        ;
    } else {
        let b = n - 1;
        lemma_plain_asked_up_to(batches, own, size, b, script);
        let last = batches.len() - 1;
        assert(0 <= size * b <= size * last && size * b <= size * n) by (nonlinear_arith)
            requires
                size > 0,
                0 <= b <= last,
                n == b + 1,
        ;
        let from = size * b;
        let to = if size * n <= own.len() {
            size * n
        } else {
            own.len() as int
        };
        assert(batches.take(n).drop_last() =~= batches.take(b));
        assert(batches.take(n).last() == batches[b]);
        let part = own.subrange(from, to);
        assert(batches[b] == as_items(part, true));
        lemma_item_count(part, script, true);
        assert(own.take(to) =~= own.take(from) + part);
        lemma_multiset_commutative(own.take(from), part);
    }
}

/// Batches without decoys ask for every script of the wallet, as often as the wallet holds it.
pub proof fn law_plain_batches_ask_once(
    batches: Seq<Seq<ItemView>>,
    own: Seq<Seq<u8>>,
    size: int,
    script: Seq<u8>,
)
    requires
        plain_batches(batches, own, size),
        size > 0,
    ensures
        times_asked(batches, (script, true)) == own.to_multiset().count(script),
{
    lemma_plain_asked_up_to(batches, own, size, batches.len() as int, script);
    assert(batches.take(batches.len() as int) =~= batches);
    assert(own.take(own.len() as int) =~= own);
}

/// Whatever batches with decoys ask for beyond the wallet's scripts is marked as a decoy, and is
/// one of the decoys that were allowed; every batch has as many as the configuration asks for.
pub proof fn law_decoys_are_marked(
    batches: Seq<Seq<ItemView>>,
    own: Seq<Seq<u8>>,
    privacy: PrivacyConfig,
    allowed: spec_fn(Seq<u8>) -> bool,
    b: int,
    item: ItemView,
)
    requires
        mixed_batches(batches, own, privacy, allowed),
        0 <= b < batches.len(),
        batches[b].contains(item),
    ensures
        item.1 ==> own.contains(item.0),
        !item.1 ==> allowed(item.0),
        exists|count: int| #[trigger]
            in_range(count, privacy.decoy_pool_range) && batches[b].len() >= count,
{
    broadcast use vstd::seq_lib::group_to_multiset_ensures;

    let (cuts, decoys) = choose|cuts: Seq<int>, decoys: Seq<Seq<Seq<u8>>>| #[trigger]
        mixed_up_to(batches, cuts, decoys, own, privacy, own.len() as int) && all_decoys(
            decoys,
            allowed,
        );
    assert(batch_fits(batches, cuts, decoys, own, privacy, b));
    let reals = own.subrange(cuts[b], cuts[b + 1]);
    let both = as_items(reals, true) + as_items(decoys[b], false);
    assert(batches[b].to_multiset().count(item) > 0);
    assert(both.contains(item));
    let k = choose|k: int| 0 <= k < both.len() && both[k] == item;
    if k < reals.len() {
        assert(own[cuts[b] + k] == item.0);
    } else {
        assert(decoys[b][k - reals.len()] == item.0);
    }
    assert(batches[b].len() == batches[b].to_multiset().len());
    assert(both.len() == both.to_multiset().len());
    assert(in_range(decoys[b].len() as int, privacy.decoy_pool_range));
}

/// Batches without decoys ask for the wallet's scripts alone, in order, none left out.
pub proof fn law_plain_batches_ask_for_own(
    batches: Seq<Seq<ItemView>>,
    own: Seq<Seq<u8>>,
    size: int,
    i: int,
)
    requires
        plain_batches(batches, own, size),
        size > 0,
        0 <= i < own.len(),
    ensures
        i / size < batches.len(),
        batches[i / size][i % size] == (own[i], true),
        forall|b: int, k: int|
            0 <= b < batches.len() && 0 <= k < batches[b].len() ==> (#[trigger] batches[b][k]).1,
{
    let b = i / size;
    vstd::arithmetic::div_mod::lemma_fundamental_div_mod(i, size);
    vstd::arithmetic::div_mod::lemma_mod_bound(i, size);
    let n = batches.len() as int;
    assert(b < n) by (nonlinear_arith)
        requires
            i < size * n,
            i == size * b + i % size,
            0 <= i % size,
            size > 0,
    ;
    assert(b >= 0) by (nonlinear_arith)
        requires
            i == size * b + i % size,
            i % size < size,
            i >= 0,
            size > 0,
    ;
    assert(size * b >= 0) by (nonlinear_arith)
        requires
            b >= 0,
            size > 0,
    ;
    assert(size * (b + 1) == size * b + size) by (nonlinear_arith);
    assert(batches[b].len() > i % size);
    assert forall|c: int, k: int| 0 <= c < batches.len() && 0 <= k < batches[c].len() implies (
    #[trigger] batches[c][k]).1 by {
        assert(batches[c] == as_items(
            own.subrange(
                size * c,
                if size * (c + 1) <= own.len() {
                    size * (c + 1)
                } else {
                    own.len() as int
                },
            ),
            true,
        ));
    }
}

/// Draws the number of uses after which a new decoy is retired.
pub fn random_retire_after_uses(config: &PrivacyConfig) -> (uses: u32)
    ensures
        config.retire_after_uses_range.0 <= uses <= config.retire_after_uses_range.1
            || config.retire_after_uses_range.1 <= uses <= config.retire_after_uses_range.0,
{
    draw_u32_inclusive(config.retire_after_uses_range)
}

/// Every batch with decoys holds some of the wallet's scripts, and no more than the settings allow; the rest of it
/// is as many decoys as the settings ask for.
pub proof fn law_batches_have_the_sizes_asked_for(
    batches: Seq<Seq<ItemView>>,
    own: Seq<Seq<u8>>,
    privacy: PrivacyConfig,
    allowed: spec_fn(Seq<u8>) -> bool,
    b: int,
)
    requires
        mixed_batches(batches, own, privacy, allowed),
        0 <= b < batches.len(),
        privacy.real_batch_range.0 <= privacy.real_batch_range.1,
        privacy.decoy_pool_range.0 <= privacy.decoy_pool_range.1,
    ensures
        exists|reals: int, decoys: int|
            {
                &&& 1 <= reals <= own.len()
                &&& reals <= privacy.real_batch_range.1 || reals == 1
                &&& b < batches.len() - 1 ==> reals >= privacy.real_batch_range.0
                &&& privacy.decoy_pool_range.0 <= decoys <= privacy.decoy_pool_range.1
                &&& batches[b].len() == #[trigger] (reals + decoys)
            },
{
    broadcast use vstd::seq_lib::group_to_multiset_ensures;

    let (cuts, decoys) = choose|cuts: Seq<int>, decoys: Seq<Seq<Seq<u8>>>| #[trigger]
        mixed_up_to(batches, cuts, decoys, own, privacy, own.len() as int) && all_decoys(
            decoys,
            allowed,
        );
    assert(batch_fits(batches, cuts, decoys, own, privacy, b));
    let drawn = choose|drawn: int| #[trigger]
        in_range(drawn, privacy.real_batch_range) && cuts[b + 1] == cut_after(
            cuts[b],
            drawn,
            own.len() as int,
        );
    if b < batches.len() - 1 {
        assert(batch_fits(batches, cuts, decoys, own, privacy, b + 1));
    }
    let reals = own.subrange(cuts[b], cuts[b + 1]);
    let both = as_items(reals, true) + as_items(decoys[b], false);
    assert(batches[b].len() == batches[b].to_multiset().len());
    assert(both.len() == both.to_multiset().len());
    assert(batches[b].len() == reals.len() + decoys[b].len());
}

/// Without decoys every batch but the last asks for 200 scripts.
#[verifier::spinoff_prover]
pub proof fn law_plain_batches_are_full(batches: Seq<Seq<ItemView>>, own: Seq<Seq<u8>>, b: int)
    requires
        plain_batches(batches, own, FALLBACK_BATCH_SIZE as int),
        0 <= b < batches.len(),
    ensures
        b < batches.len() - 1 ==> batches[b].len() == 200,
        1 <= batches[b].len() <= 200,
        batches.len() == (own.len() + 199) / 200,
{
    let size = FALLBACK_BATCH_SIZE as int;
    let n = batches.len() as int;
    assert(size == 200);
    assert(200 * (n - 1) < own.len() <= 200 * n);
    let end = if 200 * (b + 1) <= own.len() {
        200 * (b + 1)
    } else {
        own.len() as int
    };
    assert(batches[b] == as_items(own.subrange(200 * b, end), true));
    assert(200 * b <= 200 * (n - 1));
    assert(batches[b].len() == end - 200 * b);
    if b < n - 1 {
        assert(200 * (b + 1) <= 200 * (n - 1));
    }
}

} // verus!
