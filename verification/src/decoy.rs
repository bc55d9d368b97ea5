//! Decoy scripts, which hide the wallet's own scripts in the queries to an Electrum server.
use vstd::prelude::*;
use crate::bytes::{views, ScriptBuf};
use crate::clock::now_unix_secs;
use crate::error::WalletError;
use crate::primitives::AddressType;
use crate::random::{draw_u32_inclusive, shuffle};

verus! {

/// How the wallet's scripts are mixed with decoys before an Electrum server is asked for them.
#[derive(Debug, PartialEq, Eq)]
pub struct PrivacyConfig {
    /// Whether decoys are used at all.
    pub enabled: bool,
    /// The number of decoys per query batch.
    pub decoy_pool_range: (usize, usize),
    /// The number of the wallet's own scripts per query batch.
    pub real_batch_range: (usize, usize),
    /// The largest number of decoys that the wallet keeps.
    pub max_decoy_cache_size: usize,
    /// The part of the decoys that is replaced by fresh ones each time: two fractions, each as
    /// the bits of its IEEE 754 double.
    pub decoy_rotation_range: (u64, u64),
    /// The age at which a decoy is retired, in seconds.
    pub max_decoy_age_secs: u64,
    /// How often a decoy is used before it is retired.
    pub retire_after_uses_range: (u32, u32),
}

impl Clone for PrivacyConfig {
    fn clone(&self) -> (copy: Self)
        ensures
            copy == *self,
    {
        PrivacyConfig {
            enabled: self.enabled,
            decoy_pool_range: self.decoy_pool_range,
            real_batch_range: self.real_batch_range,
            max_decoy_cache_size: self.max_decoy_cache_size,
            decoy_rotation_range: self.decoy_rotation_range,
            max_decoy_age_secs: self.max_decoy_age_secs,
            retire_after_uses_range: self.retire_after_uses_range,
        }
    }
}

/// The settings that hold where none are given.
pub open spec fn default_privacy() -> PrivacyConfig {
    PrivacyConfig {
        enabled: true,
        decoy_pool_range: (34, 67),
        real_batch_range: (3, 9),
        max_decoy_cache_size: 500,
        decoy_rotation_range: (0x3FD147AE147AE148, 0x3FE0F5C28F5C28F6),
        max_decoy_age_secs: 259200,
        retire_after_uses_range: (5, 15),
    }
}

impl Default for PrivacyConfig {
    fn default() -> (config: Self)
        ensures
            config == default_privacy(),
    {
        PrivacyConfig {
            enabled: true,
            decoy_pool_range: (34, 67),
            real_batch_range: (3, 9),
            max_decoy_cache_size: 500,
            // 0.27 and 0.53
            decoy_rotation_range: (0x3FD147AE147AE148, 0x3FE0F5C28F5C28F6),
            max_decoy_age_secs: 3 * 24 * 60 * 60,
            retire_after_uses_range: (5, 15),
        }
    }
}

/// A decoy that the wallet keeps: a script of its own seed that is asked for as cover only.
#[derive(Debug, PartialEq, Eq)]
pub struct DecoyEntry {
    /// The script that is asked for.
    pub script: ScriptBuf,
    /// The index that it was derived at.
    pub hd_index: u32,
    /// Its address type.
    pub address_type: AddressType,
    /// Whether it was derived on the change chain.
    pub is_internal: bool,
    /// The number of query batches that it has been in.
    pub times_used: u32,
    /// When it was made, in seconds since the Unix epoch.
    pub created_at: u64,
    /// The number of uses after which it is retired.
    pub retire_after_uses: u32,
}

/// A decoy as a mathematical value.
pub struct DecoyView {
    pub script: Seq<u8>,
    pub hd_index: u32,
    pub address_type: AddressType,
    pub is_internal: bool,
    pub times_used: u32,
    pub created_at: u64,
    pub retire_after_uses: u32,
}

impl View for DecoyEntry {
    type V = DecoyView;

    open spec fn view(&self) -> DecoyView {
        DecoyView {
            script: self.script@,
            hd_index: self.hd_index,
            address_type: self.address_type,
            is_internal: self.is_internal,
            times_used: self.times_used,
            created_at: self.created_at,
            retire_after_uses: self.retire_after_uses,
        }
    }
}

impl Clone for DecoyEntry {
    fn clone(&self) -> (copy: Self)
        ensures
            copy@ == self@,
    {
        DecoyEntry {
            script: self.script.clone(),
            hd_index: self.hd_index,
            address_type: self.address_type,
            is_internal: self.is_internal,
            times_used: self.times_used,
            created_at: self.created_at,
            retire_after_uses: self.retire_after_uses,
        }
    }
}

impl DecoyEntry {
    /// A decoy that has not been used yet, made now. What the clock reads is left open.
    pub fn new(
        script: ScriptBuf,
        hd_index: u32,
        address_type: AddressType,
        is_internal: bool,
        retire_after_uses: u32,
    ) -> (entry: Self)
        ensures
            entry@ == (DecoyView {
                script: script@,
                hd_index,
                address_type,
                is_internal,
                times_used: 0,
                created_at: entry.created_at,
                retire_after_uses,
            }),
    {
        DecoyEntry::new_at(
            script,
            hd_index,
            address_type,
            is_internal,
            retire_after_uses,
            now_unix_secs(),
        )
    }

    /// A decoy that has not been used yet, made at the given time.
    pub fn new_at(
        script: ScriptBuf,
        hd_index: u32,
        address_type: AddressType,
        is_internal: bool,
        retire_after_uses: u32,
        created_at: u64,
    ) -> (entry: Self)
        ensures
            entry@ == (DecoyView {
                script: script@,
                hd_index,
                address_type,
                is_internal,
                times_used: 0,
                created_at,
                retire_after_uses,
            }),
    {
        DecoyEntry {
            script,
            hd_index,
            address_type,
            is_internal,
            times_used: 0,
            created_at,
            retire_after_uses,
        }
    }
}

/// The seconds from `then` to `now`, none where `then` is later.
pub open spec fn age_at(then: u64, now: u64) -> u64 {
    if now >= then {
        (now - then) as u64
    } else {
        0
    }
}

impl DecoyView {
    /// Whether the decoy may still be used.
    pub open spec fn alive(self, now: u64, max_age: u64) -> bool {
        self.times_used < self.retire_after_uses && age_at(self.created_at, now) < max_age
    }

    /// The decoy after one more use.
    pub open spec fn used_once_more(self) -> DecoyView {
        DecoyView {
            times_used: if self.times_used < u32::MAX {
                (self.times_used + 1) as u32
            } else {
                u32::MAX
            },
            ..self
        }
    }

    /// The decoy with another limit on its uses.
    pub open spec fn with_limit(self, retire_after_uses: u32) -> DecoyView {
        DecoyView { retire_after_uses, ..self }
    }

    /// How ready the decoy is to go: a thousand for each use, and one for each second of age.
    pub open spec fn staleness(self, now: u64) -> int {
        self.times_used * 1000 + age_at(self.created_at, now)
    }
}

/// The decoys of a cache that may still be used.
pub open spec fn alive_entries(entries: Seq<DecoyView>, now: u64, max_age: u64) -> Seq<DecoyView> {
    entries.filter(|e: DecoyView| e.alive(now, max_age))
}

/// A cache after the decoys at the given positions have been used once more.
pub open spec fn after_reuse(entries: Seq<DecoyView>, order: Seq<usize>) -> Seq<DecoyView> {
    Seq::new(
        entries.len(),
        |i: int|
            if order.contains(i as usize) {
                entries[i].used_once_more()
            } else {
                entries[i]
            },
    )
}

/// The scripts of the decoys at the given positions.
pub open spec fn scripts_at(entries: Seq<DecoyView>, order: Seq<usize>) -> Seq<Seq<u8>> {
    Seq::new(order.len(), |k: int| entries[order[k] as int].script)
}

/// The scripts of a list of decoys.
pub open spec fn decoy_scripts(entries: Seq<DecoyView>) -> Seq<Seq<u8>> {
    Seq::new(entries.len(), |k: int| entries[k].script)
}

/// Whether `order` names `count` different positions below `len`.
pub open spec fn is_choice(order: Seq<usize>, len: nat, count: nat) -> bool {
    &&& order.len() == count
    &&& order.no_duplicates()
    &&& forall|k: int| 0 <= k < order.len() ==> (#[trigger] order[k]) < len
}

/// The position of the stalest of the first `n` decoys, the last one where several are.
pub open spec fn stalest(entries: Seq<DecoyView>, n: nat, now: u64) -> int
    decreases n,
{
    if n <= 1 {
        0
    } else {
        let before = stalest(entries, (n - 1) as nat, now);
        if entries[n - 1].staleness(now) >= entries[before].staleness(now) {
            n - 1
        } else {
            before
        }
    }
}

/// A list without the item at position `i`, with the last item in its place.
pub open spec fn swap_removed<T>(items: Seq<T>, i: int) -> Seq<T> {
    Seq::new(
        (items.len() - 1) as nat,
        |k: int|
            if k == i {
                items.last()
            } else {
                items[k]
            },
    )
}

/// A cache after its stalest decoys have gone, one after the other, until `max` are left.
pub open spec fn trimmed(entries: Seq<DecoyView>, max: nat, now: u64) -> Seq<DecoyView>
    decreases entries.len(),
{
    if entries.len() <= max {
        entries
    } else {
        trimmed(swap_removed(entries, stalest(entries, entries.len(), now)), max, now)
    }
}

proof fn lemma_stalest_range(entries: Seq<DecoyView>, n: nat, now: u64)
    requires
        n > 0,
    ensures
        0 <= stalest(entries, n, now) < n,
    decreases n,
{
    if n > 1 {
        lemma_stalest_range(entries, (n - 1) as nat, now);
    }
}

/// Trimming leaves no more than the limit, and leaves a cache within its limit as it is.
pub proof fn law_trim_bounds_cache(entries: Seq<DecoyView>, max: nat, now: u64)
    ensures
        trimmed(entries, max, now).len() == if entries.len() <= max {
            entries.len()
        } else {
            max
        },
    decreases entries.len(),
{
    if entries.len() > max {
        law_trim_bounds_cache(
            swap_removed(entries, stalest(entries, entries.len(), now)),
            max,
            now,
        );
    }
}

/// Trimming keeps no decoy that was not there, so it removes and never adds.
pub proof fn law_trim_keeps_members(entries: Seq<DecoyView>, max: nat, now: u64, e: DecoyView)
    requires
        trimmed(entries, max, now).contains(e),
    ensures
        entries.contains(e),
    decreases entries.len(),
{
    if entries.len() > max {
        let i = stalest(entries, entries.len(), now);
        let shorter = swap_removed(entries, i);
        law_trim_keeps_members(shorter, max, now, e);
        let k = choose|k: int| 0 <= k < shorter.len() && shorter[k] == e;
        if k == i {
            assert(entries[entries.len() - 1] == e);
        } else {
            assert(entries[k] == e);
        }
    }
}

/// The decoy that trimming takes away is at least as stale as every other one.
pub proof fn law_trim_takes_stalest(entries: Seq<DecoyView>, n: nat, now: u64, j: int)
    requires
        0 <= j < n,
        n <= entries.len(),
    ensures
        entries[j].staleness(now) <= entries[stalest(entries, n, now)].staleness(now),
        j > stalest(entries, n, now) ==> entries[j].staleness(now) < entries[stalest(
            entries,
            n,
            now,
        )].staleness(now),
    decreases n,
{
    if n > 1 {
        let before = stalest(entries, (n - 1) as nat, now);
        lemma_stalest_range(entries, (n - 1) as nat, now);
        law_trim_takes_stalest(entries, (n - 1) as nat, now, before);
        if j < n - 1 {
            law_trim_takes_stalest(entries, (n - 1) as nat, now, j);
        }
    }
}

/// The decoys that a wallet keeps from one sync to the next, so that it does not look like a new
/// wallet each time.
#[derive(Debug, PartialEq, Eq)]
pub struct DecoyCache {
    /// The decoys.
    pub entries: Vec<DecoyEntry>,
    /// The largest number of decoys that is kept.
    pub max_cache_size: usize,
    /// The part of the decoys that is replaced by fresh ones: two fractions, each as the bits of
    /// its IEEE 754 double.
    pub rotation_range: (u64, u64),
    /// The age at which a decoy is retired, in seconds.
    pub max_age_secs: u64,
    /// How often a decoy is used before it is retired.
    pub retire_after_uses_range: (u32, u32),
}

/// Whether a cache is empty, with the limits that hold where none are given.
pub open spec fn is_default_cache(cache: DecoyCache) -> bool {
    &&& cache.entries@.len() == 0
    &&& cache.max_cache_size == default_privacy().max_decoy_cache_size
    &&& cache.rotation_range == default_privacy().decoy_rotation_range
    &&& cache.max_age_secs == default_privacy().max_decoy_age_secs
    &&& cache.retire_after_uses_range == default_privacy().retire_after_uses_range
}

impl Default for DecoyCache {
    fn default() -> (cache: Self)
        ensures
            is_default_cache(cache),
    {
        DecoyCache::from_privacy_config(&PrivacyConfig::default())
    }
}

/// Whether a closure of the given kind can come up with a decoy.
pub open spec fn derivable<F: FnMut() -> Result<DecoyEntry, WalletError>>(e: DecoyView) -> bool {
    exists|g: F, r: Result<DecoyEntry, WalletError>| #[trigger]
        call_ensures(g, (), r) && r is Ok && r->Ok_0@ == e
}

/// Whether a closure of the given kind can fail with an error.
pub open spec fn can_fail<F: FnMut() -> Result<DecoyEntry, WalletError>>(e: WalletError) -> bool {
    exists|g: F, r: Result<DecoyEntry, WalletError>| #[trigger]
        call_ensures(g, (), r) && r == Err::<DecoyEntry, WalletError>(e)
}

/// Whether every decoy of a list was derived, and given a limit within the range.
pub open spec fn freshly_derived<F: FnMut() -> Result<DecoyEntry, WalletError>>(
    fresh: Seq<DecoyView>,
    limits: (u32, u32),
) -> bool {
    forall|k: int|
        0 <= k < fresh.len() ==> {
            let limit = (#[trigger] fresh[k]).retire_after_uses;
            &&& limits.0 <= limit <= limits.1 || limits.1 <= limit <= limits.0
            &&& exists|made: DecoyView| #[trigger]
                derivable::<F>(made) && fresh[k] == made.with_limit(limit)
        }
}

/// The number of decoys that a selection takes from the cache.
pub open spec fn reuse_count(needed: nat, fresh_count: nat, cached: nat) -> nat {
    let target = if needed >= fresh_count {
        (needed - fresh_count) as nat
    } else {
        0
    };
    if target <= cached {
        target
    } else {
        cached
    }
}

/// One way in which a selection of decoys can come about: at time `now` the retired decoys go, the
/// others at the positions in `order` are used once more, the fresh ones join the cache, and the
/// cache is trimmed.
pub open spec fn decoys_chosen(
    cache: DecoyCache,
    after: Seq<DecoyView>,
    scripts: Seq<Seq<u8>>,
    needed: nat,
    fresh_count: nat,
    now: u64,
    order: Seq<usize>,
    fresh: Seq<DecoyView>,
) -> bool {
    let live = alive_entries(views(cache.entries@), now, cache.max_age_secs);
    &&& is_choice(order, live.len(), reuse_count(needed, fresh_count, live.len()))
    &&& fresh.len() == needed - order.len()
    &&& after == trimmed(after_reuse(live, order) + fresh, cache.max_cache_size as nat, now)
    &&& scripts == scripts_at(live, order) + decoy_scripts(fresh)
}

/// What a selection of decoys comes to: at some time the retired decoys go, some of the others
/// are used once more, fresh ones are derived for the rest, and the cache is trimmed.
pub open spec fn decoy_selection<F: FnMut() -> Result<DecoyEntry, WalletError>>(
    cache: DecoyCache,
    after: Seq<DecoyView>,
    scripts: Seq<Seq<u8>>,
    needed: nat,
    fresh_count: nat,
) -> bool {
    exists|now: u64, order: Seq<usize>, fresh: Seq<DecoyView>|
        {
            &&& #[trigger] decoys_chosen(
                cache,
                after,
                scripts,
                needed,
                fresh_count,
                now,
                order,
                fresh,
            )
            &&& freshly_derived::<F>(fresh, cache.retire_after_uses_range)
        }
}

/// One way in which a selection of decoys can break off: at time `now` the retired decoys went, the
/// others at the positions in `order` were used once more, and fewer fresh ones than were needed joined
/// the cache. Nothing was taken back, and nothing was trimmed.
pub open spec fn selection_broken_off(
    cache: DecoyCache,
    after: Seq<DecoyView>,
    needed: nat,
    fresh_count: nat,
    now: u64,
    order: Seq<usize>,
    fresh: Seq<DecoyView>,
) -> bool {
    let live = alive_entries(views(cache.entries@), now, cache.max_age_secs);
    &&& is_choice(order, live.len(), reuse_count(needed, fresh_count, live.len()))
    &&& fresh.len() < needed - order.len()
    &&& after == after_reuse(live, order) + fresh
}

/// What a cache is left as where a fresh decoy cannot be derived.
pub open spec fn decoy_selection_failed<F: FnMut() -> Result<DecoyEntry, WalletError>>(
    cache: DecoyCache,
    after: Seq<DecoyView>,
    needed: nat,
    fresh_count: nat,
) -> bool {
    exists|now: u64, order: Seq<usize>, fresh: Seq<DecoyView>|
        {
            &&& #[trigger] selection_broken_off(
                cache,
                after,
                needed,
                fresh_count,
                now,
                order,
                fresh,
            )
            &&& freshly_derived::<F>(fresh, cache.retire_after_uses_range)
        }
}

/// The positions `0..len` in random order.
fn shuffled_positions(len: usize) -> (order: Vec<usize>)
    ensures
        is_choice(order@, len as nat, len as nat),
{
    let mut order: Vec<usize> = Vec::with_capacity(len);
    let mut i: usize = 0;
    while i < len
        invariant
            i <= len,
            order.len() == i,
            forall|k: int| 0 <= k < i ==> #[trigger] order@[k] == k,
        decreases len - i,
    {
        order.push(i);
        i += 1;
    }
    let ghost straight = order@;
    shuffle(&mut order);
    proof {
        broadcast use vstd::seq_lib::group_to_multiset_ensures;

        straight.lemma_multiset_has_no_duplicates();
        order@.lemma_multiset_has_no_duplicates_conv();
        assert(order@.len() == order@.to_multiset().len());
        assert(straight.len() == straight.to_multiset().len());
        assert forall|k: int| 0 <= k < order@.len() implies (#[trigger] order@[k]) < len by {
            let x = order@[k];
            assert(order@.contains(x));
            assert(order@.to_multiset().count(x) > 0);
            assert(straight.contains(x));
            let j = choose|j: int| 0 <= j < straight.len() && straight[j] == x;
            assert(straight[j] == j);
        }
    }
    order
}

impl DecoyCache {
    /// An empty cache with the limits of a configuration.
    pub fn from_privacy_config(config: &PrivacyConfig) -> (cache: Self)
        ensures
            cache.entries@.len() == 0,
            cache.max_cache_size == config.max_decoy_cache_size,
            cache.rotation_range == config.decoy_rotation_range,
            cache.max_age_secs == config.max_decoy_age_secs,
            cache.retire_after_uses_range == config.retire_after_uses_range,
    {
        DecoyCache {
            entries: Vec::new(),
            max_cache_size: config.max_decoy_cache_size,
            rotation_range: config.decoy_rotation_range,
            max_age_secs: config.max_decoy_age_secs,
            retire_after_uses_range: config.retire_after_uses_range,
        }
    }

    /// Whether two caches have the same limits.
    pub open spec fn same_limits(self, other: DecoyCache) -> bool {
        &&& self.max_cache_size == other.max_cache_size
        &&& self.rotation_range == other.rotation_range
        &&& self.max_age_secs == other.max_age_secs
        &&& self.retire_after_uses_range == other.retire_after_uses_range
    }

    /// Lets the decoys go that are too old or too often used at time `now`.
    pub fn retire(&mut self, now: u64)
        ensures
            views(final(self).entries@) == alive_entries(
                views(old(self).entries@),
                now,
                old(self).max_age_secs,
            ),
            final(self).same_limits(*old(self)),
    {
        let ghost all = views(self.entries@);
        let max_age = self.max_age_secs;
        let ghost pred = |e: DecoyView| e.alive(now, max_age);
        let mut kept: Vec<DecoyEntry> = Vec::new();
        let mut i: usize = 0;
        proof {
            reveal(Seq::filter);
            assert(views(kept@) =~= all.take(0).filter(pred));
        }
        while i < self.entries.len()
            invariant
                all == views(self.entries@),
                pred == (|e: DecoyView| e.alive(now, max_age)),
                i <= self.entries.len(),
                self.same_limits(*old(self)),
                views(kept@) == all.take(i as int).filter(pred),
            decreases self.entries.len() - i,
        {
            let ghost before = views(kept@);
            proof {
                assert(all.take(i + 1) =~= all.take(i as int).push(all[i as int]));
                all.take(i as int).lemma_filter_push(all[i as int], pred);
            }
            let entry = &self.entries[i];
            if entry.times_used < entry.retire_after_uses && now.saturating_sub(entry.created_at)
                < max_age {
                kept.push(entry.clone());
                assert(views(kept@) =~= before.push(all[i as int]));
            }
            i += 1;
        }
        assert(all.take(i as int) =~= all);
        self.entries = kept;
    }

    /// Uses the decoys at the given positions once more, and gives their scripts.
    pub fn reuse(&mut self, order: &Vec<usize>) -> (scripts: Vec<ScriptBuf>)
        requires
            is_choice(order@, old(self).entries@.len(), order@.len()),
        ensures
            views(final(self).entries@) == after_reuse(views(old(self).entries@), order@),
            views(scripts@) == scripts_at(views(old(self).entries@), order@),
            final(self).same_limits(*old(self)),
    {
        let ghost all = views(self.entries@);
        let mut scripts: Vec<ScriptBuf> = Vec::with_capacity(order.len());
        let mut k: usize = 0;
        assert(views(self.entries@) =~= after_reuse(all, order@.take(0)));
        assert(views(scripts@) =~= scripts_at(all, order@.take(0)));
        while k < order.len()
            invariant
                k <= order.len(),
                is_choice(order@, all.len(), order@.len()),
                self.same_limits(*old(self)),
                self.entries@.len() == all.len(),
                views(self.entries@) == after_reuse(all, order@.take(k as int)),
                views(scripts@) == scripts_at(all, order@.take(k as int)),
            decreases order.len() - k,
        {
            let at = order[k];
            let ghost now_entries = views(self.entries@);
            let ghost now_scripts = views(scripts@);
            assert(at < all.len());
            assert(!order@.take(k as int).contains(at)) by {
                if order@.take(k as int).contains(at) {
                    let j = choose|j: int|
                        0 <= j < order@.take(k as int).len() && order@.take(k as int)[j] == at;
                    assert(order@[j] == order@[k as int]);
                }
            }
            assert(now_entries[at as int] == all[at as int]);
            let mut entry = self.entries[at].clone();
            entry.times_used = entry.times_used.saturating_add(1);
            scripts.push(entry.script.clone());
            self.entries.set(at, entry);
            proof {
                let longer = order@.take(k + 1);
                assert(longer =~= order@.take(k as int).push(at));
                assert forall|i: int| 0 <= i < all.len() implies #[trigger] views(self.entries@)[i]
                    == after_reuse(all, longer)[i] by {
                    assert(i < self.entries.len());
                    if i != at {
                        assert(views(self.entries@)[i] == now_entries[i]);
                        if longer.contains(i as usize) {
                            let j = choose|j: int| 0 <= j < longer.len() && longer[j] == i as usize;
                            assert(order@.take(k as int)[j] == i as usize);
                        }
                        if order@.take(k as int).contains(i as usize) {
                            let shorter = order@.take(k as int);
                            let j = choose|j: int|
                                0 <= j < shorter.len() && shorter[j] == i as usize;
                            assert(longer[j] == i as usize);
                        }
                    } else {
                        assert(longer[k as int] == at);
                        assert(longer.contains(at));
                    }
                }
                assert(views(self.entries@) =~= after_reuse(all, longer));
                assert(views(scripts@) =~= now_scripts.push(all[at as int].script));
                assert(views(scripts@) =~= scripts_at(all, longer));
            }
            k += 1;
        }
        assert(order@.take(k as int) =~= order@);
        scripts
    }

    /// Puts a fresh decoy with the given limit into the cache, and gives its script.
    pub fn add_fresh(&mut self, entry: DecoyEntry, limit: u32) -> (script: ScriptBuf)
        ensures
            views(final(self).entries@) == views(old(self).entries@).push(entry@.with_limit(limit)),
            script@ == entry@.script,
            final(self).same_limits(*old(self)),
    {
        let ghost before = views(self.entries@);
        let mut kept = entry;
        kept.retire_after_uses = limit;
        let script = kept.script.clone();
        self.entries.push(kept);
        assert(views(self.entries@) =~= before.push(entry@.with_limit(limit)));
        script
    }

    /// Lets the stalest decoys go until the cache is within its size.
    pub fn trim(&mut self, now: u64)
        ensures
            views(final(self).entries@) == trimmed(
                views(old(self).entries@),
                old(self).max_cache_size as nat,
                now,
            ),
            final(self).same_limits(*old(self)),
    {
        let ghost goal = trimmed(views(self.entries@), self.max_cache_size as nat, now);
        while self.entries.len() > self.max_cache_size
            invariant
                self.same_limits(*old(self)),
                goal == trimmed(views(self.entries@), self.max_cache_size as nat, now),
            decreases self.entries.len(),
        {
            let ghost all = views(self.entries@);
            let mut worst: usize = 0;
            let mut i: usize = 1;
            while i < self.entries.len()
                invariant
                    all == views(self.entries@),
                    0 < self.entries.len(),
                    1 <= i <= self.entries.len(),
                    worst < i,
                    worst == stalest(all, i as nat, now),
                decreases self.entries.len() - i,
            {
                if self.entries[i].staleness(now) >= self.entries[worst].staleness(now) {
                    worst = i;
                }
                i += 1;
            }
            let gone = self.entries.swap_remove(worst);
            assert(views(self.entries@) =~= swap_removed(all, worst as int));
        }
    }

    /// Begins a selection at time `now`: lets the retired decoys go, and uses as many of the others
    /// once more as are wanted and there, picked by chance. Gives their positions and scripts.
    pub fn begin_batch(&mut self, needed: usize, fresh_count: usize, now: u64) -> (start: (
        Vec<usize>,
        Vec<ScriptBuf>,
    ))
        ensures
            ({
                let live = alive_entries(views(old(self).entries@), now, old(self).max_age_secs);
                &&& is_choice(
                    start.0@,
                    live.len(),
                    reuse_count(needed as nat, fresh_count as nat, live.len()),
                )
                &&& views(final(self).entries@) == after_reuse(live, start.0@)
                &&& views(start.1@) == scripts_at(live, start.0@)
            }),
            start.1@.len() <= needed,
            final(self).same_limits(*old(self)),
    {
        self.retire(now);
        let ghost live = views(self.entries@);
        let cached = self.entries.len();
        assert(live.len() == cached);
        let target = needed.saturating_sub(fresh_count);
        let reused_count = if target <= cached {
            target
        } else {
            cached
        };
        let mut order = shuffled_positions(cached);
        let ghost whole = order@;
        order.truncate(reused_count);
        assert(order@ =~= whole.take(reused_count as int));
        let scripts = self.reuse(&order);
        assert(views(scripts@).len() == order@.len());
        (order, scripts)
    }

    /// Selects `needed` decoys for one query batch: `fresh_count` fresh ones, as far as the cache
    /// holds enough others, which are picked from it by chance. Fresh decoys come from
    /// `derive_fresh_decoy`, since the wallet holds the keys.
    pub fn select_decoys_for_batch<F: FnMut() -> Result<DecoyEntry, WalletError>>(
        &mut self,
        needed: usize,
        fresh_count: usize,
        derive_fresh_decoy: &mut F,
    ) -> (result: Result<Vec<ScriptBuf>, WalletError>)
        requires
            forall|g: F| #[trigger] call_requires(g, ()),
        ensures
            final(self).same_limits(*old(self)),
            needed == 0 ==> *final(self) == *old(self) && *final(derive_fresh_decoy) == *old(
                derive_fresh_decoy,
            ) && result is Ok && result->Ok_0@.len() == 0,
            needed > 0 ==> match result {
                Ok(scripts) => decoy_selection::<F>(
                    *old(self),
                    views(final(self).entries@),
                    views(scripts@),
                    needed as nat,
                    fresh_count as nat,
                ),
                Err(e) => can_fail::<F>(e) && decoy_selection_failed::<F>(
                    *old(self),
                    views(final(self).entries@),
                    needed as nat,
                    fresh_count as nat,
                ),
            },
    {
        if needed == 0 {
            return Ok(Vec::new());
        }
        let now = now_unix_secs();
        let (order, mut result) = self.begin_batch(needed, fresh_count, now);
        let ghost taken = views(result@);
        let ghost used = views(self.entries@);
        let ghost mut fresh: Seq<DecoyView> = Seq::empty();
        assert(taken.len() == order@.len());
        let fresh_needed = needed - result.len();
        let ghost live = alive_entries(views(old(self).entries@), now, old(self).max_age_secs);
        let mut k: usize = 0;
        proof {
            assert(used =~= used + fresh);
            assert(taken =~= taken + decoy_scripts(fresh));
        }
        while k < fresh_needed
            invariant
                k <= fresh_needed,
                fresh.len() == k,
                forall|g: F| #[trigger] call_requires(g, ()),
                self.same_limits(*old(self)),
                needed > 0,
                live == alive_entries(views(old(self).entries@), now, old(self).max_age_secs),
                is_choice(
                    order@,
                    live.len(),
                    reuse_count(needed as nat, fresh_count as nat, live.len()),
                ),
                used == after_reuse(live, order@),
                fresh_needed == needed - order@.len(),
                views(self.entries@) == used + fresh,
                views(result@) == taken + decoy_scripts(fresh),
                freshly_derived::<F>(fresh, self.retire_after_uses_range),
            decreases fresh_needed - k,
        {
            let ghost closure = *derive_fresh_decoy;
            let made = derive_fresh_decoy();
            match made {
                Ok(entry) => {
                    let limit = draw_u32_inclusive(self.retire_after_uses_range);
                    let ghost added = entry@.with_limit(limit);
                    let ghost so_far = views(result@);
                    let script = self.add_fresh(entry, limit);
                    result.push(script);
                    proof {
                        assert(derivable::<F>(entry@));
                        let longer = fresh.push(added);
                        assert forall|j: int| 0 <= j < longer.len() implies {
                            let limit = (#[trigger] longer[j]).retire_after_uses;
                            &&& self.retire_after_uses_range.0 <= limit
                                <= self.retire_after_uses_range.1 || self.retire_after_uses_range.1
                                <= limit <= self.retire_after_uses_range.0
                            &&& exists|made: DecoyView| #[trigger]
                                derivable::<F>(made) && longer[j] == made.with_limit(limit)
                        } by {
                            if j < fresh.len() {
                                assert(longer[j] == fresh[j]);
                            }
                        }
                        assert(views(result@) =~= so_far.push(added.script));
                        assert(decoy_scripts(longer) =~= decoy_scripts(fresh).push(added.script));
                        assert(views(result@) =~= taken + decoy_scripts(longer));
                        assert(views(self.entries@) =~= used + longer);
                        fresh = longer;
                    }
                },
                Err(e) => {
                    assert(can_fail::<F>(e));
                    assert(selection_broken_off(
                        *old(self),
                        views(self.entries@),
                        needed as nat,
                        fresh_count as nat,
                        now,
                        order@,
                        fresh,
                    ));
                    return Err(e);
                },
            }
            k += 1;
        }
        self.trim(now);
        proof {
            assert(decoys_chosen(
                *old(self),
                views(self.entries@),
                views(result@),
                needed as nat,
                fresh_count as nat,
                now,
                order@,
                fresh,
            ));
        }
        Ok(result)
    }
}

impl DecoyEntry {
    /// How ready the decoy is to go.
    fn staleness(&self, now: u64) -> (points: u128)
        ensures
            points == self@.staleness(now),
    {
        self.times_used as u128 * 1000 + now.saturating_sub(self.created_at) as u128
    }
}

/// A selection gives exactly as many decoys as were asked for.
pub proof fn law_selection_gives_needed<F: FnMut() -> Result<DecoyEntry, WalletError>>(
    cache: DecoyCache,
    after: Seq<DecoyView>,
    scripts: Seq<Seq<u8>>,
    needed: nat,
    fresh_count: nat,
)
    requires
        decoy_selection::<F>(cache, after, scripts, needed, fresh_count),
    ensures
        scripts.len() == needed,
{
}

/// After a selection the cache is within its size.
pub proof fn law_selection_bounds_cache<F: FnMut() -> Result<DecoyEntry, WalletError>>(
    cache: DecoyCache,
    after: Seq<DecoyView>,
    scripts: Seq<Seq<u8>>,
    needed: nat,
    fresh_count: nat,
)
    requires
        decoy_selection::<F>(cache, after, scripts, needed, fresh_count),
    ensures
        after.len() <= cache.max_cache_size,
{
    let (now, order, fresh) = choose|now: u64, order: Seq<usize>, fresh: Seq<DecoyView>|
        {
            &&& #[trigger] decoys_chosen(
                cache,
                after,
                scripts,
                needed,
                fresh_count,
                now,
                order,
                fresh,
            )
            &&& freshly_derived::<F>(fresh, cache.retire_after_uses_range)
        };
    let live = alive_entries(views(cache.entries@), now, cache.max_age_secs);
    law_trim_bounds_cache(after_reuse(live, order) + fresh, cache.max_cache_size as nat, now);
}

/// A decoy that was retired is not selected: the scripts of a selection are those of cached
/// decoys that were still alive, and of fresh ones.
pub proof fn law_selection_from_live_or_fresh<F: FnMut() -> Result<DecoyEntry, WalletError>>(
    cache: DecoyCache,
    after: Seq<DecoyView>,
    scripts: Seq<Seq<u8>>,
    needed: nat,
    fresh_count: nat,
    k: int,
)
    requires
        decoy_selection::<F>(cache, after, scripts, needed, fresh_count),
        0 <= k < scripts.len(),
    ensures
        (exists|e: DecoyView, now: u64|
            {
                &&& views(cache.entries@).contains(e)
                &&& #[trigger] e.alive(now, cache.max_age_secs)
                &&& e.script == scripts[k]
            }) || (exists|e: DecoyView| #[trigger] derivable::<F>(e) && e.script == scripts[k]),
{
    let (now, order, fresh) = choose|now: u64, order: Seq<usize>, fresh: Seq<DecoyView>|
        {
            &&& #[trigger] decoys_chosen(
                cache,
                after,
                scripts,
                needed,
                fresh_count,
                now,
                order,
                fresh,
            )
            &&& freshly_derived::<F>(fresh, cache.retire_after_uses_range)
        };
    let all = views(cache.entries@);
    let live = alive_entries(all, now, cache.max_age_secs);
    let pred = |e: DecoyView| e.alive(now, cache.max_age_secs);
    if k < order.len() {
        let i = order[k] as int;
        let e = live[i];
        all.lemma_filter_pred(pred, i);
        all.lemma_filter_contains_rev(pred, e);
        assert(e.alive(now, cache.max_age_secs));
        assert(scripts[k] == scripts_at(live, order)[k]);
    } else {
        let j = k - order.len();
        assert(scripts[k] == decoy_scripts(fresh)[j]);
        let limit = fresh[j].retire_after_uses;
        let made = choose|made: DecoyView| #[trigger]
            derivable::<F>(made) && fresh[j] == made.with_limit(limit);
        assert(derivable::<F>(made) && made.script == scripts[k]);
    }
}

/// After a selection the cache holds scripts that it held before, and freshly derived ones.
pub proof fn law_cache_holds_cached_or_fresh<F: FnMut() -> Result<DecoyEntry, WalletError>>(
    cache: DecoyCache,
    after: Seq<DecoyView>,
    scripts: Seq<Seq<u8>>,
    needed: nat,
    fresh_count: nat,
    i: int,
)
    requires
        decoy_selection::<F>(cache, after, scripts, needed, fresh_count),
        0 <= i < after.len(),
    ensures
        (exists|e: DecoyView| #[trigger]
            views(cache.entries@).contains(e) && e.script == after[i].script) || (exists|
            e: DecoyView,
        | #[trigger]
            derivable::<F>(e) && e.script == after[i].script),
{
    let (now, order, fresh) = choose|now: u64, order: Seq<usize>, fresh: Seq<DecoyView>|
        {
            &&& #[trigger] decoys_chosen(
                cache,
                after,
                scripts,
                needed,
                fresh_count,
                now,
                order,
                fresh,
            )
            &&& freshly_derived::<F>(fresh, cache.retire_after_uses_range)
        };
    let all = views(cache.entries@);
    let live = alive_entries(all, now, cache.max_age_secs);
    let pred = |e: DecoyView| e.alive(now, cache.max_age_secs);
    let untrimmed = after_reuse(live, order) + fresh;
    law_trim_keeps_members(untrimmed, cache.max_cache_size as nat, now, after[i]);
    let k = choose|k: int| 0 <= k < untrimmed.len() && untrimmed[k] == after[i];
    if k < live.len() {
        assert(untrimmed[k] == after_reuse(live, order)[k]);
        all.lemma_filter_contains_rev(pred, live[k]);
        assert(all.contains(live[k]) && live[k].script == after[i].script);
    } else {
        let j = k - live.len();
        assert(fresh[j] == after[i]);
        let limit = fresh[j].retire_after_uses;
        let made = choose|made: DecoyView| #[trigger]
            derivable::<F>(made) && fresh[j] == made.with_limit(limit);
        assert(derivable::<F>(made) && made.script == after[i].script);
    }
}

/// A decoy stays in the cache until it was used as often as its limit says, or is as old as the cache allows; then
/// it goes, and the others stay in order.
pub proof fn law_decoys_retire_by_use_and_age(
    entries: Seq<DecoyView>,
    e: DecoyView,
    now: u64,
    max_age: u64,
)
    ensures
        alive_entries(Seq::<DecoyView>::empty(), now, max_age).len() == 0,
        e.times_used < e.retire_after_uses && now < e.created_at + max_age && (now >= e.created_at
            || max_age > 0) ==> alive_entries(entries.push(e), now, max_age) == alive_entries(
            entries,
            now,
            max_age,
        ).push(e),
        e.times_used >= e.retire_after_uses || now >= e.created_at + max_age || max_age == 0
            ==> alive_entries(entries.push(e), now, max_age) == alive_entries(
            entries,
            now,
            max_age,
        ),
{
    reveal(Seq::filter);
    entries.lemma_filter_push(e, |e: DecoyView| e.alive(now, max_age));
}

/// A decoy that is used again counts one use more and keeps all else; a decoy that is not used stays as it is.
pub proof fn law_reuse_counts_a_use(entries: Seq<DecoyView>, order: Seq<usize>, i: usize)
    requires
        i < entries.len(),
        entries[i as int].times_used < u32::MAX,
    ensures
        after_reuse(entries, order).len() == entries.len(),
        order.contains(i) ==> after_reuse(entries, order)[i as int] == (DecoyView {
            times_used: (entries[i as int].times_used + 1) as u32,
            ..entries[i as int]
        }),
        !order.contains(i) ==> after_reuse(entries, order)[i as int] == entries[i as int],
{
}

/// A use makes a decoy as much staler as a thousand seconds do.
pub proof fn law_use_counts_as_a_thousand_seconds(e: DecoyView, more: DecoyView, now: u64)
    requires
        e.created_at <= now,
        now <= u64::MAX - 1000,
        more == (DecoyView { times_used: (e.times_used + 1) as u32, ..e }),
        e.times_used < u32::MAX,
    ensures
        more.staleness(now) == e.staleness((now + 1000) as u64),
        e.staleness((now + 1) as u64) == e.staleness(now) + 1,
        e.times_used == 0 && e.created_at == now ==> e.staleness(now) == 0,
{
}

/// A selection takes as many fresh decoys as it is asked to, and more only where the cache does not hold enough
/// others that may be used. No cached decoy is taken twice.
pub proof fn law_selection_is_fresh_as_asked(
    cache: DecoyCache,
    after: Seq<DecoyView>,
    scripts: Seq<Seq<u8>>,
    needed: nat,
    fresh_count: nat,
    now: u64,
    order: Seq<usize>,
    fresh: Seq<DecoyView>,
)
    requires
        decoys_chosen(cache, after, scripts, needed, fresh_count, now, order, fresh),
    ensures
        ({
            let live = alive_entries(views(cache.entries@), now, cache.max_age_secs);
            &&& scripts.len() == needed
            &&& fresh_count >= needed ==> fresh.len() == needed
            &&& fresh_count <= needed <= fresh_count + live.len() ==> fresh.len() == fresh_count
            &&& needed > fresh_count + live.len() ==> fresh.len() == needed - live.len()
            &&& order.no_duplicates()
            &&& forall|k: int|
                0 <= k < order.len() ==> (#[trigger] order[k]) < live.len() && scripts[k]
                    == live[order[k] as int].script
            &&& forall|k: int|
                0 <= k < fresh.len() ==> scripts[order.len() + k] == (#[trigger] fresh[k]).script
        }),
{
    let live = alive_entries(views(cache.entries@), now, cache.max_age_secs);
    assert forall|k: int| 0 <= k < order.len() implies (#[trigger] order[k]) < live.len()
        && scripts[k] == live[order[k] as int].script by {
        assert(scripts[k] == scripts_at(live, order)[k]);
    }
    assert forall|k: int| 0 <= k < fresh.len() implies scripts[order.len() + k] == (
    #[trigger] fresh[k]).script by {
        assert(scripts[order.len() + k] == decoy_scripts(fresh)[k]);
    }
}

/// After a selection that leaves the cache within its size, the cache holds every decoy that may still be used,
/// and every fresh one behind them.
pub proof fn law_small_cache_keeps_its_decoys(
    cache: DecoyCache,
    after: Seq<DecoyView>,
    scripts: Seq<Seq<u8>>,
    needed: nat,
    fresh_count: nat,
    now: u64,
    order: Seq<usize>,
    fresh: Seq<DecoyView>,
)
    requires
        decoys_chosen(cache, after, scripts, needed, fresh_count, now, order, fresh),
        alive_entries(views(cache.entries@), now, cache.max_age_secs).len() + fresh.len()
            <= cache.max_cache_size,
    ensures
        ({
            let live = alive_entries(views(cache.entries@), now, cache.max_age_secs);
            &&& after.len() == live.len() + fresh.len()
            &&& forall|i: int|
                0 <= i < live.len() ==> (#[trigger] after[i]).script == live[i].script
            &&& after.skip(live.len() as int) == fresh
        }),
{
    let live = alive_entries(views(cache.entries@), now, cache.max_age_secs);
    assert(after.skip(live.len() as int) =~= fresh);
}

} // verus!
