use bitcoin::opcodes::all::OP_RETURN;
use bitcoin::script::Builder;
use coinswap_wallet::bytes::ScriptBuf;
use coinswap_wallet::decoy::{DecoyCache, DecoyEntry, PrivacyConfig};
use coinswap_wallet::error::WalletError;
use coinswap_wallet::primitives::AddressType;
use coinswap_wallet::query::{
    build_private_query_batches, build_private_query_batches_from_pool, random_retire_after_uses,
};
use secp256k1::rand::{rng, Rng};

fn fake_script(n: u8) -> ScriptBuf {
    let script = Builder::new()
        .push_opcode(OP_RETURN)
        .push_slice([n])
        .into_script();
    ScriptBuf::from_bytes(script.into_bytes())
}

fn fake_decoy_entry(n: u8) -> DecoyEntry {
    DecoyEntry::new(fake_script(n), n as u32, AddressType::P2WPKH, false, 10)
}

fn fresh_count(needed: usize, range: (u64, u64)) -> usize {
    let (a, b) = (f64::from_bits(range.0), f64::from_bits(range.1));
    let fraction = rng().random_range(a.min(b)..=a.max(b));
    ((needed as f64) * fraction).floor() as usize
}

fn entry_at(n: u8, times_used: u32, created_at: u64) -> DecoyEntry {
    DecoyEntry {
        script: fake_script(n),
        hd_index: n as u32,
        address_type: AddressType::P2TR,
        is_internal: true,
        times_used,
        created_at,
        retire_after_uses: 10,
    }
}

#[test]
fn private_batches_include_all_real_scripts() {
    let real_scripts: Vec<ScriptBuf> = (0..20).map(fake_script).collect();
    let decoy_pool: Vec<ScriptBuf> = (100..120).map(fake_script).collect();
    let privacy = PrivacyConfig::default();

    let batches = build_private_query_batches_from_pool(&real_scripts, &decoy_pool, &privacy);

    let collected_real: Vec<ScriptBuf> = batches
        .iter()
        .flatten()
        .filter(|item| item.is_real)
        .map(|item| item.script.clone())
        .collect();

    assert_eq!(collected_real.len(), real_scripts.len());

    for script in real_scripts {
        assert!(collected_real.contains(&script));
    }
}

#[test]
fn private_batches_add_decoys_when_pool_available() {
    let real_scripts: Vec<ScriptBuf> = (0..10).map(fake_script).collect();
    let decoy_pool: Vec<ScriptBuf> = (100..130).map(fake_script).collect();
    let privacy = PrivacyConfig::default();

    let batches = build_private_query_batches_from_pool(&real_scripts, &decoy_pool, &privacy);

    let real_count = batches.iter().flatten().filter(|item| item.is_real).count();

    let decoy_count = batches
        .iter()
        .flatten()
        .filter(|item| !item.is_real)
        .count();

    assert_eq!(real_count, real_scripts.len());
    assert!(decoy_count > 0);
}

#[test]
fn private_batches_fallback_to_real_only_when_privacy_disabled() {
    let real_scripts: Vec<ScriptBuf> = (0..10).map(fake_script).collect();
    let decoy_pool: Vec<ScriptBuf> = (100..130).map(fake_script).collect();

    let privacy = PrivacyConfig {
        enabled: false,
        ..PrivacyConfig::default()
    };

    let batches = build_private_query_batches_from_pool(&real_scripts, &decoy_pool, &privacy);

    let real_count = batches.iter().flatten().filter(|item| item.is_real).count();

    let decoy_count = batches
        .iter()
        .flatten()
        .filter(|item| !item.is_real)
        .count();

    assert_eq!(real_count, real_scripts.len());
    assert_eq!(decoy_count, 0);
}

#[test]
fn decoy_cache_generates_and_reuses_decoys() {
    let privacy = PrivacyConfig::default();
    let mut cache = DecoyCache::from_privacy_config(&privacy);
    let mut next = 1u8;

    let mut derive_fresh_decoy = || {
        let entry = fake_decoy_entry(next);
        next = next.saturating_add(1);
        Ok(entry)
    };

    let fresh = fresh_count(20, cache.rotation_range);
    let first = cache
        .select_decoys_for_batch(20, fresh, &mut derive_fresh_decoy)
        .unwrap();

    let fresh = fresh_count(20, cache.rotation_range);
    let second = cache
        .select_decoys_for_batch(20, fresh, &mut derive_fresh_decoy)
        .unwrap();

    assert_eq!(first.len(), 20);
    assert_eq!(second.len(), 20);
    assert!(!cache.entries.is_empty());
    assert!(cache.entries.len() <= cache.max_cache_size);
}

#[test]
fn default_privacy_settings() {
    let privacy = PrivacyConfig::default();
    assert!(privacy.enabled);
    assert_eq!(privacy.decoy_pool_range, (34, 67));
    assert_eq!(privacy.real_batch_range, (3, 9));
    assert_eq!(privacy.max_decoy_cache_size, 500);
    assert_eq!(f64::from_bits(privacy.decoy_rotation_range.0), 0.27);
    assert_eq!(f64::from_bits(privacy.decoy_rotation_range.1), 0.53);
    assert_eq!(privacy.max_decoy_age_secs, 3 * 24 * 60 * 60);
    assert_eq!(privacy.retire_after_uses_range, (5, 15));
    assert_eq!(privacy.clone(), privacy);
    let cache = DecoyCache::default();
    assert!(cache.entries.is_empty());
    assert_eq!(cache.max_cache_size, 500);
    assert_eq!(cache.rotation_range, privacy.decoy_rotation_range);
}

#[test]
fn mixed_batches_follow_the_configured_sizes() {
    let real_scripts: Vec<ScriptBuf> = (0..100).map(fake_script).collect();
    let decoy_pool: Vec<ScriptBuf> = (200..210).map(fake_script).collect();
    let privacy = PrivacyConfig {
        decoy_pool_range: (4, 2),
        real_batch_range: (9, 3),
        ..PrivacyConfig::default()
    };
    let batches = build_private_query_batches_from_pool(&real_scripts, &decoy_pool, &privacy);
    for (b, batch) in batches.iter().enumerate() {
        let real = batch.iter().filter(|item| item.is_real).count();
        let decoys = batch.len() - real;
        assert!((2..=4).contains(&decoys));
        assert!(real <= 9);
        assert!(real >= 3 || b + 1 == batches.len());
        for item in batch {
            assert_eq!(decoy_pool.contains(&item.script), !item.is_real);
        }
    }
}

#[test]
fn a_batch_takes_one_script_at_least() {
    let real_scripts: Vec<ScriptBuf> = (0..3).map(fake_script).collect();
    let decoy_pool = vec![fake_script(9)];
    let privacy = PrivacyConfig {
        decoy_pool_range: (0, 0),
        real_batch_range: (0, 0),
        ..PrivacyConfig::default()
    };
    let batches = build_private_query_batches_from_pool(&real_scripts, &decoy_pool, &privacy);
    assert_eq!(batches.len(), 3);
    for (i, batch) in batches.iter().enumerate() {
        assert_eq!(batch.len(), 1);
        assert_eq!(batch[0].script, real_scripts[i]);
    }
}

#[test]
fn plain_batches_hold_two_hundred_scripts() {
    let real_scripts: Vec<ScriptBuf> = (0..450u16)
        .map(|n| ScriptBuf::from_bytes(n.to_be_bytes().to_vec()))
        .collect();
    let batches =
        build_private_query_batches_from_pool(&real_scripts, &Vec::new(), &PrivacyConfig::default());
    let sizes: Vec<usize> = batches.iter().map(|batch| batch.len()).collect();
    assert_eq!(sizes, vec![200, 200, 50]);
    for i in 0..450 {
        assert_eq!(batches[i / 200][i % 200].script, real_scripts[i]);
        assert!(batches[i / 200][i % 200].is_real);
    }
    assert!(build_private_query_batches_from_pool(
        &Vec::new(),
        &real_scripts,
        &PrivacyConfig::default()
    )
    .is_empty());
}

#[test]
fn shuffling_changes_the_order_of_a_batch() {
    let real_scripts: Vec<ScriptBuf> = (0..50).map(fake_script).collect();
    let decoy_pool: Vec<ScriptBuf> = (100..150).map(fake_script).collect();
    let privacy = PrivacyConfig {
        decoy_pool_range: (50, 50),
        real_batch_range: (50, 50),
        ..PrivacyConfig::default()
    };
    let batches = build_private_query_batches_from_pool(&real_scripts, &decoy_pool, &privacy);
    assert_eq!(batches.len(), 1);
    assert_eq!(batches[0].len(), 100);
    let straight = batches[0].iter().take(50).all(|item| item.is_real);
    assert!(!straight);
    let decoys: Vec<&ScriptBuf> = batches[0]
        .iter()
        .filter(|item| !item.is_real)
        .map(|item| &item.script)
        .collect();
    assert!(decoys.iter().any(|d| *d != decoys[0]));
}

#[test]
fn cached_batches_include_all_real_scripts() {
    let real_scripts: Vec<ScriptBuf> = (0..20).map(fake_script).collect();
    let privacy = PrivacyConfig {
        decoy_pool_range: (2, 4),
        ..PrivacyConfig::default()
    };
    let mut cache = DecoyCache::from_privacy_config(&privacy);
    let mut next = 100u8;
    let mut derive = || {
        next += 1;
        Ok(fake_decoy_entry(next))
    };
    let mut half = |n: usize| n / 2;
    let batches = build_private_query_batches(
        &real_scripts,
        &mut cache,
        &privacy,
        &mut half,
        &mut derive,
    )
    .unwrap();
    let collected: Vec<ScriptBuf> = batches
        .iter()
        .flatten()
        .filter(|item| item.is_real)
        .map(|item| item.script.clone())
        .collect();
    assert_eq!(collected.len(), 20);
    for script in &real_scripts {
        assert!(collected.contains(script));
    }
    assert!(!cache.entries.is_empty());

    let disabled = PrivacyConfig {
        enabled: false,
        ..privacy
    };
    let before = cache.entries.len();
    let batches = build_private_query_batches(
        &real_scripts,
        &mut cache,
        &disabled,
        &mut half,
        &mut derive,
    )
    .unwrap();
    assert_eq!(batches.len(), 1);
    assert_eq!(batches[0].len(), 20);
    assert_eq!(cache.entries.len(), before);
    let none = build_private_query_batches(
        &Vec::new(),
        &mut cache,
        &disabled,
        &mut half,
        &mut derive,
    )
    .unwrap();
    assert!(none.is_empty());
}

#[test]
fn a_failing_derivation_fails_the_selection() {
    let mut cache = DecoyCache::default();
    let mut derive = || Err(WalletError::general("no key"));
    let result = cache.select_decoys_for_batch(1, 0, &mut derive);
    assert!(matches!(result, Err(WalletError::General(m)) if m == "no key"));
    assert_eq!(cache.select_decoys_for_batch(0, 0, &mut derive).unwrap().len(), 0);
}

#[test]
fn a_failed_selection_keeps_what_it_came_to() {
    let mut cache = DecoyCache::default();
    cache.entries = vec![fake_decoy_entry(1), fake_decoy_entry(2)];
    let mut next = 2u8;
    let mut derive = || {
        next += 1;
        if next == 3 {
            Ok(fake_decoy_entry(next))
        } else {
            Err(WalletError::general("no key"))
        }
    };
    assert!(cache.select_decoys_for_batch(4, 2, &mut derive).is_err());
    assert_eq!(next, 4);
    let left: Vec<(u32, u32)> = cache.entries.iter().map(|e| (e.hd_index, e.times_used)).collect();
    assert_eq!(left, vec![(1, 1), (2, 1), (3, 0)]);
}

#[test]
fn cached_decoys_are_reused_and_counted() {
    let mut cache = DecoyCache::default();
    let mut next = 0u8;
    let mut derive = || {
        next += 1;
        Ok(fake_decoy_entry(next))
    };
    let first = cache.select_decoys_for_batch(6, 3, &mut derive).unwrap();
    assert_eq!(first.len(), 6);
    assert_eq!(cache.entries.len(), 6);
    assert!(cache.entries.iter().all(|e| (5..=15).contains(&e.retire_after_uses)));
    assert!(cache.entries.iter().all(|e| e.times_used == 0));
    let second = cache.select_decoys_for_batch(6, 2, &mut derive).unwrap();
    assert_eq!(second.len(), 6);
    assert_eq!(cache.entries.len(), 8);
    assert_eq!(cache.entries.iter().filter(|e| e.times_used == 1).count(), 4);
    assert_eq!(second.iter().filter(|s| first.contains(s)).count(), 4);
}

#[test]
fn worn_and_old_decoys_are_retired() {
    let mut cache = DecoyCache::default();
    cache.max_age_secs = 100;
    cache.entries = vec![
        entry_at(1, 9, 1_000),
        entry_at(2, 10, 1_000),
        entry_at(3, 0, 950),
        entry_at(4, 0, 949),
        entry_at(5, 0, 951),
        entry_at(6, 0, 2_000),
    ];
    cache.retire(1_050);
    let left: Vec<u32> = cache.entries.iter().map(|e| e.hd_index).collect();
    assert_eq!(left, vec![1, 5, 6]);
}

#[test]
fn reuse_marks_the_named_entries() {
    let mut cache = DecoyCache::default();
    cache.entries = vec![entry_at(1, 0, 0), entry_at(2, u32::MAX, 0), entry_at(3, 4, 0)];
    let scripts = cache.reuse(&vec![2, 1]);
    assert_eq!(scripts, vec![fake_script(3), fake_script(2)]);
    let uses: Vec<u32> = cache.entries.iter().map(|e| e.times_used).collect();
    assert_eq!(uses, vec![0, u32::MAX, 5]);
}

#[test]
fn trimming_lets_the_stalest_go() {
    let mut cache = DecoyCache::default();
    cache.max_cache_size = 2;
    cache.entries = vec![
        entry_at(1, 1, 1_000),
        entry_at(2, 0, 500),
        entry_at(3, 1, 1_000),
        entry_at(4, 0, 1_000),
    ];
    // staleness at 1_000: 1000, 500, 1000, 0; of two equal ones the last goes first
    cache.trim(1_000);
    let left: Vec<u32> = cache.entries.iter().map(|e| e.hd_index).collect();
    assert_eq!(left, vec![4, 2]);
    cache.trim(1_000);
    assert_eq!(cache.entries.len(), 2);
}

#[test]
fn a_fresh_decoy_gets_its_limit() {
    let mut cache = DecoyCache::default();
    let script = cache.add_fresh(entry_at(7, 0, 0), 12);
    assert_eq!(script, fake_script(7));
    assert_eq!(cache.entries[0].retire_after_uses, 12);
    assert_eq!(cache.entries[0].hd_index, 7);
}

#[test]
fn a_new_decoy_is_unused_and_dated() {
    let entry = DecoyEntry::new(fake_script(3), 12, AddressType::P2TR, true, 8);
    assert_eq!(entry.times_used, 0);
    assert_eq!(entry.hd_index, 12);
    assert_eq!(entry.retire_after_uses, 8);
    assert!(entry.is_internal);
    assert!(entry.created_at > 1_600_000_000);
    let dated = DecoyEntry::new_at(fake_script(3), 12, AddressType::P2TR, true, 8, 77);
    assert_eq!(dated, DecoyEntry { created_at: 77, ..entry.clone() });
    assert_eq!(entry.clone(), entry);
}

#[test]
fn retirement_limits_are_drawn_from_the_range() {
    let config = PrivacyConfig {
        retire_after_uses_range: (8, 6),
        ..PrivacyConfig::default()
    };
    for _ in 0..50 {
        assert!((6..=8).contains(&random_retire_after_uses(&config)));
    }
}

#[test]
fn the_clock_falls_back_to_zero() {
    assert_eq!(coinswap_wallet::clock::seconds_or_zero(None), 0);
    assert_eq!(coinswap_wallet::clock::seconds_or_zero(Some(7)), 7);
    assert!(coinswap_wallet::clock::now_unix_secs() > 1_600_000_000);
}
