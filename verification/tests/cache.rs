use dns_forwarder::cache::{CacheEntry, CacheStats, DnsCache};
use dns_forwarder::config::CacheConfig;

const SECOND: u128 = 1_000_000_000;

fn cache(max_size: usize, ttl_min: u64, ttl_max: u64) -> DnsCache {
    DnsCache::new(&CacheConfig { enabled: true, max_size, ttl_min, ttl_max })
}

fn query(id: u8) -> Vec<u8> {
    vec![0x12, id, 0x01, 0x00, 0x00, 0x01, 0, 0, 0, 0, 0, 0, 3, b'w', b'w', b'w', id]
}

#[test]
fn put_then_get_returns_the_same_bytes() {
    let mut cache = cache(10, 60, 3600);
    let response = vec![9u8, 8, 7, 6, 5];
    for (i, hint) in [None, Some(0), Some(10), Some(120), Some(3600), Some(u32::MAX)]
        .into_iter()
        .enumerate()
    {
        let q = query(i as u8);
        cache.put_at(&q, response.clone(), hint, 5 * SECOND);
        assert_eq!(cache.get_at(&q, 5 * SECOND), Some(response.clone()));
        assert_eq!(cache.get_at(&q, 5 * SECOND + 59 * SECOND), Some(response.clone()));
    }
}

#[test]
fn put_then_get_with_the_clock_of_the_cache() {
    let mut cache = cache(10, 60, 3600);
    let q = query(1);
    assert_eq!(cache.get(&q), None);
    cache.put(&q, vec![1, 2, 3], Some(300));
    assert_eq!(cache.get(&q), Some(vec![1, 2, 3]));
    assert_eq!(cache.get(&query(2)), None);
    let stats = cache.stats();
    assert_eq!(
        stats,
        CacheStats { total_entries: 1, expired_entries: 0, active_entries: 1, max_size: 10 }
    );
    assert_eq!(cache.cleanup(), (1, 1));
}

#[test]
fn a_hint_below_the_minimum_is_raised_to_it() {
    let mut cache = cache(10, 60, 3600);
    let q = query(1);
    cache.put_at(&q, vec![1], Some(10), 0);
    assert_eq!(cache.get_at(&q, 10 * SECOND + 1), Some(vec![1]));
    assert_eq!(cache.get_at(&q, 60 * SECOND), Some(vec![1]));
    assert_eq!(cache.get_at(&q, 60 * SECOND + 1), None);
}

#[test]
fn a_hint_above_the_maximum_is_cut_to_it() {
    let mut cache = cache(10, 60, 3600);
    let q = query(1);
    cache.put_at(&q, vec![1], Some(999_999), 0);
    assert_eq!(cache.get_at(&q, 3600 * SECOND), Some(vec![1]));
    assert_eq!(cache.get_at(&q, 3600 * SECOND + 1), None);
}

#[test]
fn a_hint_between_the_bounds_is_kept_and_none_means_the_minimum() {
    let mut cache = cache(10, 60, 3600);
    let q = query(1);
    cache.put_at(&q, vec![1], Some(120), 7);
    assert_eq!(cache.get_at(&q, 7 + 120 * SECOND), Some(vec![1]));
    assert_eq!(cache.get_at(&q, 7 + 120 * SECOND + 1), None);
    let p = query(2);
    cache.put_at(&p, vec![2], None, 7);
    assert_eq!(cache.get_at(&p, 7 + 60 * SECOND), Some(vec![2]));
    assert_eq!(cache.get_at(&p, 7 + 60 * SECOND + 1), None);
}

#[test]
fn bounds_in_the_wrong_order_clamp_a_hint_to_the_maximum() {
    // min(max(hint, 100), 50) is 50 whatever the hint; no hint means 100.
    let mut cache = cache(10, 100, 50);
    let q = query(1);
    cache.put_at(&q, vec![1], Some(75), 0);
    assert_eq!(cache.get_at(&q, 50 * SECOND), Some(vec![1]));
    assert_eq!(cache.get_at(&q, 50 * SECOND + 1), None);
    let p = query(2);
    cache.put_at(&p, vec![2], None, 0);
    assert_eq!(cache.get_at(&p, 100 * SECOND), Some(vec![2]));
    assert_eq!(cache.get_at(&p, 100 * SECOND + 1), None);
}

#[test]
fn one_more_key_than_fits_leaves_the_cache_full_not_fuller() {
    let max_size = 5;
    let mut cache = cache(max_size, 60, 3600);
    for i in 0..=max_size {
        cache.put_at(&query(i as u8), vec![i as u8], None, i as u128);
        assert!(cache.stats_at(10).total_entries <= max_size);
    }
    let stats = cache.stats_at(10);
    assert_eq!(stats.total_entries, max_size);
    assert_eq!(stats.expired_entries, 0);
    assert_eq!(stats.active_entries, max_size);
    assert_eq!(stats.max_size, max_size);
    // The newest key is always there; exactly one of the older ones is gone.
    assert_eq!(cache.get_at(&query(max_size as u8), 10), Some(vec![max_size as u8]));
    let kept = (0..max_size).filter(|i| cache.get_at(&query(*i as u8), 10).is_some()).count();
    assert_eq!(kept, max_size - 1);
}

#[test]
fn a_full_cache_sweeps_expired_entries_before_it_evicts() {
    let mut cache = cache(3, 60, 3600);
    cache.put_at(&query(1), vec![1], None, 0);
    cache.put_at(&query(2), vec![2], None, 0);
    cache.put_at(&query(3), vec![3], Some(600), 0);
    // At 61 s the first two have expired. The put sweeps them and evicts nothing.
    cache.put_at(&query(4), vec![4], None, 61 * SECOND);
    let stats = cache.stats_at(61 * SECOND);
    assert_eq!(stats.total_entries, 2);
    assert_eq!(stats.expired_entries, 0);
    assert_eq!(cache.get_at(&query(3), 61 * SECOND), Some(vec![3]));
    assert_eq!(cache.get_at(&query(4), 61 * SECOND), Some(vec![4]));
}

#[test]
fn a_cache_that_is_not_full_does_not_sweep() {
    let mut cache = cache(3, 60, 3600);
    cache.put_at(&query(1), vec![1], None, 0);
    cache.put_at(&query(2), vec![2], None, 61 * SECOND);
    let stats = cache.stats_at(61 * SECOND);
    assert_eq!(stats.total_entries, 2);
    assert_eq!(stats.expired_entries, 1);
    assert_eq!(stats.active_entries, 1);
}

#[test]
fn an_expired_entry_is_a_miss_but_stays_until_swept() {
    let mut cache = cache(10, 60, 3600);
    let q = query(1);
    cache.put_at(&q, vec![1, 2], None, 1000);
    assert_eq!(cache.get_at(&q, 1000 + 60 * SECOND), Some(vec![1, 2]));
    assert_eq!(cache.get_at(&q, 1000 + 60 * SECOND + 1), None);
    // The miss did not remove it.
    let stats = cache.stats_at(1000 + 60 * SECOND + 1);
    assert_eq!(
        stats,
        CacheStats { total_entries: 1, expired_entries: 1, active_entries: 0, max_size: 10 }
    );
    assert_eq!(cache.cleanup_at(1000 + 60 * SECOND + 1), (1, 0));
    assert_eq!(cache.stats_at(1000 + 60 * SECOND + 1).total_entries, 0);
}

#[test]
fn a_reading_before_the_entry_was_stored_counts_as_no_time_passed() {
    let mut cache = cache(10, 0, 0);
    let q = query(1);
    cache.put_at(&q, vec![1], None, 500);
    assert_eq!(cache.get_at(&q, 0), Some(vec![1]));
    assert_eq!(cache.get_at(&q, 500), Some(vec![1]));
    assert_eq!(cache.get_at(&q, 501), None);
}

#[test]
fn cleanup_removes_exactly_the_expired_entries() {
    let mut cache = cache(10, 60, 3600);
    cache.put_at(&query(1), vec![1], Some(60), 0);
    cache.put_at(&query(2), vec![2], Some(120), 0);
    cache.put_at(&query(3), vec![3], Some(180), 0);
    assert_eq!(cache.cleanup_at(60 * SECOND), (3, 3));
    assert_eq!(cache.cleanup_at(121 * SECOND), (3, 1));
    assert_eq!(cache.get_at(&query(3), 121 * SECOND), Some(vec![3]));
    assert_eq!(cache.get_at(&query(1), 0), None);
    assert_eq!(cache.cleanup_at(u128::MAX), (1, 0));
}

#[test]
fn clear_removes_everything() {
    let mut cache = cache(10, 60, 3600);
    cache.put_at(&query(1), vec![1], None, 0);
    cache.put_at(&query(2), vec![2], None, 0);
    cache.clear();
    assert_eq!(cache.stats_at(0).total_entries, 0);
    assert_eq!(cache.get_at(&query(1), 0), None);
}

#[test]
fn a_second_put_for_the_same_query_overwrites_the_first() {
    let mut cache = cache(2, 60, 3600);
    let q = query(1);
    cache.put_at(&q, vec![1], None, 0);
    cache.put_at(&q, vec![2, 2], None, 30 * SECOND);
    assert_eq!(cache.stats_at(30 * SECOND).total_entries, 1);
    assert_eq!(cache.get_at(&q, 90 * SECOND), Some(vec![2, 2]));
    assert_eq!(cache.get_at(&q, 90 * SECOND + 1), None);
}

#[test]
fn a_disabled_cache_stores_nothing_and_finds_nothing() {
    let mut cache =
        DnsCache::new(&CacheConfig { enabled: false, max_size: 10, ttl_min: 60, ttl_max: 3600 });
    let q = query(1);
    cache.put_at(&q, vec![1], None, 0);
    cache.put(&q, vec![1], None);
    assert_eq!(cache.get_at(&q, 0), None);
    assert_eq!(cache.get(&q), None);
    assert_eq!(cache.cleanup_at(0), (0, 0));
    cache.clear();
    assert_eq!(
        cache.stats_at(0),
        CacheStats { total_entries: 0, expired_entries: 0, active_entries: 0, max_size: 10 }
    );
}

#[test]
fn a_cache_for_no_entries_still_keeps_the_last_one() {
    let mut cache = cache(0, 60, 3600);
    cache.put_at(&query(1), vec![1], None, 0);
    assert_eq!(cache.stats_at(0).total_entries, 1);
    cache.put_at(&query(2), vec![2], None, 0);
    assert_eq!(cache.stats_at(0).total_entries, 1);
    assert_eq!(cache.get_at(&query(1), 0), None);
    assert_eq!(cache.get_at(&query(2), 0), Some(vec![2]));
}

#[test]
fn the_key_is_the_md5_digest_of_the_query() {
    let cache = cache(1, 60, 3600);
    assert_eq!(cache.generate_cache_key(&vec![]), 0xd41d8cd98f00b204e9800998ecf8427e);
    assert_eq!(cache.generate_cache_key(&b"abc".to_vec()), 0x900150983cd24fb0d6963f7d28e17f72);
    assert_eq!(
        cache.generate_cache_key(&b"abcdefghijklmnopqrstuvwxyz".to_vec()),
        0xc3fcd3d76192e4007dfb496cca67e13b
    );
    let digest = md5::compute(query(3));
    assert_eq!(
        format!("{:032x}", cache.generate_cache_key(&query(3))),
        format!("{:x}", digest)
    );
}

#[test]
fn queries_that_differ_in_any_byte_are_filed_apart() {
    let mut cache = cache(10, 60, 3600);
    let mut a = query(1);
    let mut b = query(1);
    a[0] = 0x00;
    b[0] = 0x01;
    cache.put_at(&a, vec![1], None, 0);
    assert_eq!(cache.get_at(&b, 0), None);
    cache.put_at(&b, vec![2], None, 0);
    assert_eq!(cache.get_at(&a, 0), Some(vec![1]));
    assert_eq!(cache.get_at(&b, 0), Some(vec![2]));
}

#[test]
fn an_entry_expires_once_more_than_its_time_to_live_has_passed() {
    let entry = CacheEntry::new(vec![1, 2, 3], 2, 1_000);
    assert!(!entry.is_expired(0));
    assert!(!entry.is_expired(1_000));
    assert!(!entry.is_expired(1_000 + 2 * SECOND));
    assert!(entry.is_expired(1_000 + 2 * SECOND + 1));
    assert!(entry.is_expired(u128::MAX));
    let forever = CacheEntry::new(vec![], u64::MAX, 0);
    assert!(!forever.is_expired(u64::MAX as u128 * SECOND));
    assert!(forever.is_expired(u64::MAX as u128 * SECOND + 1));
}

/// A small deterministic generator, so that the long runs below repeat.
struct Dice(u64);

impl Dice {
    fn roll(&mut self, sides: u64) -> u64 {
        self.0 = self.0.wrapping_mul(6364136223846793005).wrapping_add(1442695040888963407);
        (self.0 >> 33) % sides
    }
}

#[test]
fn a_long_run_never_overfills_and_never_serves_a_stale_or_foreign_answer() {
    for max_size in [1usize, 2, 5, 16] {
        let mut dice = Dice(max_size as u64);
        let mut cache = cache(max_size, 5, 20);
        // What was last put for each query: the response, when, and for how long.
        let mut put: Vec<Option<(Vec<u8>, u128, u64)>> = vec![None; 40];
        let mut now: u128 = 0;
        for step in 0..4000u32 {
            now += dice.roll(3) as u128 * SECOND / 2;
            let id = dice.roll(40) as usize;
            match dice.roll(10) {
                0..=4 => {
                    let hint = match dice.roll(4) {
                        0 => None,
                        _ => Some(dice.roll(30) as u32),
                    };
                    let ttl = match hint {
                        None => 5,
                        Some(h) => (h as u64).clamp(5, 20),
                    };
                    let response = vec![id as u8, (step % 251) as u8];
                    cache.put_at(&query(id as u8), response.clone(), hint, now);
                    put[id] = Some((response.clone(), now, ttl));
                    assert_eq!(cache.get_at(&query(id as u8), now), Some(response));
                },
                5..=7 => match (cache.get_at(&query(id as u8), now), &put[id]) {
                    (None, _) => {},
                    (Some(found), Some((response, at, ttl))) => {
                        assert_eq!(&found, response);
                        assert!(now - at <= *ttl as u128 * SECOND);
                    },
                    (Some(_), None) => panic!("an answer that was never put"),
                },
                8 => {
                    let (before, after) = cache.cleanup_at(now);
                    assert!(after <= before);
                    assert_eq!(cache.stats_at(now).expired_entries, 0);
                    assert_eq!(cache.stats_at(now).total_entries, after);
                },
                _ => {
                    let stats = cache.stats_at(now);
                    assert_eq!(stats.active_entries + stats.expired_entries, stats.total_entries);
                    let live = (0..40)
                        .filter(|i| cache.get_at(&query(*i as u8), now).is_some())
                        .count();
                    assert_eq!(stats.active_entries, live);
                },
            }
            assert!(cache.stats_at(now).total_entries <= max_size);
        }
    }
}
