use crypto_gotham_relay::replay::persist;
use crypto_gotham_relay::replay::persist::SnapshotError;
use crypto_gotham_relay::{ReplayCache, ReplayCheck};
use std::time::{Duration, Instant};

fn k(byte: u8) -> [u8; 16] {
    [byte; 16]
}

fn kn(i: u32) -> [u8; 16] {
    let mut b = [0u8; 16];
    b[..4].copy_from_slice(&i.to_be_bytes());
    b
}

#[test]
fn fresh_then_replay() {
    let mut cache = ReplayCache::new(100, Duration::from_secs(60));
    let key = k(1);
    assert_eq!(cache.check_and_insert(key), ReplayCheck::Fresh);
    assert_eq!(cache.check_and_insert(key), ReplayCheck::Replay);
    assert_eq!(cache.check_and_insert(key), ReplayCheck::Replay);
}

#[test]
fn different_keys_independent() {
    let mut cache = ReplayCache::new(100, Duration::from_secs(60));
    for i in 0..50u8 {
        assert_eq!(cache.check_and_insert(k(i)), ReplayCheck::Fresh);
    }
    for i in 0..50u8 {
        assert_eq!(cache.check_and_insert(k(i)), ReplayCheck::Replay);
    }
}

#[test]
fn ttl_eviction() {
    let mut cache = ReplayCache::new(100, Duration::from_secs(1));
    let now = Instant::now();
    assert_eq!(cache.check_and_insert_at(k(1), now), ReplayCheck::Fresh);
    let later = now + Duration::from_millis(500);
    assert_eq!(cache.check_and_insert_at(k(1), later), ReplayCheck::Replay);
    let much_later = now + Duration::from_secs(2);
    assert_eq!(
        cache.check_and_insert_at(k(1), much_later),
        ReplayCheck::Fresh
    );
}

#[test]
fn an_entry_lives_for_exactly_its_ttl() {
    let mut cache = ReplayCache::new(100, Duration::from_secs(1));
    let now = Instant::now();
    assert_eq!(cache.check_and_insert_at(k(1), now), ReplayCheck::Fresh);
    let last = now + Duration::from_secs(1);
    assert_eq!(cache.check_and_insert_at(k(1), last), ReplayCheck::Replay);
    let over = last + Duration::from_nanos(1);
    assert_eq!(cache.check_and_insert_at(k(1), over), ReplayCheck::Fresh);
}

#[test]
fn capacity_enforced_via_fifo_eviction() {
    let mut cache = ReplayCache::new(3, Duration::from_secs(3600));
    let now = Instant::now();
    cache.check_and_insert_at(k(1), now);
    cache.check_and_insert_at(k(2), now);
    cache.check_and_insert_at(k(3), now);
    assert_eq!(cache.len(), 3);
    cache.check_and_insert_at(k(4), now);
    assert_eq!(cache.len(), 3);
    assert_eq!(cache.check_and_insert_at(k(2), now), ReplayCheck::Replay);
    assert_eq!(cache.check_and_insert_at(k(3), now), ReplayCheck::Replay);
    assert_eq!(cache.check_and_insert_at(k(4), now), ReplayCheck::Replay);
    assert_eq!(cache.check_and_insert_at(k(1), now), ReplayCheck::Fresh);
}

#[test]
fn a_fresh_key_outlasts_one_check_less_than_the_capacity() {
    let mut cache = ReplayCache::new(4, Duration::from_secs(3600));
    let now = Instant::now();
    for i in 100..104u32 {
        cache.check_and_insert_at(kn(i), now);
    }
    assert_eq!(cache.check_and_insert_at(kn(1), now), ReplayCheck::Fresh);
    for i in 200..203u32 {
        assert_eq!(cache.check_and_insert_at(kn(i), now), ReplayCheck::Fresh);
    }
    assert_eq!(cache.check_and_insert_at(kn(1), now), ReplayCheck::Replay);
    assert_eq!(cache.check_and_insert_at(kn(203), now), ReplayCheck::Fresh);
    assert_eq!(cache.check_and_insert_at(kn(1), now), ReplayCheck::Fresh);
}

#[test]
fn a_capacity_of_zero_keeps_nothing() {
    let mut cache = ReplayCache::new(0, Duration::from_secs(60));
    let now = Instant::now();
    assert_eq!(cache.check_and_insert_at(k(1), now), ReplayCheck::Fresh);
    assert!(cache.is_empty());
    assert_eq!(cache.check_and_insert_at(k(1), now), ReplayCheck::Fresh);
    assert_eq!(cache.restore_at(&[(k(2), 1_000_000)], now, 1_000_000), 0);
    assert_eq!(cache.len(), 0);
}

#[test]
fn a_capacity_of_one_keeps_the_last_key() {
    let mut cache = ReplayCache::new(1, Duration::from_secs(60));
    let now = Instant::now();
    assert_eq!(cache.check_and_insert_at(k(1), now), ReplayCheck::Fresh);
    assert_eq!(cache.check_and_insert_at(k(1), now), ReplayCheck::Replay);
    assert_eq!(cache.check_and_insert_at(k(2), now), ReplayCheck::Fresh);
    assert_eq!(cache.len(), 1);
    assert_eq!(cache.check_and_insert_at(k(1), now), ReplayCheck::Fresh);
}

#[test]
fn keys_that_differ_in_one_byte_are_told_apart() {
    let mut cache = ReplayCache::new(100, Duration::from_secs(60));
    let now = Instant::now();
    for i in 0..16 {
        let mut key = [0u8; 16];
        key[i] = 1;
        assert_eq!(cache.check_and_insert_at(key, now), ReplayCheck::Fresh);
    }
    assert_eq!(cache.len(), 16);
}

#[test]
fn empty_cache_is_empty() {
    let cache = ReplayCache::new(10, Duration::from_secs(60));
    assert!(cache.is_empty());
    assert_eq!(cache.len(), 0);
}

#[test]
fn a_restart_does_not_forget_what_was_seen() {
    let mut before = ReplayCache::new(1000, Duration::from_secs(300));
    assert_eq!(before.check_and_insert(k(1)), ReplayCheck::Fresh);
    assert_eq!(before.check_and_insert(k(2)), ReplayCheck::Fresh);
    let (stored, written) = persist::save(&before);
    assert_eq!(written, 2);

    let mut after = ReplayCache::new(1000, Duration::from_secs(300));
    assert_eq!(after.check_and_insert(k(1)), ReplayCheck::Fresh);

    let mut restored = ReplayCache::new(1000, Duration::from_secs(300));
    let loaded = persist::load(&mut restored, Some(&stored)).expect("load");
    assert_eq!(loaded, 2);
    assert_eq!(restored.check_and_insert(k(1)), ReplayCheck::Replay);
    assert_eq!(restored.check_and_insert(k(2)), ReplayCheck::Replay);
    assert_eq!(restored.check_and_insert(k(3)), ReplayCheck::Fresh);
}

#[test]
fn entries_older_than_the_ttl_are_not_restored() {
    let mut cache = ReplayCache::new(1000, Duration::from_secs(60));
    let now = Instant::now();
    let now_unix = 1_000_000u64;

    let entries = [(k(1), now_unix - 10), (k(2), now_unix - 600)];
    let adopted = cache.restore_at(&entries, now, now_unix);

    assert_eq!(adopted, 1, "only the live entry comes back");
    assert_eq!(cache.check_and_insert_at(k(1), now), ReplayCheck::Replay);
    assert_eq!(cache.check_and_insert_at(k(2), now), ReplayCheck::Fresh);
}

#[test]
fn a_record_from_the_future_is_kept_as_seen_now() {
    let mut cache = ReplayCache::new(10, Duration::from_secs(60));
    let now = Instant::now();
    assert_eq!(cache.restore_at(&[(k(1), 2_000_000)], now, 1_000_000), 1);
    let last = now + Duration::from_secs(60);
    assert_eq!(cache.check_and_insert_at(k(1), last), ReplayCheck::Replay);
}

#[test]
fn a_corrupt_snapshot_is_refused_rather_than_half_read() {
    let mut c1 = ReplayCache::new(10, Duration::from_secs(60));
    assert_eq!(
        persist::load(&mut c1, Some(b"NOTGOTHAMxxxxxxx")),
        Err(SnapshotError::BadMagic)
    );
    assert!(c1.is_empty());

    let mut c2 = ReplayCache::new(10, Duration::from_secs(60));
    assert_eq!(
        persist::load(&mut c2, Some(b"GTHMRPL1\x01\x02\x03")),
        Err(SnapshotError::Truncated)
    );
    assert!(c2.is_empty());

    let mut c3 = ReplayCache::new(10, Duration::from_secs(60));
    assert_eq!(persist::load(&mut c3, None), Ok(0));

    assert_eq!(SnapshotError::BadMagic.message(), "replay cache: bad magic");
    assert_eq!(
        SnapshotError::Truncated.message(),
        "replay cache: truncated record"
    );
}

#[test]
fn an_oversized_snapshot_keeps_the_newest_entries() {
    let mut cache = ReplayCache::new(1000, Duration::from_secs(300));
    let now = Instant::now();
    let now_unix = 1_000_000u64;
    let entries: Vec<_> = (0..2000u32)
        .map(|i| (kn(i), now_unix - 299 + u64::from(i) / 10))
        .collect();

    let adopted = cache.restore_at(&entries, now, now_unix);
    assert_eq!(adopted, 1000);

    assert_eq!(cache.check_and_insert_at(kn(1999), now), ReplayCheck::Replay);
    assert_eq!(cache.check_and_insert_at(kn(0), now), ReplayCheck::Fresh);
}

#[test]
fn encode_then_write_round_trips() {
    let mut cache = ReplayCache::new(10, Duration::from_secs(60));
    cache.check_and_insert(kn(7));
    let buf = persist::encode(&cache);
    assert_eq!(persist::record_count(&buf), 1);

    let mut back = ReplayCache::new(10, Duration::from_secs(60));
    assert_eq!(persist::load(&mut back, Some(&buf)), Ok(1));
    assert_eq!(back.check_and_insert(kn(7)), ReplayCheck::Replay);
}

#[test]
fn duplicates_do_not_displace_distinct_entries() {
    let mut cache = ReplayCache::new(3, Duration::from_secs(300));
    let now = Instant::now();
    let now_unix = 1_000_000u64;

    let entries = [
        (kn(1), now_unix - 50),
        (kn(1), now_unix - 40),
        (kn(1), now_unix - 30),
        (kn(2), now_unix - 20),
        (kn(3), now_unix - 10),
    ];
    assert_eq!(cache.restore_at(&entries, now, now_unix), 3);

    for i in 1..=3u32 {
        assert_eq!(
            cache.check_and_insert_at(kn(i), now),
            ReplayCheck::Replay,
            "key {i} must have been adopted",
        );
    }
}

#[test]
fn entries_already_present_do_not_consume_the_budget() {
    let mut cache = ReplayCache::new(2, Duration::from_secs(300));
    let now = Instant::now();
    let now_unix = 1_000_000u64;
    assert_eq!(cache.check_and_insert_at(kn(1), now), ReplayCheck::Fresh);

    let entries = [(kn(1), now_unix - 50), (kn(2), now_unix - 10)];
    assert_eq!(cache.restore_at(&entries, now, now_unix), 1);
    assert_eq!(cache.check_and_insert_at(kn(2), now), ReplayCheck::Replay);
}

#[test]
fn an_unordered_snapshot_is_restored_oldest_first() {
    let mut cache = ReplayCache::new(2, Duration::from_secs(300));
    let now = Instant::now();
    let now_unix = 1_000_000u64;
    let entries = [
        (kn(1), now_unix - 10),
        (kn(2), now_unix - 50),
        (kn(3), now_unix - 30),
    ];
    assert_eq!(cache.restore_at(&entries, now, now_unix), 2);
    assert_eq!(cache.check_and_insert_at(kn(3), now), ReplayCheck::Replay);
    assert_eq!(cache.check_and_insert_at(kn(1), now), ReplayCheck::Replay);
    // The oldest of the two gives way first.
    assert_eq!(cache.check_and_insert_at(kn(4), now), ReplayCheck::Fresh);
    assert_eq!(cache.check_and_insert_at(kn(1), now), ReplayCheck::Replay);
    assert_eq!(cache.check_and_insert_at(kn(3), now), ReplayCheck::Fresh);
}

#[test]
fn restored_entries_go_before_younger_ones() {
    let mut cache = ReplayCache::new(10, Duration::from_secs(60));
    let t = Instant::now() + Duration::from_secs(3600);
    assert_eq!(cache.check_and_insert_at([1; 16], t), ReplayCheck::Fresh);
    assert_eq!(cache.restore_at(&[([2; 16], 999_950)], t, 1_000_000), 1);
    assert_eq!(
        cache.snapshot_at(t, 1_000_000),
        vec![([2; 16], 999_950), ([1; 16], 1_000_000)]
    );
    // The restored one is the oldest: it expires first, and the other stays.
    let later = t + Duration::from_secs(11);
    assert_eq!(cache.check_and_insert_at([2; 16], later), ReplayCheck::Fresh);
    assert_eq!(cache.check_and_insert_at([1; 16], later), ReplayCheck::Replay);
    assert_eq!(cache.len(), 2);
}

#[test]
fn a_snapshot_is_taken_over_whole() {
    let ttl = Duration::from_secs(300);
    let t0 = Instant::now() + Duration::from_secs(3600);
    let mut first = ReplayCache::new(10, ttl);
    for i in 0..5u32 {
        first.check_and_insert_at(kn(i), t0 + Duration::from_millis(u64::from(i) * 60_700));
    }
    // By now the first entry has expired and is not in the snapshot.
    let now = t0 + Duration::from_secs(301);
    let records = first.snapshot_at(now, 1_000_000);
    assert_eq!(records.len(), 4);

    let mut second = ReplayCache::new(4, ttl);
    assert_eq!(second.restore_at(&records, now, 1_000_000), 4);
    assert_eq!(second.snapshot_at(now, 1_000_000), records);
    for i in 0..5u32 {
        assert_eq!(
            second.check_and_insert_at(kn(i), now),
            first.check_and_insert_at(kn(i), now),
            "key {i}",
        );
        if i == 0 {
            // A fresh key was recorded; start over for the others.
            second = ReplayCache::new(4, ttl);
            second.restore_at(&records, now, 1_000_000);
        }
    }
}

#[test]
fn the_single_pass_encoder_matches_the_snapshot() {
    let mut cache = ReplayCache::new(100, Duration::from_secs(300));
    let now = Instant::now();
    let now_unix = 1_000_000u64;
    for i in 0..20u32 {
        cache.check_and_insert_at(kn(i), now);
    }

    let via_snapshot: Vec<u8> = {
        let entries = cache.snapshot_at(now, now_unix);
        let mut buf = Vec::new();
        buf.extend_from_slice(b"GTHMRPL1");
        for (key, ts) in &entries {
            buf.extend_from_slice(key);
            buf.extend_from_slice(&ts.to_be_bytes());
        }
        buf
    };
    assert_eq!(
        cache.encode_into(now, now_unix, b"GTHMRPL1", 24),
        via_snapshot
    );
}

#[test]
fn a_snapshot_dates_entries_by_the_wall_clock() {
    let mut cache = ReplayCache::new(100, Duration::from_secs(300));
    let t0 = Instant::now();
    cache.check_and_insert_at(kn(1), t0);
    cache.check_and_insert_at(kn(2), t0 + Duration::from_millis(1500));
    let now = t0 + Duration::from_millis(10_200);
    assert_eq!(
        cache.snapshot_at(now, 1_000_000),
        vec![(kn(1), 999_990), (kn(2), 999_992)]
    );
    let late = t0 + Duration::from_secs(301);
    assert_eq!(cache.snapshot_at(late, 1_000_000), vec![(kn(2), 999_701)]);
}

#[test]
fn stored_bytes_decode_to_the_records() {
    let mut bytes = b"GTHMRPL1".to_vec();
    bytes.extend_from_slice(&kn(9));
    bytes.extend_from_slice(&1234u64.to_be_bytes());
    assert_eq!(persist::decode(&bytes), Ok(vec![(kn(9), 1234)]));
    assert_eq!(persist::decode(b"GTHMRPL1"), Ok(vec![]));
    assert_eq!(persist::decode(b"GTHM"), Err(SnapshotError::BadMagic));
}
