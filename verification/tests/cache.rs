//! The response cache: freshness, staleness, eviction, the byte budget.

use sumidero::cache::{
    Cache, CacheKey, Lookup, ENTRY_OVERHEAD_BYTES, MIN_TTL_SECS, STALE_TTL_SECS, STALE_WINDOW_SECS,
};
use sumidero::message::{
    Message, MessageType, Name, Record, CLASS_IN, NO_ERROR, NX_DOMAIN, OP_QUERY, REFUSED,
    SERV_FAIL, TYPE_A,
};

/// Some time on the monotonic clock, in nanoseconds.
const START: u64 = 5_000_000_000_000;

/// Nanoseconds of some seconds.
fn secs(n: u64) -> u64 {
    n * 1_000_000_000
}

fn record(name: &str, record_type: u16, ttl: u32, data: Vec<u8>) -> Record {
    Record {
        name: Name::from_ascii(name).unwrap(),
        record_type,
        class: CLASS_IN,
        ttl,
        data,
    }
}

fn response(response_code: u16) -> Message {
    let mut msg = Message::new(0, MessageType::Response, OP_QUERY);
    msg.metadata.response_code = response_code;
    msg
}

/// A NOERROR response with one A record at the given TTL.
fn noerror_a(name: &str, ttl: u32) -> Message {
    let mut msg = response(NO_ERROR);
    msg.add_answer(record(name, TYPE_A, ttl, vec![1, 2, 3, 4]));
    msg
}

/// A NOERROR response with two answer records at different TTLs.
fn noerror_two_records(name: &str, ttl1: u32, ttl2: u32) -> Message {
    let mut msg = response(NO_ERROR);
    msg.add_answer(record(name, TYPE_A, ttl1, vec![1, 2, 3, 4]));
    msg.add_answer(record(name, TYPE_A, ttl2, vec![5, 6, 7, 8]));
    msg
}

/// An NXDOMAIN response with an authority record.
fn nxdomain(name: &str, ttl: u32) -> Message {
    let mut msg = response(NX_DOMAIN);
    msg.add_authority(record(name, TYPE_A, ttl, vec![0, 0, 0, 0]));
    msg
}

/// A response of a type of its own with `size` bytes of data.
fn bulky(name: &str, size: usize) -> Message {
    let mut msg = response(NO_ERROR);
    msg.add_answer(record(name, 65280, 3600, vec![0x55; size]));
    msg
}

fn key(name: &str) -> CacheKey {
    CacheKey::new(name.to_string(), TYPE_A, CLASS_IN)
}

// -----------------------------------------------------------------------
// Basic insert + fresh get
// -----------------------------------------------------------------------

#[test]
fn fresh_hit_returns_original_ttls_at_zero_elapsed() {
    let mut cache = Cache::new(16);
    let now = START;
    let k = key("example.com.");
    cache.insert(k.clone(), &noerror_a("example.com.", 3600), now);

    let result = cache.get(&k, now);
    let Lookup::Fresh(msg) = result else {
        panic!("expected Fresh");
    };
    assert_eq!(msg.answers[0].ttl, 3600);
}

#[test]
fn fresh_hit_decrements_ttls() {
    let mut cache = Cache::new(16);
    let now = START;
    let k = key("example.com.");
    cache.insert(k.clone(), &noerror_a("example.com.", 3600), now);

    let later = now + secs(100);
    let Lookup::Fresh(msg) = cache.get(&k, later) else {
        panic!("expected Fresh");
    };
    assert_eq!(msg.answers[0].ttl, 3500);
}

#[test]
fn fresh_hit_decremented_ttl_floors_at_1() {
    let mut cache = Cache::new(16);
    let now = START;
    let k = key("example.com.");
    // Record TTL 10, but effective_ttl = MIN_TTL_SECS = 300.
    // At elapsed = 50, the record's own TTL is 10 - 50 < 0 → floor at 1.
    cache.insert(k.clone(), &noerror_a("example.com.", 10), now);

    let later = now + secs(50);
    let Lookup::Fresh(msg) = cache.get(&k, later) else {
        panic!("expected Fresh — entry should be fresh for MIN_TTL_SECS");
    };
    assert_eq!(msg.answers[0].ttl, 1);
}

/// Entry with low record TTL stays fresh for `MIN_TTL_SECS`.
#[test]
fn min_ttl_clamp_raises_effective_ttl() {
    let mut cache = Cache::new(16);
    let now = START;
    let k = key("example.com.");
    cache.insert(k.clone(), &noerror_a("example.com.", 10), now);

    // At elapsed = 299 it should still be Fresh.
    let at_299 = now + secs(MIN_TTL_SECS - 1);
    assert!(matches!(cache.get(&k, at_299), Lookup::Fresh(_)));

    // At elapsed = MIN_TTL_SECS it transitions to Stale.
    let at_min = now + secs(MIN_TTL_SECS);
    assert!(matches!(cache.get(&k, at_min), Lookup::Stale(_)));
}

/// Effective TTL is the minimum across all answer+authority records.
#[test]
fn effective_ttl_is_min_across_records() {
    let mut cache = Cache::new(16);
    let now = START;
    let k = key("example.com.");
    cache.insert(
        k.clone(),
        &noerror_two_records("example.com.", 600, 400),
        now,
    );

    // effective_ttl = max(min(600,400), 300) = 400.
    let at_399 = now + secs(399);
    assert!(matches!(cache.get(&k, at_399), Lookup::Fresh(_)));

    let at_400 = now + secs(400);
    assert!(matches!(cache.get(&k, at_400), Lookup::Stale(_)));
}

/// Per-record TTL decrement with two different record TTLs.
#[test]
fn per_record_ttl_decrement_independent() {
    let mut cache = Cache::new(16);
    let now = START;
    let k = key("example.com.");
    cache.insert(
        k.clone(),
        &noerror_two_records("example.com.", 600, 400),
        now,
    );

    let later = now + secs(100);
    let Lookup::Fresh(msg) = cache.get(&k, later) else {
        panic!("expected Fresh");
    };
    assert_eq!(msg.answers[0].ttl, 500); // 600 - 100
    assert_eq!(msg.answers[1].ttl, 300); // 400 - 100
}

// -----------------------------------------------------------------------
// Stale window
// -----------------------------------------------------------------------

#[test]
fn stale_within_window() {
    let mut cache = Cache::new(16);
    let now = START;
    let k = key("example.com.");
    cache.insert(k.clone(), &noerror_a("example.com.", 3600), now);

    // elapsed = effective_ttl (3600) → Stale
    let at_ttl = now + secs(3600);
    let Lookup::Stale(msg) = cache.get(&k, at_ttl) else {
        panic!("expected Stale at exactly effective_ttl");
    };
    assert_eq!(msg.answers[0].ttl, STALE_TTL_SECS);
}

#[test]
fn stale_at_end_of_window() {
    let mut cache = Cache::new(16);
    let now = START;
    let k = key("example.com.");
    cache.insert(k.clone(), &noerror_a("example.com.", 3600), now);

    // elapsed = effective_ttl + STALE_WINDOW_SECS - 1 → still Stale
    let at_end = now + secs(3600 + STALE_WINDOW_SECS - 1);
    assert!(matches!(cache.get(&k, at_end), Lookup::Stale(_)));
}

#[test]
fn miss_past_stale_window() {
    let mut cache = Cache::new(16);
    let now = START;
    let k = key("example.com.");
    cache.insert(k.clone(), &noerror_a("example.com.", 3600), now);

    // elapsed = effective_ttl + STALE_WINDOW_SECS → Miss, entry removed
    let past = now + secs(3600 + STALE_WINDOW_SECS);
    assert!(matches!(cache.get(&k, past), Lookup::Miss));
    assert_eq!(cache.len(), 0);
}

// -----------------------------------------------------------------------
// Response code filtering
// -----------------------------------------------------------------------

#[test]
fn noerror_cached() {
    let mut cache = Cache::new(16);
    let now = START;
    let k = key("example.com.");
    cache.insert(k.clone(), &noerror_a("example.com.", 300), now);
    assert!(matches!(cache.get(&k, now), Lookup::Fresh(_)));
}

#[test]
fn nxdomain_cached() {
    let mut cache = Cache::new(16);
    let now = START;
    let k = key("nx.example.com.");
    cache.insert(k.clone(), &nxdomain("nx.example.com.", 300), now);
    let Lookup::Fresh(msg) = cache.get(&k, now) else {
        panic!("expected Fresh");
    };
    assert_eq!(msg.metadata.response_code, NX_DOMAIN);
}

#[test]
fn servfail_not_cached() {
    let mut cache = Cache::new(16);
    let now = START;
    let k = key("fail.example.com.");
    let mut msg = Message::new(0, MessageType::Response, OP_QUERY);
    msg.metadata.response_code = SERV_FAIL;
    cache.insert(k.clone(), &msg, now);
    assert!(matches!(cache.get(&k, now), Lookup::Miss));
}

#[test]
fn refused_not_cached() {
    let mut cache = Cache::new(16);
    let now = START;
    let k = key("refused.example.com.");
    let mut msg = Message::new(0, MessageType::Response, OP_QUERY);
    msg.metadata.response_code = REFUSED;
    cache.insert(k.clone(), &msg, now);
    assert!(matches!(cache.get(&k, now), Lookup::Miss));
}

// -----------------------------------------------------------------------
// LRU eviction
// -----------------------------------------------------------------------

#[test]
fn eviction_removes_lru() {
    let mut cache = Cache::new(2);
    let now = START;

    let k1 = key("a.example.com.");
    let k2 = key("b.example.com.");
    let k3 = key("c.example.com.");

    cache.insert(k1.clone(), &noerror_a("a.example.com.", 3600), now);
    cache.insert(k2.clone(), &noerror_a("b.example.com.", 3600), now);
    // k1 is LRU. Inserting k3 should evict k1.
    cache.insert(k3.clone(), &noerror_a("c.example.com.", 3600), now);

    assert!(matches!(cache.get(&k1, now), Lookup::Miss));
    assert!(matches!(cache.get(&k2, now), Lookup::Fresh(_)));
    assert!(matches!(cache.get(&k3, now), Lookup::Fresh(_)));
    assert_eq!(cache.len(), 2);
}

#[test]
fn get_refreshes_recency() {
    let mut cache = Cache::new(2);
    let now = START;

    let k1 = key("a.example.com.");
    let k2 = key("b.example.com.");
    let k3 = key("c.example.com.");

    cache.insert(k1.clone(), &noerror_a("a.example.com.", 3600), now);
    cache.insert(k2.clone(), &noerror_a("b.example.com.", 3600), now);

    // Access k1 so k2 becomes LRU.
    let _ = cache.get(&k1, now);

    cache.insert(k3.clone(), &noerror_a("c.example.com.", 3600), now);

    // k2 should have been evicted, not k1.
    assert!(matches!(cache.get(&k1, now), Lookup::Fresh(_)));
    assert!(matches!(cache.get(&k2, now), Lookup::Miss));
    assert!(matches!(cache.get(&k3, now), Lookup::Fresh(_)));
}

#[test]
fn capacity_one_edge() {
    let mut cache = Cache::new(1);
    let now = START;

    let k1 = key("a.example.com.");
    let k2 = key("b.example.com.");

    cache.insert(k1.clone(), &noerror_a("a.example.com.", 3600), now);
    assert_eq!(cache.len(), 1);
    assert!(matches!(cache.get(&k1, now), Lookup::Fresh(_)));

    cache.insert(k2.clone(), &noerror_a("b.example.com.", 3600), now);
    assert_eq!(cache.len(), 1);
    assert!(matches!(cache.get(&k1, now), Lookup::Miss));
    assert!(matches!(cache.get(&k2, now), Lookup::Fresh(_)));
}

#[test]
fn replace_existing_updates_in_place() {
    let mut cache = Cache::new(2);
    let now = START;

    let k = key("example.com.");
    cache.insert(k.clone(), &noerror_a("example.com.", 100), now);
    cache.insert(k.clone(), &noerror_a("example.com.", 500), now);

    assert_eq!(cache.len(), 1);
    let Lookup::Fresh(msg) = cache.get(&k, now) else {
        panic!("expected Fresh");
    };
    // Should have the updated TTL.
    assert_eq!(msg.answers[0].ttl, 500);
}

// -----------------------------------------------------------------------
// Case-insensitive key
// -----------------------------------------------------------------------

#[test]
fn case_insensitive_key() {
    let mut cache = Cache::new(16);
    let now = START;

    let k_lower = key("example.com.");
    let k_upper = key("EXAMPLE.COM.");

    cache.insert(k_lower, &noerror_a("example.com.", 3600), now);
    assert!(matches!(cache.get(&k_upper, now), Lookup::Fresh(_)));
    assert_eq!(cache.len(), 1);
}

// -----------------------------------------------------------------------
// Empty record set → MIN_TTL_SECS
// -----------------------------------------------------------------------

#[test]
fn empty_record_set_uses_min_ttl() {
    let mut cache = Cache::new(16);
    let now = START;

    let k = key("empty.example.com.");
    let mut msg = Message::new(0, MessageType::Response, OP_QUERY);
    msg.metadata.response_code = NO_ERROR;
    // No answers, no authorities.
    cache.insert(k.clone(), &msg, now);

    // Should be fresh for MIN_TTL_SECS.
    let at = now + secs(MIN_TTL_SECS - 1);
    assert!(matches!(cache.get(&k, at), Lookup::Fresh(_)));

    let at_min = now + secs(MIN_TTL_SECS);
    assert!(matches!(cache.get(&k, at_min), Lookup::Stale(_)));
}

// -----------------------------------------------------------------------
// Byte budget
// -----------------------------------------------------------------------


#[test]
fn byte_budget_evicts_lru_before_entry_count() {
    // Budget fits roughly three 4KB entries (est ≈ 8K + overhead
    // each), capacity is far larger — bytes must bind first.
    let mut cache = Cache::with_max_bytes(100, 30_000);
    let now = START;
    for i in 0..6u8 {
        let name = format!("b{i}.example.com.");
        cache.insert(key(&name), &bulky(&name, 4096), now);
    }
    let inner_bytes = cache.bytes_total();
    assert!(
        inner_bytes <= 30_000,
        "estimated bytes must stay within budget, at {inner_bytes}"
    );
    assert!(
        cache.len() < 6,
        "byte budget must have evicted entries, len {}",
        cache.len()
    );
    // The survivors are the most recently used.
    assert!(matches!(
        cache.get(&key("b5.example.com."), now),
        Lookup::Fresh(_)
    ));
    assert!(matches!(
        cache.get(&key("b0.example.com."), now),
        Lookup::Miss
    ));
}

#[test]
fn replacing_an_entry_adjusts_byte_accounting() {
    let mut cache = Cache::with_max_bytes(100, 1 << 20);
    let now = START;
    let k = key("swap.example.com.");
    cache.insert(k.clone(), &bulky("swap.example.com.", 16_384), now);
    let big = cache.bytes_total();
    cache.insert(k.clone(), &bulky("swap.example.com.", 64), now);
    let small = cache.bytes_total();
    assert!(
        small < big,
        "shrinking a replaced entry must shrink the total ({big} -> {small})"
    );
    assert_eq!(cache.len(), 1);
}

#[test]
fn eviction_returns_bytes_to_the_budget() {
    let mut cache = Cache::with_max_bytes(2, 1 << 20);
    let now = START;
    cache.insert(key("a.example.com."), &bulky("a.example.com.", 4096), now);
    cache.insert(key("b.example.com."), &bulky("b.example.com.", 4096), now);
    let two = cache.bytes_total();
    // Capacity eviction: a third entry evicts the LRU.
    cache.insert(key("c.example.com."), &bulky("c.example.com.", 4096), now);
    let still_two = cache.bytes_total();
    assert_eq!(cache.len(), 2);
    assert_eq!(two, still_two, "evicted entries must give their bytes back");
}


// -----------------------------------------------------------------------
// len / is_empty
// -----------------------------------------------------------------------

#[test]
fn len_and_is_empty() {
    let mut cache = Cache::new(16);
    let now = START;

    assert!(cache.is_empty());
    assert_eq!(cache.len(), 0);

    let k = key("example.com.");
    cache.insert(k.clone(), &noerror_a("example.com.", 3600), now);
    assert!(!cache.is_empty());
    assert_eq!(cache.len(), 1);
}

// -----------------------------------------------------------------------
// Stale response has correct response code
// -----------------------------------------------------------------------

#[test]
fn stale_preserves_response_code() {
    let mut cache = Cache::new(16);
    let now = START;
    let k = key("nx.example.com.");
    cache.insert(k.clone(), &nxdomain("nx.example.com.", 300), now);

    let stale_time = now + secs(MIN_TTL_SECS);
    let Lookup::Stale(msg) = cache.get(&k, stale_time) else {
        panic!("expected Stale");
    };
    assert_eq!(msg.metadata.response_code, NX_DOMAIN);
}

// -----------------------------------------------------------------------
// Authority records TTL decrement
// -----------------------------------------------------------------------

#[test]
fn authority_records_ttl_decremented() {
    let mut cache = Cache::new(16);
    let now = START;
    let k = key("auth.example.com.");
    cache.insert(k.clone(), &nxdomain("auth.example.com.", 600), now);

    let later = now + secs(200);
    let Lookup::Fresh(msg) = cache.get(&k, later) else {
        panic!("expected Fresh");
    };
    assert_eq!(msg.authorities[0].ttl, 400); // 600 - 200
}

#[test]
fn entry_bytes_are_twice_the_wire_size_plus_overhead() {
    let mut cache = Cache::new(4);
    // Header 12, name 13, type, class, ttl and length 10, address 4.
    cache.insert(key("example.com."), &noerror_a("example.com.", 60), START);
    assert_eq!(cache.bytes_total(), (39 * 2 + ENTRY_OVERHEAD_BYTES) as u128);
}

#[test]
fn unserializable_response_counts_a_fallback_size() {
    let mut cache = Cache::new(4);
    cache.insert_sized(key("a."), &noerror_a("a.", 60), None, START);
    assert_eq!(cache.bytes_total(), 4096 * 2 + 512);
    cache.insert_sized(key("b."), &noerror_a("b.", 60), Some(100), START);
    assert_eq!(cache.bytes_total(), 4096 * 2 + 512 + 200 + 512);
}

#[test]
fn one_oversized_entry_is_kept() {
    let mut cache = Cache::with_max_bytes(4, 1000);
    cache.insert(key("a."), &bulky("a.", 4096), START);
    assert_eq!(cache.len(), 1);
    assert!(cache.bytes_total() > 1000);
    cache.insert(key("b."), &bulky("b.", 4096), START);
    assert_eq!(cache.len(), 1);
    assert!(matches!(cache.get(&key("b."), START), Lookup::Fresh(_)));
    assert!(matches!(cache.get(&key("a."), START), Lookup::Miss));
}

#[test]
fn repeated_lookups_agree() {
    let mut cache = Cache::new(4);
    cache.insert(key("a."), &noerror_a("a.", 600), START);
    let later = START + secs(10);
    for _ in 0..3 {
        let Lookup::Fresh(msg) = cache.get(&key("a."), later) else {
            panic!("expected Fresh");
        };
        assert_eq!(msg.answers[0].ttl, 590);
        assert_eq!(msg.answers[0].data, [1, 2, 3, 4]);
    }
}

#[test]
fn key_texts_tell_keys_apart() {
    let a = CacheKey::new("a.".to_string(), 1, 1).text();
    let b = CacheKey::new("a.".to_string(), 28, 1).text();
    let c = CacheKey::new("a.".to_string(), 1, 3).text();
    let d = CacheKey::new("b.".to_string(), 1, 1).text();
    assert!(a != b && a != c && a != d && b != c);
    assert_eq!(a, CacheKey::new("A.".to_string(), 1, 1).text());
}

#[test]
fn time_before_insertion_counts_as_no_time() {
    let mut cache = Cache::new(4);
    cache.insert(key("a."), &noerror_a("a.", 600), START);
    let Lookup::Fresh(msg) = cache.get(&key("a."), START - secs(5)) else {
        panic!("expected Fresh");
    };
    assert_eq!(msg.answers[0].ttl, 600);
}
