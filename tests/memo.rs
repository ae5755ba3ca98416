use copium::error::CopyError;
use copium::hash::hash_pointer;
use copium::memo::{MemoTable, INITIAL_SLOTS, RETAIN_MAX_SLOTS, RETAIN_SHRINK_TO};

#[test]
fn test_memo_basic() {
    let table = MemoTable::new();
    let key = 0x1000u64;
    let hash = hash_pointer(key);
    assert!(table.lookup(key, hash).is_none());
}

#[test]
fn test_memo_capacity() {
    // The table allocates no slot until its first insertion.
    let mut table = MemoTable::new();
    let (size, used, _) = table.stats();
    assert_eq!(size, 0);
    assert_eq!(used, 0);
    table.insert(7, 8, hash_pointer(7)).unwrap();
    let (size, used, _) = table.stats();
    assert!(size > 0);
    assert_eq!(size, INITIAL_SLOTS);
    assert_eq!(used, 1);
}

#[test]
fn hash_pointer_is_deterministic_and_spreads() {
    let h1 = hash_pointer(0x1234);
    let h2 = hash_pointer(0x5678);
    assert_ne!(h1, h2);
    assert_eq!(h1, hash_pointer(0x1234));
    assert_eq!(hash_pointer(0), 0);
    assert_ne!(hash_pointer(1), 1);
}

#[test]
fn hash_pointer_exact_value() {
    let mut h: u64 = 1;
    h ^= h >> 33;
    h = h.wrapping_mul(0xff51afd7ed558ccd);
    h ^= h >> 33;
    h = h.wrapping_mul(0xc4ceb9fe1a85ec53);
    h ^= h >> 33;
    assert_eq!(hash_pointer(1), h);
}

#[test]
fn memo_insert_then_lookup() {
    let mut table = MemoTable::new();
    for k in 0..1000u64 {
        assert_eq!(table.insert(k * 8, k + 1, hash_pointer(k * 8)), Ok::<(), CopyError>(()));
    }
    for k in 0..1000u64 {
        assert_eq!(table.lookup(k * 8, hash_pointer(k * 8)), Some(k + 1));
    }
    assert_eq!(table.lookup(3, hash_pointer(3)), None);
    let (size, used, filled) = table.stats();
    assert_eq!(used, 1000);
    assert!(filled * 10 < size * 7);
    assert!(size.is_power_of_two());
}

#[test]
fn memo_reinsert_updates_the_value() {
    let mut table = MemoTable::new();
    table.insert(42, 1, hash_pointer(42)).unwrap();
    table.insert(42, 2, hash_pointer(42)).unwrap();
    assert_eq!(table.lookup(42, hash_pointer(42)), Some(2));
    assert_eq!(table.stats().1, 1);
}

#[test]
fn memo_grows_at_seventy_percent() {
    let mut table = MemoTable::new();
    for k in 0..11u64 {
        table.insert(k, k, hash_pointer(k)).unwrap();
    }
    assert_eq!(table.stats().0, 16);
    table.insert(11, 11, hash_pointer(11)).unwrap();
    assert_eq!(table.stats().0, 16);
    table.insert(12, 12, hash_pointer(12)).unwrap();
    assert_eq!(table.stats().0, 32);
    for k in 0..13u64 {
        assert_eq!(table.lookup(k, hash_pointer(k)), Some(k));
    }
}

#[test]
fn memo_clear_keeps_capacity() {
    let mut table = MemoTable::new();
    for k in 0..100u64 {
        table.insert(k, k, hash_pointer(k)).unwrap();
    }
    let size = table.stats().0;
    table.clear();
    assert_eq!(table.stats(), (size, 0, 0));
    assert_eq!(table.lookup(5, hash_pointer(5)), None);
}

#[test]
fn memo_shrinks_when_past_the_high_water_mark() {
    let mut table = MemoTable::new();
    for k in 0..100_000u64 {
        table.insert(k, k, hash_pointer(k)).unwrap();
    }
    assert!(table.stats().0 > RETAIN_MAX_SLOTS);
    table.shrink_if_large();
    assert!(table.stats().0 > RETAIN_MAX_SLOTS);
    table.clear();
    table.shrink_if_large();
    assert_eq!(table.stats().0, RETAIN_SHRINK_TO);
    table.insert(9, 10, hash_pointer(9)).unwrap();
    assert_eq!(table.lookup(9, hash_pointer(9)), Some(10));
}
