use copium::error::CopyError;
use copium::keepalive::{KeepAlive, INITIAL_CAPACITY, RETAIN_MAX, RETAIN_TARGET};

#[test]
fn test_keepalive_basic() {
    let ka = KeepAlive::new();
    assert_eq!(ka.len(), 0);
    assert!(ka.is_empty());
}

#[test]
fn test_keepalive_capacity() {
    let ka = KeepAlive::new();
    assert!(ka.capacity() >= 16);
}

#[test]
fn keepalive_appends_in_order_and_grows_by_doubling() {
    let mut ka = KeepAlive::new();
    for i in 0..17u64 {
        assert_eq!(ka.append(i * 3), Ok::<(), CopyError>(()));
    }
    assert_eq!(ka.len(), 17);
    assert_eq!(ka.capacity(), 2 * INITIAL_CAPACITY);
    assert_eq!(ka.get(0), Some(0));
    assert_eq!(ka.get(16), Some(48));
    assert_eq!(ka.get(17), None);
    assert_eq!(ka.as_slice()[5], 15);
}

#[test]
fn keepalive_clear_keeps_capacity() {
    let mut ka = KeepAlive::new();
    for i in 0..40u64 {
        ka.append(i).unwrap();
    }
    let cap = ka.capacity();
    ka.clear();
    assert!(ka.is_empty());
    assert_eq!(ka.capacity(), cap);
}

#[test]
fn keepalive_shrinks_only_past_the_ceiling() {
    let mut ka = KeepAlive::new();
    for i in 0..(RETAIN_MAX as u64 + 1) {
        ka.append(i).unwrap();
    }
    assert!(ka.capacity() > RETAIN_MAX);
    ka.clear();
    ka.shrink_if_large();
    assert_eq!(ka.capacity(), RETAIN_TARGET);

    let mut small = KeepAlive::new();
    small.append(1).unwrap();
    small.shrink_if_large();
    assert_eq!(small.capacity(), INITIAL_CAPACITY);
    assert_eq!(small.get(0), Some(1));
}

#[test]
fn keepalive_shrink_keeps_a_long_buffer_whole() {
    let mut ka = KeepAlive::new();
    for i in 0..(RETAIN_MAX as u64 + 1) {
        ka.append(i).unwrap();
    }
    ka.shrink_if_large();
    assert_eq!(ka.capacity(), RETAIN_MAX + 1);
    assert_eq!(ka.len(), RETAIN_MAX + 1);
}
