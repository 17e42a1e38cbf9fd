use lead_build::strkey::{StrKey, StrKeyPool};

#[test]
fn test_same_string_returns_same_key() {
    let mut pool = StrKeyPool::new();
    let a = pool.get("test_same_string_returns_same_key/foo");
    let b = pool.get("test_same_string_returns_same_key/foo");
    assert_eq!(a, b);
}

#[test]
fn test_different_strings_return_different_keys() {
    let mut pool = StrKeyPool::new();
    let a = pool.get("test_different_strings_return_different_keys/foo");
    let b = pool.get("test_different_strings_return_different_keys/bar");
    assert_ne!(a, b);
}

#[test]
fn test_strkey_to_string_round_trip() {
    let mut pool = StrKeyPool::new();
    let key = pool.get("test_strkey_to_string_round_trip/baz");
    assert_eq!(
        pool.as_string(&key),
        "test_strkey_to_string_round_trip/baz".to_string()
    );
}

#[test]
fn strkey_out_of_range_has_no_string() {
    let pool = StrKeyPool::new();
    assert_eq!(pool.try_as_string(&StrKey::from_raw_id(usize::MAX)), None);
}

#[test]
fn raw_ids_round_trip() {
    let mut pool = StrKeyPool::new();
    let a = pool.get("a");
    let b = pool.get("b");
    assert_eq!(a.get_raw_id(), 0);
    assert_eq!(b.get_raw_id(), 1);
    assert_eq!(StrKey::from_raw_id(1), b);
}

#[test]
fn keys_are_equal_exactly_when_strings_are() {
    let mut pool = StrKeyPool::new();
    let a = pool.get("one");
    let b = pool.get("two");
    let c = pool.get("one");
    assert_eq!(a, c);
    assert_ne!(a, b);
    assert_eq!(StrKey::from_raw_id(a.get_raw_id()), a);
}
