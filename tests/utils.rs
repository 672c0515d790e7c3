use plist_ffi::creation::{
    plist_new_bool, plist_new_data, plist_new_int, plist_new_real, plist_new_string,
    plist_new_uid, plist_new_uint, plist_new_unix_date,
};
use plist_ffi::import::plist_is_binary;
use plist_ffi::handle::PlistStore;
use plist_ffi::utils::{
    is_sub, libplist_version, plist_bool_val_is_true, plist_compare_node_value,
    plist_data_val_compare, plist_data_val_compare_with_size, plist_data_val_contains,
    plist_date_val_compare, plist_int_val_compare, plist_int_val_is_negative,
    plist_key_val_compare, plist_string_val_compare, plist_string_val_compare_with_size,
    plist_string_val_contains, plist_uid_val_compare, plist_uint_val_compare,
};

#[test]
fn is_sub_finds_needles() {
    assert!(is_sub(b"hello world", b"o w"));
    assert!(is_sub(b"abc", b""));
    assert!(is_sub(b"", b""));
    assert!(!is_sub(b"", b"a"));
    assert!(!is_sub(b"abc", b"abcd"));
    assert!(is_sub(b"abc", b"abc"));
    assert!(!is_sub(b"abc", b"ac"));
}

#[test]
fn integer_comparisons() {
    let mut store = PlistStore::new();
    let n = plist_new_int(&mut store, -5);
    let u = plist_new_uint(&mut store, u64::MAX);
    let s = plist_new_string(&mut store, "x");
    assert_eq!(plist_int_val_is_negative(&store, n), 1);
    assert_eq!(plist_int_val_is_negative(&store, u), 0);
    assert_eq!(plist_int_val_compare(&store, n, -5), 0);
    assert_eq!(plist_int_val_compare(&store, n, 0), -1);
    assert_eq!(plist_int_val_compare(&store, u, i64::MAX), 1);
    assert_eq!(plist_uint_val_compare(&store, u, u64::MAX), 0);
    assert_eq!(plist_uint_val_compare(&store, n, 0), -1);
    assert_eq!(plist_int_val_compare(&store, s, 0), -1);
    let id = plist_new_uid(&mut store, 10);
    assert_eq!(plist_uid_val_compare(&store, id, 9), 1);
    assert_eq!(plist_uid_val_compare(&store, n, 9), -1);
    let date = plist_new_unix_date(&mut store, 100);
    assert_eq!(plist_date_val_compare(&store, date, 100), 0);
    assert_eq!(plist_date_val_compare(&store, date, 200), -1);
}

#[test]
fn boolean_truth() {
    let mut store = PlistStore::new();
    let t = plist_new_bool(&mut store, 3);
    let f = plist_new_bool(&mut store, 0);
    let i = plist_new_uint(&mut store, 1);
    assert_eq!(plist_bool_val_is_true(&store, t), 1);
    assert_eq!(plist_bool_val_is_true(&store, f), 0);
    assert_eq!(plist_bool_val_is_true(&store, i), 0);
}

#[test]
fn string_comparisons() {
    let mut store = PlistStore::new();
    let s = plist_new_string(&mut store, "apple");
    assert_eq!(plist_string_val_compare(&store, s, "apple"), 0);
    assert_eq!(plist_string_val_compare(&store, s, "banana"), -1);
    assert_eq!(plist_string_val_compare(&store, s, "app"), 1);
    assert_eq!(plist_key_val_compare(&store, s, "apple"), 0);
    assert_eq!(plist_string_val_compare_with_size(&store, s, "apricot", 2), 0);
    assert_eq!(plist_string_val_compare_with_size(&store, s, "apricot", 3), -1);
    assert_eq!(plist_string_val_contains(&store, s, "ppl"), 1);
    assert_eq!(plist_string_val_contains(&store, s, "pear"), 0);
    let n = plist_new_uint(&mut store, 1);
    assert_eq!(plist_string_val_compare(&store, n, "x"), -1);
    assert_eq!(plist_string_val_contains(&store, n, ""), 0);
}

#[test]
fn data_comparisons() {
    let mut store = PlistStore::new();
    let d = plist_new_data(&mut store, vec![1, 2, 3]);
    assert_eq!(plist_data_val_compare(&store, d, &[1, 2]), 1);
    assert_eq!(plist_data_val_compare(&store, d, &[1, 2, 3]), 0);
    assert_eq!(plist_data_val_compare(&store, d, &[2]), 0);
    assert_eq!(plist_data_val_compare_with_size(&store, d, &[1, 1], 2), 1);
    assert_eq!(plist_data_val_compare_with_size(&store, d, &[1, 2], 2), 0);
    assert_eq!(plist_data_val_contains(&store, d, &[2, 3]), 1);
    assert_eq!(plist_data_val_contains(&store, d, &[3, 2]), 0);
}

#[test]
fn structural_equality() {
    let mut store = PlistStore::new();
    let a = plist_new_string(&mut store, "x");
    let b = plist_new_string(&mut store, "x");
    let c = plist_new_string(&mut store, "y");
    assert_eq!(plist_compare_node_value(&store, a, b), Ok(true));
    assert_eq!(plist_compare_node_value(&store, a, c), Ok(false));
    let nan = plist_new_real(&mut store, f64::NAN.to_bits());
    assert_eq!(plist_compare_node_value(&store, nan, nan), Ok(false));
    let z = plist_new_real(&mut store, 0.0f64.to_bits());
    let mz = plist_new_real(&mut store, (-0.0f64).to_bits());
    assert_eq!(plist_compare_node_value(&store, z, mz), Ok(true));
}

#[test]
fn version_and_binary_sniff() {
    assert_eq!(libplist_version(), "2.0");
    assert_eq!(plist_is_binary(b"<?xml version=\"1.0\"?>"), 0);
    assert_eq!(plist_is_binary(b"bplist00\xd1\x01"), 1);
    assert_eq!(plist_is_binary(b""), 0);
}
