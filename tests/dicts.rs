use plist_ffi::creation::{
    plist_new_bool, plist_new_data, plist_new_dict, plist_new_int, plist_new_real,
    plist_new_string, plist_new_uid, plist_new_uint, plist_new_unix_date,
};
use plist_ffi::dict::{
    plist_dict_copy_bool, plist_dict_copy_data, plist_dict_copy_int, plist_dict_copy_item,
    plist_dict_copy_string, plist_dict_copy_uint, plist_dict_get_bool, plist_dict_get_int,
    plist_dict_get_item, plist_dict_get_item_key, plist_dict_get_size, plist_dict_get_uint,
    plist_dict_item_get_key, plist_dict_merge, plist_dict_new_iter, plist_dict_next_item,
    plist_dict_remove_item, plist_dict_set_item,
};
use plist_ffi::getters::{
    plist_get_bool_val, plist_get_data_val, plist_get_int_val, plist_get_real_val,
    plist_get_string_val, plist_get_uid_val, plist_get_uint_val, plist_get_unix_date_val,
};
use plist_ffi::handle::{Handle, PlistStore};
use plist_ffi::PlistErr;

fn dict_with(store: &mut PlistStore, entries: &[(&str, Handle)]) -> Handle {
    let d = plist_new_dict(store);
    for (k, v) in entries {
        assert_eq!(plist_dict_set_item(store, d, k, *v), PlistErr::PLIST_ERR_SUCCESS);
    }
    d
}

fn keys(store: &mut PlistStore, d: Handle) -> Vec<String> {
    let it = plist_dict_new_iter(store, d).unwrap();
    let mut out = Vec::new();
    while let Some((k, _)) = plist_dict_next_item(store, d, it).unwrap() {
        out.push(k);
    }
    out
}

fn uint_at(store: &mut PlistStore, d: Handle, k: &str) -> Option<u64> {
    let h = plist_dict_get_item(store, d, k)?;
    plist_get_uint_val(store, h)
}

#[test]
fn merge_source_wins_on_collision() {
    let mut store = PlistStore::new();
    let a1 = plist_new_uint(&mut store, 1);
    let b2 = plist_new_uint(&mut store, 2);
    let source = dict_with(&mut store, &[("a", a1), ("b", b2)]);
    let a0 = plist_new_uint(&mut store, 0);
    let c3 = plist_new_uint(&mut store, 3);
    let target = dict_with(&mut store, &[("a", a0), ("c", c3)]);
    assert_eq!(plist_dict_merge(&mut store, target, source), PlistErr::PLIST_ERR_SUCCESS);
    assert!(!store.is_live(source));
    assert_eq!(plist_dict_get_size(&store, target), 3);
    assert_eq!(uint_at(&mut store, target, "a"), Some(1));
    assert_eq!(uint_at(&mut store, target, "b"), Some(2));
    assert_eq!(uint_at(&mut store, target, "c"), Some(3));
    assert_eq!(keys(&mut store, target), vec!["a", "c", "b"]);
}

#[test]
fn merge_needs_an_owned_dictionary() {
    let mut store = PlistStore::new();
    let x = plist_new_uint(&mut store, 1);
    let target = dict_with(&mut store, &[("x", x)]);
    let s = plist_new_string(&mut store, "no");
    assert_eq!(plist_dict_merge(&mut store, target, s), PlistErr::PLIST_ERR_INVALID_ARG);
    assert!(store.is_live(s));
    let alias = plist_dict_get_item(&mut store, target, "x").unwrap();
    assert_eq!(plist_dict_merge(&mut store, target, alias), PlistErr::PLIST_ERR_INVALID_ARG);
    assert_eq!(plist_dict_get_size(&store, target), 1);
}

#[test]
fn set_overwrites_in_place_and_remove_moves_last() {
    let mut store = PlistStore::new();
    let v1 = plist_new_uint(&mut store, 1);
    let v2 = plist_new_uint(&mut store, 2);
    let v3 = plist_new_uint(&mut store, 3);
    let d = dict_with(&mut store, &[("a", v1), ("b", v2), ("c", v3)]);
    let v9 = plist_new_uint(&mut store, 9);
    assert_eq!(plist_dict_set_item(&mut store, d, "a", v9), PlistErr::PLIST_ERR_SUCCESS);
    assert_eq!(keys(&mut store, d), vec!["a", "b", "c"]);
    assert_eq!(uint_at(&mut store, d, "a"), Some(9));
    assert_eq!(plist_dict_remove_item(&mut store, d, "a"), PlistErr::PLIST_ERR_SUCCESS);
    assert_eq!(keys(&mut store, d), vec!["c", "b"]);
    assert_eq!(plist_dict_remove_item(&mut store, d, "a"), PlistErr::PLIST_ERR_INVALID_ARG);
}

#[test]
fn cursor_gives_keys_in_insertion_order() {
    let mut store = PlistStore::new();
    let v1 = plist_new_uint(&mut store, 1);
    let v2 = plist_new_uint(&mut store, 2);
    let d = dict_with(&mut store, &[("z", v1), ("a", v2)]);
    let it = plist_dict_new_iter(&mut store, d).unwrap();
    let (k, h) = plist_dict_next_item(&mut store, d, it).unwrap().unwrap();
    assert_eq!(k, "z");
    assert_eq!(plist_get_uint_val(&store, h), Some(1));
    assert_eq!(plist_dict_get_item_key(&store, h), Ok(Some("z".to_string())));
    let key_node = plist_dict_item_get_key(&mut store, h).unwrap().unwrap();
    assert_eq!(plist_get_string_val(&store, key_node), Some("z".to_string()));
    let (k2, _) = plist_dict_next_item(&mut store, d, it).unwrap().unwrap();
    assert_eq!(k2, "a");
    assert_eq!(plist_dict_next_item(&mut store, d, it), Ok(None));
    assert_eq!(plist_dict_get_item_key(&store, d), Ok(None));
}

#[test]
fn integer_get_reads_little_endian_blob() {
    let mut store = PlistStore::new();
    let blob = plist_new_data(&mut store, vec![0x34, 0x12]);
    let d = dict_with(&mut store, &[("k", blob)]);
    assert_eq!(plist_dict_get_int(&store, d, "k"), 0x1234);
    assert_eq!(plist_dict_get_uint(&store, d, "k"), 0x1234);
}

#[test]
fn boolean_get_reads_one_byte_blob() {
    let mut store = PlistStore::new();
    let zero = plist_new_data(&mut store, vec![0x00]);
    let five = plist_new_data(&mut store, vec![0x05]);
    let two = plist_new_data(&mut store, vec![0x01, 0x00]);
    let d = dict_with(&mut store, &[("z", zero), ("f", five), ("t", two)]);
    assert_eq!(plist_dict_get_bool(&store, d, "z"), 0);
    assert_eq!(plist_dict_get_bool(&store, d, "f"), 1);
    assert_eq!(plist_dict_get_bool(&store, d, "t"), 0);
}

#[test]
fn integer_get_falls_back_to_hex() {
    let mut store = PlistStore::new();
    let s = plist_new_string(&mut store, "2A");
    let dec = plist_new_string(&mut store, "10");
    let neg = plist_new_string(&mut store, "-12");
    let junk = plist_new_string(&mut store, "zz");
    let d = dict_with(&mut store, &[("h", s), ("d", dec), ("n", neg), ("j", junk)]);
    assert_eq!(plist_dict_get_int(&store, d, "h"), 42);
    assert_eq!(plist_dict_get_uint(&store, d, "h"), 42);
    assert_eq!(plist_dict_get_int(&store, d, "d"), 10);
    assert_eq!(plist_dict_get_int(&store, d, "n"), -12);
    assert_eq!(plist_dict_get_uint(&store, d, "n"), 0);
    assert_eq!(plist_dict_get_int(&store, d, "j"), 0);
    assert_eq!(plist_dict_get_int(&store, d, "missing"), 0);
}

#[test]
fn coercion_of_wide_blobs_and_integers() {
    let mut store = PlistStore::new();
    let b4 = plist_new_data(&mut store, vec![0xff, 0xff, 0xff, 0xff]);
    let b8 = plist_new_data(&mut store, vec![1, 0, 0, 0, 0, 0, 0, 0x80]);
    let b3 = plist_new_data(&mut store, vec![1, 2, 3]);
    let big = plist_new_uint(&mut store, u64::MAX);
    let minus = plist_new_int(&mut store, -1);
    let d = dict_with(&mut store, &[("b4", b4), ("b8", b8), ("b3", b3), ("big", big), ("m", minus)]);
    assert_eq!(plist_dict_get_int(&store, d, "b4"), -1);
    assert_eq!(plist_dict_get_uint(&store, d, "b4"), 0xffff_ffff);
    assert_eq!(plist_dict_get_int(&store, d, "b8"), i64::MIN + 1);
    assert_eq!(plist_dict_get_uint(&store, d, "b8"), 0x8000_0000_0000_0001);
    assert_eq!(plist_dict_get_int(&store, d, "b3"), 0);
    assert_eq!(plist_dict_get_int(&store, d, "big"), -1);
    assert_eq!(plist_dict_get_uint(&store, d, "m"), u64::MAX);
    assert_eq!(plist_dict_get_bool(&store, d, "m"), 0);
    assert_eq!(plist_dict_get_bool(&store, d, "big"), 1);
}

#[test]
fn boolean_get_reads_text_in_any_case() {
    let mut store = PlistStore::new();
    let t = plist_new_string(&mut store, "TrUe");
    let f = plist_new_string(&mut store, "FALSE");
    let y = plist_new_string(&mut store, "yes");
    let b = plist_new_bool(&mut store, 1);
    let d = dict_with(&mut store, &[("t", t), ("f", f), ("y", y), ("b", b)]);
    assert_eq!(plist_dict_get_bool(&store, d, "t"), 1);
    assert_eq!(plist_dict_get_bool(&store, d, "f"), 0);
    assert_eq!(plist_dict_get_bool(&store, d, "y"), 0);
    assert_eq!(plist_dict_get_bool(&store, d, "b"), 1);
}

#[test]
fn typed_copies_store_coerced_values() {
    let mut store = PlistStore::new();
    let s = plist_new_string(&mut store, "2A");
    let blob = plist_new_data(&mut store, vec![0x05]);
    let text = plist_new_string(&mut store, "hello");
    let source = dict_with(&mut store, &[("s", s), ("blob", blob), ("text", text)]);
    let target = plist_new_dict(&mut store);

    assert_eq!(plist_dict_copy_int(&mut store, target, source, "n", Some("s")), PlistErr::PLIST_ERR_SUCCESS);
    let n = plist_dict_get_item(&mut store, target, "n").unwrap();
    assert_eq!(plist_get_int_val(&store, n), Some(42));

    assert_eq!(plist_dict_copy_uint(&mut store, target, source, "u", Some("s")), PlistErr::PLIST_ERR_SUCCESS);
    assert_eq!(plist_dict_get_uint(&store, target, "u"), 42);

    assert_eq!(plist_dict_copy_bool(&mut store, target, source, "flag", Some("blob")), PlistErr::PLIST_ERR_SUCCESS);
    let flag = plist_dict_get_item(&mut store, target, "flag").unwrap();
    assert_eq!(plist_get_bool_val(&store, flag), Some(1));

    assert_eq!(plist_dict_copy_bool(&mut store, target, source, "text", None), PlistErr::PLIST_ERR_INVALID_ARG);
    assert_eq!(plist_dict_copy_string(&mut store, target, source, "text", None), PlistErr::PLIST_ERR_SUCCESS);
    let t = plist_dict_get_item(&mut store, target, "text").unwrap();
    assert_eq!(plist_get_string_val(&store, t), Some("hello".to_string()));

    assert_eq!(plist_dict_copy_data(&mut store, target, source, "blob", None), PlistErr::PLIST_ERR_SUCCESS);
    let b = plist_dict_get_item(&mut store, target, "blob").unwrap();
    assert_eq!(plist_get_data_val(&store, b), Some(vec![0x05]));
    assert_eq!(plist_dict_copy_data(&mut store, target, source, "text", None), PlistErr::PLIST_ERR_INVALID_ARG);
    assert_eq!(plist_dict_copy_string(&mut store, target, source, "blob", None), PlistErr::PLIST_ERR_INVALID_ARG);
    assert_eq!(plist_dict_copy_item(&mut store, target, source, "none", None), PlistErr::PLIST_ERR_INVALID_ARG);
    assert_eq!(plist_dict_get_size(&store, target), 5);
}

#[test]
fn copy_item_is_deep() {
    let mut store = PlistStore::new();
    let inner = plist_new_uint(&mut store, 1);
    let nested = dict_with(&mut store, &[("x", inner)]);
    let source = dict_with(&mut store, &[("n", nested)]);
    let target = plist_new_dict(&mut store);
    assert_eq!(plist_dict_copy_item(&mut store, target, source, "n", None), PlistErr::PLIST_ERR_SUCCESS);
    let copy = plist_dict_get_item(&mut store, target, "n").unwrap();
    let x = plist_dict_get_item(&mut store, copy, "x").unwrap();
    assert_eq!(plist_get_uint_val(&store, x), Some(1));
    let nine = plist_new_uint(&mut store, 9);
    assert_eq!(plist_dict_set_item(&mut store, copy, "x", nine), PlistErr::PLIST_ERR_SUCCESS);
    let orig = plist_dict_get_item(&mut store, source, "n").unwrap();
    assert_eq!(uint_at(&mut store, orig, "x"), Some(1));
}

#[test]
fn scalar_getters_round_trip() {
    let mut store = PlistStore::new();
    let r = plist_new_real(&mut store, 1.5f64.to_bits());
    assert_eq!(plist_get_real_val(&store, r).map(f64::from_bits), Some(1.5));
    let u = plist_new_uid(&mut store, 77);
    assert_eq!(plist_get_uid_val(&store, u), Some(77));
    let t = plist_new_unix_date(&mut store, 1_700_000_000);
    assert_eq!(plist_get_unix_date_val(&store, t), Some(1_700_000_000));
    let big = plist_new_uint(&mut store, u64::MAX);
    assert_eq!(plist_get_int_val(&store, big), None);
    assert_eq!(plist_get_uint_val(&store, big), Some(u64::MAX));
    assert_eq!(plist_get_uid_val(&store, big), None);
}

#[test]
fn sort_orders_keys_bytewise() {
    let mut store = PlistStore::new();
    let v1 = plist_new_uint(&mut store, 1);
    let v2 = plist_new_uint(&mut store, 2);
    let v3 = plist_new_uint(&mut store, 3);
    let v4 = plist_new_uint(&mut store, 4);
    let d = dict_with(&mut store, &[("b", v1), ("a", v2), ("B", v3), ("ab", v4)]);
    assert_eq!(plist_ffi::utils::plist_sort(&mut store, d), PlistErr::PLIST_ERR_SUCCESS);
    assert_eq!(keys(&mut store, d), vec!["B", "a", "ab", "b"]);
    assert_eq!(uint_at(&mut store, d, "a"), Some(2));
    let s = plist_new_string(&mut store, "x");
    assert_eq!(plist_ffi::utils::plist_sort(&mut store, s), PlistErr::PLIST_ERR_INVALID_ARG);
}
