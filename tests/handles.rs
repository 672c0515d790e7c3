use plist_ffi::array::{
    plist_array_append_item, plist_array_get_item, plist_array_get_item_index,
    plist_array_get_size, plist_array_insert_item, plist_array_item_remove,
    plist_array_new_iter, plist_array_next_item, plist_array_remove_item, plist_array_set_item,
};
use plist_ffi::creation::{
    plist_copy, plist_free, plist_new_array, plist_new_bool, plist_new_data, plist_new_dict,
    plist_new_int, plist_new_null, plist_new_string, plist_new_uint,
};
use plist_ffi::dict::{plist_dict_get_item, plist_dict_set_item};
use plist_ffi::getters::{plist_get_node_type, plist_get_parent, plist_get_uint_val};
use plist_ffi::handle::{Handle, HandleError, PlistStore};
use plist_ffi::setters::plist_set_uint_val;
use plist_ffi::utils::plist_access_path_shim;
use plist_ffi::value::{PathElem, Value};
use plist_ffi::{PlistErr, PlistType};

fn array_of_uints(store: &mut PlistStore, items: &[u64]) -> Handle {
    let a = plist_new_array(store);
    for &v in items {
        let item = plist_new_uint(store, v);
        assert_eq!(plist_array_append_item(store, a, item), PlistErr::PLIST_ERR_SUCCESS);
    }
    a
}

fn uints(store: &PlistStore, a: Handle) -> Vec<u64> {
    let n = plist_array_get_size(store, a);
    let mut out = Vec::new();
    match store.borrow_self(a).unwrap() {
        Value::Array(items) => {
            for v in items {
                match v {
                    Value::Integer(i) => out.push(*i as u64),
                    _ => panic!("not an integer"),
                }
            }
        }
        _ => panic!("not an array"),
    }
    assert_eq!(out.len() as u32, n);
    out
}

#[test]
fn alias_write_is_seen_by_owner_and_fresh_alias() {
    let mut store = PlistStore::new();
    let a = array_of_uints(&mut store, &[1, 2, 3]);
    let alias = plist_array_get_item(&mut store, a, 1).unwrap();
    assert_eq!(plist_set_uint_val(&mut store, alias, 42), PlistErr::PLIST_ERR_SUCCESS);
    assert_eq!(uints(&store, a), vec![1, 42, 3]);
    let again = plist_array_get_item(&mut store, a, 1).unwrap();
    assert_eq!(plist_get_uint_val(&store, again), Some(42));
    assert_eq!(plist_get_uint_val(&store, alias), Some(42));
}

#[test]
fn get_item_out_of_bounds_is_none() {
    let mut store = PlistStore::new();
    let a = array_of_uints(&mut store, &[1, 2, 3]);
    assert!(plist_array_get_item(&mut store, a, 3).is_none());
    let s = plist_new_string(&mut store, "x");
    assert!(plist_array_get_item(&mut store, s, 0).is_none());
    assert_eq!(plist_array_get_size(&store, s), 0);
}

#[test]
fn free_cascades_to_nested_aliases_only() {
    let mut store = PlistStore::new();
    let d = plist_new_dict(&mut store);
    let inner = plist_new_array(&mut store);
    let one = plist_new_uint(&mut store, 1);
    assert_eq!(plist_array_append_item(&mut store, inner, one), PlistErr::PLIST_ERR_SUCCESS);
    assert_eq!(plist_dict_set_item(&mut store, d, "list", inner), PlistErr::PLIST_ERR_SUCCESS);
    let other = plist_new_uint(&mut store, 7);

    let a1 = plist_dict_get_item(&mut store, d, "list").unwrap();
    let a2 = plist_array_get_item(&mut store, a1, 0).unwrap();
    let a3 = plist_get_parent(&mut store, a2).unwrap();
    let a4 = plist_dict_get_item(&mut store, d, "list").unwrap();
    for h in [d, a1, a2, a3, a4, other] {
        assert!(store.is_live(h));
    }
    assert_eq!(plist_free(&mut store, d), Ok(()));
    for h in [d, a1, a2, a3, a4] {
        assert!(!store.is_live(h));
        assert_eq!(plist_get_node_type(&store, h), Err(HandleError::Freed));
    }
    assert!(store.is_live(other));
    assert_eq!(plist_get_uint_val(&store, other), Some(7));
    assert_eq!(plist_free(&mut store, d), Err(HandleError::Freed));
}

#[test]
fn freeing_an_alias_keeps_the_owner() {
    let mut store = PlistStore::new();
    let a = array_of_uints(&mut store, &[5, 6]);
    let alias = plist_array_get_item(&mut store, a, 0).unwrap();
    let nested = plist_get_parent(&mut store, alias).unwrap();
    assert_eq!(plist_free(&mut store, alias), Ok(()));
    assert!(!store.is_live(nested));
    assert_eq!(uints(&store, a), vec![5, 6]);
}

#[test]
fn consume_owning_once_and_alias_never() {
    let mut store = PlistStore::new();
    let a = array_of_uints(&mut store, &[1, 2]);
    let alias = plist_array_get_item(&mut store, a, 0).unwrap();
    assert!(matches!(store.consume(alias), Err(HandleError::NotOwning)));
    assert_eq!(uints(&store, a), vec![1, 2]);
    match store.consume(a) {
        Ok(Value::Array(items)) => assert_eq!(items.len(), 2),
        _ => panic!("expected the array"),
    }
    assert!(matches!(store.consume(a), Err(HandleError::Freed)));
    assert!(!store.is_live(alias));
}

#[test]
fn consume_cursor_is_refused() {
    let mut store = PlistStore::new();
    let a = plist_new_array(&mut store);
    let it = plist_array_new_iter(&mut store, a).unwrap();
    assert!(matches!(store.consume(it), Err(HandleError::IsCursor)));
    assert_eq!(plist_get_node_type(&store, it), Err(HandleError::IsCursor));
}

#[test]
fn clone_of_alias_is_independent() {
    let mut store = PlistStore::new();
    let a = array_of_uints(&mut store, &[1, 2, 3]);
    let alias = plist_array_get_item(&mut store, a, 1).unwrap();
    let copy = plist_copy(&mut store, alias).unwrap();
    assert_eq!(plist_get_uint_val(&store, copy), Some(2));
    assert_eq!(plist_set_uint_val(&mut store, copy, 99), PlistErr::PLIST_ERR_SUCCESS);
    assert_eq!(plist_get_uint_val(&store, copy), Some(99));
    assert_eq!(uints(&store, a), vec![1, 2, 3]);
    assert_eq!(plist_get_uint_val(&store, alias), Some(2));
    assert!(matches!(store.consume(copy), Ok(Value::Integer(99))));
}

#[test]
fn cursor_walks_in_order_then_ends_and_restarts() {
    let mut store = PlistStore::new();
    let a = array_of_uints(&mut store, &[10, 20, 30]);
    let it = plist_array_new_iter(&mut store, a).unwrap();
    let mut seen = Vec::new();
    let mut handles = Vec::new();
    for _ in 0..3 {
        let h = plist_array_next_item(&mut store, a, it).unwrap().unwrap();
        seen.push(plist_get_uint_val(&store, h).unwrap());
        assert_eq!(plist_array_get_item_index(&store, h), Ok(handles.len() as u32));
        handles.push(h);
    }
    assert_eq!(seen, vec![10, 20, 30]);
    assert!(handles[0] != handles[1] && handles[1] != handles[2] && handles[0] != handles[2]);
    assert_eq!(plist_array_next_item(&mut store, a, it), Ok(None));
    let it2 = plist_array_new_iter(&mut store, a).unwrap();
    let first = plist_array_next_item(&mut store, a, it2).unwrap().unwrap();
    assert_eq!(plist_get_uint_val(&store, first), Some(10));
}

#[test]
fn cursor_misuse_is_an_error() {
    let mut store = PlistStore::new();
    let a = array_of_uints(&mut store, &[1]);
    let b = plist_new_bool(&mut store, 1);
    assert_eq!(plist_array_next_item(&mut store, a, b), Err(HandleError::NotCursor));
    let it = plist_array_new_iter(&mut store, b).unwrap();
    assert_eq!(plist_array_next_item(&mut store, b, it), Ok(None));
    assert_eq!(plist_array_next_item(&mut store, it, it), Err(HandleError::IsCursor));
}

#[test]
fn moving_an_alias_in_is_refused() {
    let mut store = PlistStore::new();
    let a = array_of_uints(&mut store, &[1, 2]);
    let alias = plist_array_get_item(&mut store, a, 0).unwrap();
    assert_eq!(plist_array_append_item(&mut store, a, alias), PlistErr::PLIST_ERR_INVALID_ARG);
    assert_eq!(plist_array_append_item(&mut store, a, a), PlistErr::PLIST_ERR_INVALID_ARG);
    assert_eq!(plist_array_append_item(&mut store, alias, a), PlistErr::PLIST_ERR_INVALID_ARG);
    assert_eq!(uints(&store, a), vec![1, 2]);
    assert!(store.is_live(alias));
}

#[test]
fn array_set_insert_remove() {
    let mut store = PlistStore::new();
    let a = array_of_uints(&mut store, &[1, 2, 3]);
    let x = plist_new_uint(&mut store, 9);
    assert_eq!(plist_array_set_item(&mut store, a, x, 0), PlistErr::PLIST_ERR_SUCCESS);
    assert!(!store.is_live(x));
    assert_eq!(uints(&store, a), vec![9, 2, 3]);
    let y = plist_new_uint(&mut store, 8);
    assert_eq!(plist_array_insert_item(&mut store, a, y, 3), PlistErr::PLIST_ERR_SUCCESS);
    assert_eq!(uints(&store, a), vec![9, 2, 3, 8]);
    let z = plist_new_uint(&mut store, 7);
    assert_eq!(plist_array_insert_item(&mut store, a, z, 5), PlistErr::PLIST_ERR_INVALID_ARG);
    assert!(store.is_live(z));
    assert_eq!(plist_array_set_item(&mut store, a, z, 4), PlistErr::PLIST_ERR_INVALID_ARG);
    assert_eq!(plist_array_remove_item(&mut store, a, 1), PlistErr::PLIST_ERR_SUCCESS);
    assert_eq!(uints(&store, a), vec![9, 3, 8]);
    assert_eq!(plist_array_remove_item(&mut store, a, 3), PlistErr::PLIST_ERR_INVALID_ARG);
}

#[test]
fn alias_removes_itself_and_stale_position_fails() {
    let mut store = PlistStore::new();
    let a = array_of_uints(&mut store, &[1, 2, 3]);
    let last = plist_array_get_item(&mut store, a, 2).unwrap();
    let first = plist_array_get_item(&mut store, a, 0).unwrap();
    assert_eq!(plist_array_item_remove(&mut store, first), PlistErr::PLIST_ERR_SUCCESS);
    assert_eq!(uints(&store, a), vec![2, 3]);
    assert_eq!(plist_array_item_remove(&mut store, last), PlistErr::PLIST_ERR_INVALID_ARG);
    assert_eq!(plist_get_node_type(&store, last), Err(HandleError::Dangling));
    assert_eq!(plist_array_item_remove(&mut store, a), PlistErr::PLIST_ERR_INVALID_ARG);
}

#[test]
fn item_index_reports_position() {
    let mut store = PlistStore::new();
    let a = array_of_uints(&mut store, &[4, 5]);
    let h = plist_array_get_item(&mut store, a, 1).unwrap();
    assert_eq!(plist_array_get_item_index(&store, h), Ok(1));
    assert_eq!(plist_array_get_item_index(&store, a), Ok(u32::MAX));
}

#[test]
fn path_resolver_walks_keys_and_indexes() {
    let mut store = PlistStore::new();
    let d = plist_new_dict(&mut store);
    let a = array_of_uints(&mut store, &[11, 12]);
    assert_eq!(plist_dict_set_item(&mut store, d, "nums", a), PlistErr::PLIST_ERR_SUCCESS);
    let path = vec![PathElem::Key("nums".to_string()), PathElem::Index(1)];
    let h = plist_access_path_shim(&mut store, d, &path).unwrap();
    assert_eq!(plist_get_uint_val(&store, h), Some(12));
    let bad = vec![PathElem::Key("nums".to_string()), PathElem::Index(2)];
    assert!(plist_access_path_shim(&mut store, d, &bad).is_none());
    let wrong = vec![PathElem::Index(0)];
    assert!(plist_access_path_shim(&mut store, d, &wrong).is_none());
    let missing = vec![PathElem::Key("other".to_string())];
    assert!(plist_access_path_shim(&mut store, d, &missing).is_none());
    assert_eq!(plist_free(&mut store, d), Ok(()));
    assert!(!store.is_live(h));
}

#[test]
fn parent_of_alias_sees_container() {
    let mut store = PlistStore::new();
    let a = array_of_uints(&mut store, &[1, 2]);
    let h = plist_array_get_item(&mut store, a, 0).unwrap();
    let p = plist_get_parent(&mut store, h).unwrap();
    assert_eq!(plist_get_node_type(&store, p), Ok(PlistType::PLIST_ARRAY));
    assert_eq!(plist_array_get_size(&store, p), 2);
    assert!(plist_get_parent(&mut store, a).is_none());
}

#[test]
fn node_types_of_new_values() {
    let mut store = PlistStore::new();
    let n = plist_new_null(&mut store);
    assert_eq!(plist_get_node_type(&store, n), Ok(PlistType::PLIST_DATA));
    let i = plist_new_int(&mut store, -3);
    assert_eq!(plist_get_node_type(&store, i), Ok(PlistType::PLIST_INT));
    let d = plist_new_data(&mut store, vec![1, 2]);
    assert_eq!(plist_get_node_type(&store, d), Ok(PlistType::PLIST_DATA));
    let stale = Handle { index: 1000, generation: 0 };
    assert_eq!(plist_get_node_type(&store, stale), Err(HandleError::Freed));
}
