use std::time::{Duration, SystemTime, UNIX_EPOCH};

use plist_ffi::array::plist_array_append_item;
use plist_ffi::creation::{
    plist_new_array, plist_new_bool, plist_new_data, plist_new_dict, plist_new_int,
    plist_new_real, plist_new_string, plist_new_uid, plist_new_uint, plist_new_unix_date,
};
use plist_ffi::dict::plist_dict_set_item;
use plist_ffi::handle::{Handle, PlistStore};
use plist_ffi::value::{values_equal, Value};
use plist_ffi::PlistErr;

fn to_outside(v: &Value) -> plist::Value {
    match v {
        Value::Boolean(b) => plist::Value::Boolean(*b),
        Value::Integer(i) => {
            if *i < 0 {
                plist::Value::Integer((*i as i64).into())
            } else {
                plist::Value::Integer((*i as u64).into())
            }
        }
        Value::Real(bits) => plist::Value::Real(f64::from_bits(*bits)),
        Value::String(s) => plist::Value::String(s.clone()),
        Value::Data(d) => plist::Value::Data(d.clone()),
        Value::Date(secs) => {
            let t = if *secs >= 0 {
                UNIX_EPOCH + Duration::from_secs(*secs as u64)
            } else {
                UNIX_EPOCH - Duration::from_secs(secs.unsigned_abs())
            };
            plist::Value::Date(t.into())
        }
        Value::Uid(u) => plist::Value::Uid(plist::Uid::new(*u)),
        Value::Array(a) => plist::Value::Array(a.iter().map(to_outside).collect()),
        Value::Dictionary(d) => {
            let mut out = plist::Dictionary::new();
            for (k, v) in d {
                out.insert(k.clone(), to_outside(v));
            }
            plist::Value::Dictionary(out)
        }
    }
}

fn from_outside(v: &plist::Value) -> Value {
    match v {
        plist::Value::Boolean(b) => Value::Boolean(*b),
        plist::Value::Integer(i) => match i.as_signed() {
            Some(s) => Value::Integer(s as i128),
            None => Value::Integer(i.as_unsigned().unwrap() as i128),
        },
        plist::Value::Real(r) => Value::Real(r.to_bits()),
        plist::Value::String(s) => Value::String(s.clone()),
        plist::Value::Data(d) => Value::Data(d.clone()),
        plist::Value::Date(d) => {
            let t: SystemTime = (*d).into();
            let secs = match t.duration_since(UNIX_EPOCH) {
                Ok(x) => x.as_secs() as i64,
                Err(e) => -(e.duration().as_secs() as i64),
            };
            Value::Date(secs)
        }
        plist::Value::Uid(u) => Value::Uid(u.get()),
        plist::Value::Array(a) => Value::Array(a.iter().map(from_outside).collect()),
        plist::Value::Dictionary(d) => {
            Value::Dictionary(d.iter().map(|(k, v)| (k.clone(), from_outside(v))).collect())
        }
        _ => panic!("unexpected value kind"),
    }
}

fn build(store: &mut PlistStore, with_uid: bool, with_data_and_date: bool) -> Handle {
    let root = plist_new_dict(store);
    let list = plist_new_array(store);
    let items = [
        plist_new_bool(store, 1),
        plist_new_int(store, -42),
        plist_new_uint(store, u64::MAX),
        plist_new_real(store, 2.5f64.to_bits()),
        plist_new_string(store, "héllo"),
    ];
    for item in items {
        assert_eq!(plist_array_append_item(store, list, item), PlistErr::PLIST_ERR_SUCCESS);
    }
    assert_eq!(plist_dict_set_item(store, root, "list", list), PlistErr::PLIST_ERR_SUCCESS);
    let inner = plist_new_dict(store);
    let flag = plist_new_bool(store, 0);
    assert_eq!(plist_dict_set_item(store, inner, "flag", flag), PlistErr::PLIST_ERR_SUCCESS);
    assert_eq!(plist_dict_set_item(store, root, "inner", inner), PlistErr::PLIST_ERR_SUCCESS);
    if with_data_and_date {
        let data = plist_new_data(store, vec![0, 1, 2, 255]);
        assert_eq!(plist_dict_set_item(store, root, "data", data), PlistErr::PLIST_ERR_SUCCESS);
        let date = plist_new_unix_date(store, 1_600_000_000);
        assert_eq!(plist_dict_set_item(store, root, "date", date), PlistErr::PLIST_ERR_SUCCESS);
    }
    if with_uid {
        let uid = plist_new_uid(store, 12);
        assert_eq!(plist_dict_set_item(store, root, "uid", uid), PlistErr::PLIST_ERR_SUCCESS);
    }
    root
}

#[test]
fn round_trip_xml() {
    let mut store = PlistStore::new();
    let root = build(&mut store, false, true);
    let before = store.borrow_self(root).unwrap();
    let mut bytes = Vec::new();
    plist::to_writer_xml(&mut bytes, &to_outside(before)).unwrap();
    let back: plist::Value = plist::from_bytes(&bytes).unwrap();
    assert!(values_equal(before, &from_outside(&back)));
}

#[test]
fn round_trip_binary() {
    let mut store = PlistStore::new();
    let root = build(&mut store, true, true);
    let before = store.borrow_self(root).unwrap();
    let mut bytes = Vec::new();
    plist::to_writer_binary(&mut bytes, &to_outside(before)).unwrap();
    let back: plist::Value = plist::from_bytes(&bytes).unwrap();
    assert!(values_equal(before, &from_outside(&back)));
}

#[test]
fn round_trip_json() {
    let mut store = PlistStore::new();
    let root = build(&mut store, false, false);
    let before = store.borrow_self(root).unwrap();
    let bytes = serde_json::to_vec(&to_outside(before)).unwrap();
    let back: plist::Value = serde_json::from_slice(&bytes).unwrap();
    assert!(values_equal(before, &from_outside(&back)));
}

#[test]
fn structural_equality_ignores_dictionary_order() {
    let a = Value::Dictionary(vec![
        ("x".to_string(), Value::Boolean(true)),
        ("y".to_string(), Value::Integer(1)),
    ]);
    let b = Value::Dictionary(vec![
        ("y".to_string(), Value::Integer(1)),
        ("x".to_string(), Value::Boolean(true)),
    ]);
    let c = Value::Dictionary(vec![("x".to_string(), Value::Boolean(true))]);
    assert!(values_equal(&a, &b));
    assert!(!values_equal(&a, &c));
    assert!(!values_equal(&Value::Array(vec![Value::Integer(1)]), &Value::Array(vec![])));
}
