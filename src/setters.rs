use vstd::prelude::*;

use crate::handle::{location, rewritten, Handle, PlistStore};
use crate::value::{Tree, Value};
use crate::PlistErr;

verus! {

/// Puts `v` where `node` refers, in place of what stood there.
fn set_node(store: &mut PlistStore, node: Handle, v: Value) -> (r: PlistErr)
    ensures
        r == PlistErr::PLIST_ERR_SUCCESS <==> location(old(store)@, node) is Some,
        r != PlistErr::PLIST_ERR_SUCCESS ==> r == PlistErr::PLIST_ERR_INVALID_ARG && final(store)@
            == old(store)@,
        r == PlistErr::PLIST_ERR_SUCCESS ==> rewritten(old(store)@, final(store)@, node, v@),
{
    match store.borrow_self(node) {
        Ok(_) => {},
        Err(_) => {
            return PlistErr::PLIST_ERR_INVALID_ARG;
        },
    }
    store.set_value(node, v);
    PlistErr::PLIST_ERR_SUCCESS
}

/// Makes what `node` refers to the string `val`.
pub fn plist_set_key_val(store: &mut PlistStore, node: Handle, val: &str) -> (r: PlistErr)
    ensures
        r == PlistErr::PLIST_ERR_SUCCESS <==> location(old(store)@, node) is Some,
        r != PlistErr::PLIST_ERR_SUCCESS ==> r == PlistErr::PLIST_ERR_INVALID_ARG && final(store)@
            == old(store)@,
        r == PlistErr::PLIST_ERR_SUCCESS ==> rewritten(old(store)@, final(store)@, node, Tree::String(val@)),
{
    set_node(store, node, Value::String(val.to_owned()))
}

/// Makes what `node` refers to the string `val`.
pub fn plist_set_string_val(store: &mut PlistStore, node: Handle, val: &str) -> (r: PlistErr)
    ensures
        r == PlistErr::PLIST_ERR_SUCCESS <==> location(old(store)@, node) is Some,
        r != PlistErr::PLIST_ERR_SUCCESS ==> r == PlistErr::PLIST_ERR_INVALID_ARG && final(store)@
            == old(store)@,
        r == PlistErr::PLIST_ERR_SUCCESS ==> rewritten(old(store)@, final(store)@, node, Tree::String(val@)),
{
    set_node(store, node, Value::String(val.to_owned()))
}

/// Makes what `node` refers to a boolean: false for 0, true otherwise.
pub fn plist_set_bool_val(store: &mut PlistStore, node: Handle, val: u8) -> (r: PlistErr)
    ensures
        r == PlistErr::PLIST_ERR_SUCCESS <==> location(old(store)@, node) is Some,
        r != PlistErr::PLIST_ERR_SUCCESS ==> r == PlistErr::PLIST_ERR_INVALID_ARG && final(store)@
            == old(store)@,
        r == PlistErr::PLIST_ERR_SUCCESS ==> rewritten(old(store)@, final(store)@, node, Tree::Boolean(val != 0)),
{
    set_node(store, node, Value::Boolean(val != 0))
}

/// Makes what `node` refers to the integer `val`.
pub fn plist_set_uint_val(store: &mut PlistStore, node: Handle, val: u64) -> (r: PlistErr)
    ensures
        r == PlistErr::PLIST_ERR_SUCCESS <==> location(old(store)@, node) is Some,
        r != PlistErr::PLIST_ERR_SUCCESS ==> r == PlistErr::PLIST_ERR_INVALID_ARG && final(store)@
            == old(store)@,
        r == PlistErr::PLIST_ERR_SUCCESS ==> rewritten(old(store)@, final(store)@, node, Tree::Integer(val as int)),
{
    set_node(store, node, Value::Integer(val as i128))
}

/// Makes what `node` refers to the integer `val`.
pub fn plist_set_int_val(store: &mut PlistStore, node: Handle, val: i64) -> (r: PlistErr)
    ensures
        r == PlistErr::PLIST_ERR_SUCCESS <==> location(old(store)@, node) is Some,
        r != PlistErr::PLIST_ERR_SUCCESS ==> r == PlistErr::PLIST_ERR_INVALID_ARG && final(store)@
            == old(store)@,
        r == PlistErr::PLIST_ERR_SUCCESS ==> rewritten(old(store)@, final(store)@, node, Tree::Integer(val as int)),
{
    set_node(store, node, Value::Integer(val as i128))
}

/// Makes what `node` refers to the real whose IEEE-754 bit pattern is `val`.
pub fn plist_set_real_val(store: &mut PlistStore, node: Handle, val: u64) -> (r: PlistErr)
    ensures
        r == PlistErr::PLIST_ERR_SUCCESS <==> location(old(store)@, node) is Some,
        r != PlistErr::PLIST_ERR_SUCCESS ==> r == PlistErr::PLIST_ERR_INVALID_ARG && final(store)@
            == old(store)@,
        r == PlistErr::PLIST_ERR_SUCCESS ==> rewritten(old(store)@, final(store)@, node, Tree::Real(val)),
{
    set_node(store, node, Value::Real(val))
}

/// Makes what `node` refers to the bytes `val`.
pub fn plist_set_data_val(store: &mut PlistStore, node: Handle, val: Vec<u8>) -> (r: PlistErr)
    ensures
        r == PlistErr::PLIST_ERR_SUCCESS <==> location(old(store)@, node) is Some,
        r != PlistErr::PLIST_ERR_SUCCESS ==> r == PlistErr::PLIST_ERR_INVALID_ARG && final(store)@
            == old(store)@,
        r == PlistErr::PLIST_ERR_SUCCESS ==> rewritten(old(store)@, final(store)@, node, Tree::Data(val@)),
{
    set_node(store, node, Value::Data(val))
}

/// Makes what `node` refers to the date `sec` seconds after the Unix epoch.
pub fn plist_set_unix_date_val(store: &mut PlistStore, node: Handle, sec: i64) -> (r: PlistErr)
    ensures
        r == PlistErr::PLIST_ERR_SUCCESS <==> location(old(store)@, node) is Some,
        r != PlistErr::PLIST_ERR_SUCCESS ==> r == PlistErr::PLIST_ERR_INVALID_ARG && final(store)@
            == old(store)@,
        r == PlistErr::PLIST_ERR_SUCCESS ==> rewritten(old(store)@, final(store)@, node, Tree::Date(sec)),
{
    set_node(store, node, Value::Date(sec))
}

/// Makes what `node` refers to the unique identifier `val`.
pub fn plist_set_uid_val(store: &mut PlistStore, node: Handle, val: u64) -> (r: PlistErr)
    ensures
        r == PlistErr::PLIST_ERR_SUCCESS <==> location(old(store)@, node) is Some,
        r != PlistErr::PLIST_ERR_SUCCESS ==> r == PlistErr::PLIST_ERR_INVALID_ARG && final(store)@
            == old(store)@,
        r == PlistErr::PLIST_ERR_SUCCESS ==> rewritten(old(store)@, final(store)@, node, Tree::Uid(val)),
{
    set_node(store, node, Value::Uid(val))
}

} // verus!
