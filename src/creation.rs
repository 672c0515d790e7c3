use vstd::prelude::*;

use crate::handle::{
    allocated, is_live, is_owning, owned_tree, transition, tree_of_handle, wrapper_of, Handle,
    HandleError, NodeType, PlistStore, Slot,
};
use crate::value::{lemma_array_view, lemma_dict_view, Tree, Value};

verus! {

/// `h` is a new owning handle in `new`, holding `t`, produced by no other.
pub open spec fn made_node(old: Seq<Slot>, new: Seq<Slot>, h: Handle, t: Tree) -> bool {
    &&& allocated(old, new, h, wrapper_of(new, h))
    &&& is_owning(new, h)
    &&& owned_tree(new, h) == t
    &&& wrapper_of(new, h).lineage@.len() == 0
}

/// A new owning handle holding an empty dictionary.
pub fn plist_new_dict(store: &mut PlistStore) -> (r: Handle)
    requires
        old(store)@.len() < usize::MAX,
    ensures
        made_node(old(store)@, final(store)@, r, Tree::Dictionary(Seq::empty())),
{
    let d: Vec<(String, Value)> = Vec::new();
    proof {
        lemma_dict_view(d);
        assert(crate::value::entries_view(d@) =~= Seq::empty());
    }
    store.new_node(Value::Dictionary(d))
}

/// A new owning handle holding an empty array.
pub fn plist_new_array(store: &mut PlistStore) -> (r: Handle)
    requires
        old(store)@.len() < usize::MAX,
    ensures
        made_node(old(store)@, final(store)@, r, Tree::Array(Seq::empty())),
{
    let a: Vec<Value> = Vec::new();
    proof {
        lemma_array_view(a);
        assert(crate::value::items_view(a@) =~= Seq::empty());
    }
    store.new_node(Value::Array(a))
}

/// A new owning handle holding the string `val`.
pub fn plist_new_string(store: &mut PlistStore, val: &str) -> (r: Handle)
    requires
        old(store)@.len() < usize::MAX,
    ensures
        made_node(old(store)@, final(store)@, r, Tree::String(val@)),
{
    store.new_node(Value::String(val.to_owned()))
}

/// A new owning handle holding a boolean: false for 0, true otherwise.
pub fn plist_new_bool(store: &mut PlistStore, val: u8) -> (r: Handle)
    requires
        old(store)@.len() < usize::MAX,
    ensures
        made_node(old(store)@, final(store)@, r, Tree::Boolean(val != 0)),
{
    store.new_node(Value::Boolean(val != 0))
}

/// A new owning handle holding the integer `val`.
pub fn plist_new_uint(store: &mut PlistStore, val: u64) -> (r: Handle)
    requires
        old(store)@.len() < usize::MAX,
    ensures
        made_node(old(store)@, final(store)@, r, Tree::Integer(val as int)),
{
    store.new_node(Value::Integer(val as i128))
}

/// A new owning handle holding the integer `val`.
pub fn plist_new_int(store: &mut PlistStore, val: i64) -> (r: Handle)
    requires
        old(store)@.len() < usize::MAX,
    ensures
        made_node(old(store)@, final(store)@, r, Tree::Integer(val as int)),
{
    store.new_node(Value::Integer(val as i128))
}

/// A new owning handle holding the real whose IEEE-754 bit pattern is
/// `val`.
pub fn plist_new_real(store: &mut PlistStore, val: u64) -> (r: Handle)
    requires
        old(store)@.len() < usize::MAX,
    ensures
        made_node(old(store)@, final(store)@, r, Tree::Real(val)),
{
    store.new_node(Value::Real(val))
}

/// A new owning handle holding the bytes `val`.
pub fn plist_new_data(store: &mut PlistStore, val: Vec<u8>) -> (r: Handle)
    requires
        old(store)@.len() < usize::MAX,
    ensures
        made_node(old(store)@, final(store)@, r, Tree::Data(val@)),
{
    store.new_node(Value::Data(val))
}

/// A new owning handle holding the date `sec` seconds after the Unix epoch.
pub fn plist_new_unix_date(store: &mut PlistStore, sec: i64) -> (r: Handle)
    requires
        old(store)@.len() < usize::MAX,
    ensures
        made_node(old(store)@, final(store)@, r, Tree::Date(sec)),
{
    store.new_node(Value::Date(sec))
}

/// A new owning handle holding the unique identifier `val`.
pub fn plist_new_uid(store: &mut PlistStore, val: u64) -> (r: Handle)
    requires
        old(store)@.len() < usize::MAX,
    ensures
        made_node(old(store)@, final(store)@, r, Tree::Uid(val)),
{
    store.new_node(Value::Uid(val))
}

/// A new owning handle standing for "no value": empty data.
pub fn plist_new_null(store: &mut PlistStore) -> (r: Handle)
    requires
        old(store)@.len() < usize::MAX,
    ensures
        made_node(old(store)@, final(store)@, r, Tree::Data(Seq::empty())),
{
    let d: Vec<u8> = Vec::new();
    assert(d@ =~= Seq::<u8>::empty());
    store.new_node(Value::Data(d))
}

/// Frees `plist` and, before it, every handle that it produced, directly or
/// through others.
pub fn plist_free(store: &mut PlistStore, plist: Handle) -> (r: Result<(), HandleError>)
    ensures
        r is Ok <==> is_live(old(store)@, plist),
        r is Ok ==> transition(old(store)@, final(store)@, Some(plist), -1, Tree::Boolean(false)),
        r is Err ==> final(store)@ == old(store)@ && r == Err::<(), HandleError>(
            HandleError::Freed,
        ),
{
    store.free(plist)
}

/// A new owning handle holding a deep copy of what `node` refers to, owning
/// or aliased; for a cursor, a new cursor at the same position.
pub fn plist_copy(store: &mut PlistStore, node: Handle) -> (r: Result<Handle, HandleError>)
    requires
        old(store)@.len() < usize::MAX,
    ensures
        match r {
            Ok(h) => if crate::handle::is_cursor(old(store)@, node) {
                &&& allocated(old(store)@, final(store)@, h, wrapper_of(final(store)@, h))
                &&& wrapper_of(final(store)@, h).node == wrapper_of(old(store)@, node).node
                &&& wrapper_of(final(store)@, h).lineage@.len() == 0
            } else {
                tree_of_handle(old(store)@, node) is Some && made_node(
                    old(store)@,
                    final(store)@,
                    h,
                    tree_of_handle(old(store)@, node)->Some_0,
                )
            },
            Err(e) => final(store)@ == old(store)@ && tree_of_handle(old(store)@, node) is None
                && !crate::handle::is_cursor(old(store)@, node) && e == crate::handle::node_error(
                old(store)@,
                node,
            ),
        },
{
    if let Some(w) = store.wrapper(node) {
        if let NodeType::Iterator(i) = &w.node {
            let i = *i;
            let h = store.new_cursor(i);
            return Ok(h);
        }
    }
    let v = match store.borrow_self(node) {
        Ok(v) => v.deep_copy(),
        Err(e) => {
            return Err(e);
        },
    };
    Ok(store.new_node(v))
}

} // verus!
