use vstd::prelude::*;

use crate::array::{check_step, cursor_pos, make_alias, made_alias, step_error};
use crate::coerce::{coerce_bool, coerce_i64, coerce_u64, value_to_bool, value_to_i64, value_to_u64};
use crate::handle::{
    allocated, can_move_into, is_alias, is_cursor, is_live, lemma_consumed_keeps,
    lemma_consumed_then_rewritten, lemma_rewritten_twice, location, rewritten,
    rewritten_consuming, tree_of_handle, wrapper_of, Handle, HandleError, NodeType, PlistStore,
    Slot,
};
use crate::value::{
    dict_extend, dict_find, dict_get, dict_insert, dict_remove, dict_extend_entries,
    dict_insert_entry, dict_remove_entry, entries_view, lemma_dict_view,
    lemma_key_index, PathElem, Step, Tree, Value,
};
use crate::PlistErr;

verus! {

/// The entries of the dictionary that `h` refers to, if it refers to one.
pub open spec fn dict_of(s: Seq<Slot>, h: Handle) -> Option<Seq<(Seq<char>, Tree)>> {
    match tree_of_handle(s, h) {
        Some(Tree::Dictionary(d)) => Some(d),
        _ => None,
    }
}

/// The number of entries of the dictionary that `node` refers to (cut to 32
/// bits); 0 for anything else.
pub fn plist_dict_get_size(store: &PlistStore, node: Handle) -> (r: u32)
    ensures
        r == match dict_of(store@, node) {
            Some(d) => d.len() as u32,
            None => 0,
        },
{
    match store.borrow_self(node) {
        Ok(Value::Dictionary(d)) => {
            proof {
                lemma_dict_view(*d);
            }
            d.len() as u32
        },
        _ => 0,
    }
}

/// A new cursor at position 0, produced by `node`.
pub fn plist_dict_new_iter(store: &mut PlistStore, node: Handle) -> (r: Result<Handle, HandleError>)
    requires
        old(store)@.len() < usize::MAX,
    ensures
        r is Ok <==> is_live(old(store)@, node),
        match r {
            Ok(h) => {
                &&& allocated(old(store)@, final(store)@, h, wrapper_of(final(store)@, h))
                &&& wrapper_of(final(store)@, h).node == NodeType::Iterator(0)
                &&& wrapper_of(final(store)@, h).lineage@ == wrapper_of(old(store)@, node).lineage@.push(node)
            },
            Err(e) => e == HandleError::Freed && final(store)@ == old(store)@,
        },
{
    crate::array::plist_array_new_iter(store, node)
}

/// The key of entry `i` of the dictionary that `node` refers to.
fn entry_key(store: &PlistStore, node: Handle, i: usize) -> (r: Option<String>)
    ensures
        match r {
            Some(k) => dict_of(store@, node) is Some && i < dict_of(store@, node)->Some_0.len() && k@
                == dict_of(store@, node)->Some_0[i as int].0,
            None => !(dict_of(store@, node) is Some && i < dict_of(store@, node)->Some_0.len()),
        },
{
    match store.borrow_self(node) {
        Ok(Value::Dictionary(d)) => {
            proof {
                lemma_dict_view(*d);
            }
            if i < d.len() {
                Some(d[i].0.clone())
            } else {
                None
            }
        },
        _ => None,
    }
}

/// Moves cursor `iter` one step over the dictionary that `node` refers to,
/// in insertion order, and gives the key of the entry it stepped over with
/// a new alias, produced by `node`, for its value; `None` past the end.
/// Where `node` does not refer to a dictionary nothing changes.
pub fn plist_dict_next_item(store: &mut PlistStore, node: Handle, iter: Handle) -> (r: Result<
    Option<(String, Handle)>,
    HandleError,
>)
    requires
        old(store)@.len() < usize::MAX,
    ensures
        r is Ok <==> (tree_of_handle(old(store)@, node) is Some && is_cursor(old(store)@, iter)),
        match r {
            Err(e) => final(store)@ == old(store)@ && e == step_error(old(store)@, node, iter),
            Ok(x) => match dict_of(old(store)@, node) {
                Some(d) => {
                    let p = cursor_pos(old(store)@, iter);
                    &&& is_cursor(final(store)@, iter)
                    &&& cursor_pos(final(store)@, iter) == if p < u32::MAX {
                        (p + 1) as u32
                    } else {
                        p
                    }
                    &&& tree_of_handle(final(store)@, node) == tree_of_handle(old(store)@, node)
                    &&& x is Some <==> p < d.len()
                    &&& x matches Some((k, h)) ==> {
                        &&& k@ == d[p as int].0
                        &&& !is_live(old(store)@, h)
                        &&& h.index < old(store)@.len() ==> old(store)@[h.index as int].wrapper is None
                        &&& is_alias(final(store)@, h)
                        &&& tree_of_handle(final(store)@, h) == dict_get(d, k@)
                        &&& wrapper_of(final(store)@, h).lineage@ == wrapper_of(
                            old(store)@,
                            node,
                        ).lineage@.push(node)
                    }
                    &&& final(store)@.len() >= old(store)@.len()
                    &&& forall|i: int|
                        0 <= i < old(store)@.len() && i != iter.index && (x is None
                            || i != x->Some_0.1.index) ==> #[trigger] final(store)@[i]
                            == old(store)@[i]
                },
                None => x is None && final(store)@ == old(store)@,
            },
        },
{
    let ghost s0 = store@;
    check_step(store, node, iter)?;
    match store.borrow_self(node) {
        Ok(Value::Dictionary(_)) => {},
        _ => {
            return Ok(None);
        },
    }
    let p = match store.advance(iter) {
        Ok(p) => p,
        Err(e) => {
            return Err(e);
        },
    };
    let ghost s1 = store@;
    proof {
        let (root, path) = location(s0, node)->Some_0;
        assert(s1[node.index as int] == s0[node.index as int]);
        assert(s1[root.index as int] == s0[root.index as int]);
        assert(location(s1, node) == location(s0, node));
    }
    match entry_key(store, node, p as usize) {
        Some(k) => {
            proof {
                let d = dict_of(s0, node)->Some_0;
                lemma_key_index(d, k@);
            }
            let h = make_alias(store, node, PathElem::Key(k.clone()), u32::MAX, Some(k.clone()));
            proof {
                assert(store@[iter.index as int] == s1[iter.index as int]);
                if h.index < s0.len() && h.index != iter.index {
                    assert(s1[h.index as int] == s0[h.index as int]);
                }
                let (root, path) = location(s0, node)->Some_0;
                assert(store@[node.index as int] == s1[node.index as int]);
                assert(store@[root.index as int] == s1[root.index as int]);
            }
            Ok(Some((k, h)))
        },
        None => Ok(None),
    }
}

/// The key that the alias `node` was made for, if it was made for a
/// dictionary entry.
pub fn plist_dict_get_item_key(store: &PlistStore, node: Handle) -> (r: Result<Option<String>, HandleError>)
    ensures
        match r {
            Ok(k) => is_live(store@, node) && !is_cursor(store@, node) && match wrapper_of(
                store@,
                node,
            ).node {
                NodeType::Child { key, .. } => k == key,
                _ => k is None,
            },
            Err(e) => e == if !is_live(store@, node) {
                HandleError::Freed
            } else {
                HandleError::IsCursor
            } && (!is_live(store@, node) || is_cursor(store@, node)),
        },
{
    match store.wrapper(node) {
        Some(w) => match &w.node {
            NodeType::Node(_) => Ok(None),
            NodeType::Child { key, .. } => match key {
                Some(k) => Ok(Some(k.clone())),
                None => Ok(None),
            },
            NodeType::Iterator(_) => Err(HandleError::IsCursor),
        },
        None => Err(HandleError::Freed),
    }
}

/// Whether the dictionary that `node` refers to has an entry under `key`.
fn dict_has(store: &PlistStore, node: Handle, key: &String) -> (r: bool)
    ensures
        r == (dict_of(store@, node) is Some && dict_get(dict_of(store@, node)->Some_0, key@) is Some),
{
    match store.borrow_self(node) {
        Ok(Value::Dictionary(d)) => {
            proof {
                lemma_dict_view(*d);
            }
            dict_find(d, key).is_some()
        },
        _ => false,
    }
}

/// A new alias, produced by `node`, for the value under `key` in the
/// dictionary that `node` refers to; `None` (and no change) where there is
/// none.
pub fn plist_dict_get_item(store: &mut PlistStore, node: Handle, key: &str) -> (r: Option<Handle>)
    requires
        old(store)@.len() < usize::MAX,
    ensures
        r is Some <==> (dict_of(old(store)@, node) is Some && dict_get(
            dict_of(old(store)@, node)->Some_0,
            key@,
        ) is Some),
        match r {
            Some(h) => {
                &&& made_alias(old(store)@, final(store)@, node, h, Step::Key(key@))
                &&& tree_of_handle(final(store)@, h) == dict_get(dict_of(old(store)@, node)->Some_0, key@)
                &&& (wrapper_of(final(store)@, h).node matches NodeType::Child { index, key: k, .. }
                    && index == u32::MAX && k is Some && k->Some_0@ == key@)
            },
            None => final(store)@ == old(store)@,
        },
{
    let k = key.to_owned();
    if dict_has(store, node, &k) {
        let k2 = key.to_owned();
        Some(make_alias(store, node, PathElem::Key(k), u32::MAX, Some(k2)))
    } else {
        None
    }
}

/// A new owning handle holding, as a string, the key that the alias `node`
/// was made for; `None` where it was not made for a dictionary entry.
pub fn plist_dict_item_get_key(store: &mut PlistStore, node: Handle) -> (r: Result<Option<Handle>, HandleError>)
    requires
        old(store)@.len() < usize::MAX,
    ensures
        match r {
            Ok(Some(h)) => {
                &&& is_alias(old(store)@, node)
                &&& (wrapper_of(old(store)@, node).node matches NodeType::Child { key: Some(k), .. }
                    && crate::handle::owned_tree(final(store)@, h) == Tree::String(k@))
                &&& allocated(old(store)@, final(store)@, h, wrapper_of(final(store)@, h))
                &&& crate::handle::is_owning(final(store)@, h)
            },
            Ok(None) => is_live(old(store)@, node) && !is_cursor(old(store)@, node) && !(wrapper_of(old(store)@, node).node matches NodeType::Child { key: Some(_), .. })
                && final(store)@ == old(store)@,
            Err(e) => final(store)@ == old(store)@ && (!is_live(old(store)@, node) || is_cursor(old(store)@, node)),
        },
{
    match plist_dict_get_item_key(store, node)? {
        Some(k) => Ok(Some(store.new_node(Value::String(k)))),
        None => Ok(None),
    }
}

/// Puts `v` under `key` in the dictionary that `node` refers to.
fn insert_into_dict(store: &mut PlistStore, node: Handle, key: String, v: Value)
    requires
        dict_of(old(store)@, node) is Some,
    ensures
        rewritten(
            old(store)@,
            final(store)@,
            node,
            Tree::Dictionary(dict_insert(dict_of(old(store)@, node)->Some_0, key@, v@)),
        ),
{
    let ghost s0 = store@;
    let ghost kv = key@;
    let ghost vv = v@;
    let cur = store.take_value(node);
    let ghost s1 = store@;
    let new_value = match cur {
        Value::Dictionary(d) => {
            let mut d = d;
            proof {
                lemma_dict_view(d);
            }
            dict_insert_entry(&mut d, key, v);
            proof {
                lemma_dict_view(d);
            }
            Value::Dictionary(d)
        },
        other => other,
    };
    store.set_value(node, new_value);
    proof {
        lemma_rewritten_twice(s0, s1, store@, node, Tree::Boolean(false), new_value@);
    }
}

/// Moves the value of the owning handle `item` under `key` into the
/// dictionary that `node` refers to, replacing what stood there. `item` and
/// every handle it produced are freed.
pub fn plist_dict_set_item(store: &mut PlistStore, node: Handle, key: &str, item: Handle) -> (r: PlistErr)
    ensures
        r == PlistErr::PLIST_ERR_SUCCESS <==> (dict_of(old(store)@, node) is Some && can_move_into(
            old(store)@,
            node,
            item,
        )),
        r != PlistErr::PLIST_ERR_SUCCESS ==> r == PlistErr::PLIST_ERR_INVALID_ARG && final(store)@
            == old(store)@,
        r == PlistErr::PLIST_ERR_SUCCESS ==> rewritten_consuming(
            old(store)@,
            final(store)@,
            node,
            item,
            Tree::Dictionary(
                dict_insert(
                    dict_of(old(store)@, node)->Some_0,
                    key@,
                    crate::handle::owned_tree(old(store)@, item),
                ),
            ),
        ),
{
    let ghost s0 = store@;
    match store.borrow_self(node) {
        Ok(Value::Dictionary(_)) => {},
        _ => {
            return PlistErr::PLIST_ERR_INVALID_ARG;
        },
    }
    if !store.can_move_into(node, item) {
        return PlistErr::PLIST_ERR_INVALID_ARG;
    }
    let v = match store.consume(item) {
        Ok(v) => v,
        Err(_) => {
            return PlistErr::PLIST_ERR_INVALID_ARG;
        },
    };
    let ghost s1 = store@;
    proof {
        lemma_consumed_keeps(s0, s1, node, item);
    }
    let ghost vv = v@;
    insert_into_dict(store, node, key.to_owned(), v);
    proof {
        lemma_consumed_then_rewritten(s0, s1, store@, node, item, Tree::Dictionary(
            dict_insert(dict_of(s0, node)->Some_0, key@, vv),
        ));
    }
    PlistErr::PLIST_ERR_SUCCESS
}

/// Removes the entry under `key` from the dictionary that `node` refers to;
/// the last entry takes its place in the order.
pub fn plist_dict_remove_item(store: &mut PlistStore, node: Handle, key: &str) -> (r: PlistErr)
    ensures
        r == PlistErr::PLIST_ERR_SUCCESS <==> (dict_of(old(store)@, node) is Some && dict_get(
            dict_of(old(store)@, node)->Some_0,
            key@,
        ) is Some),
        r != PlistErr::PLIST_ERR_SUCCESS ==> r == PlistErr::PLIST_ERR_INVALID_ARG && final(store)@
            == old(store)@,
        r == PlistErr::PLIST_ERR_SUCCESS ==> rewritten(
            old(store)@,
            final(store)@,
            node,
            Tree::Dictionary(dict_remove(dict_of(old(store)@, node)->Some_0, key@)),
        ),
{
    let ghost s0 = store@;
    let k = key.to_owned();
    if !dict_has(store, node, &k) {
        return PlistErr::PLIST_ERR_INVALID_ARG;
    }
    let cur = store.take_value(node);
    let ghost s1 = store@;
    let new_value = match cur {
        Value::Dictionary(d) => {
            let mut d = d;
            proof {
                lemma_dict_view(d);
            }
            let _ = dict_remove_entry(&mut d, &k);
            proof {
                lemma_dict_view(d);
            }
            Value::Dictionary(d)
        },
        other => other,
    };
    store.set_value(node, new_value);
    proof {
        lemma_rewritten_twice(s0, s1, store@, node, Tree::Boolean(false), new_value@);
    }
    PlistErr::PLIST_ERR_SUCCESS
}

/// Moves every entry of the dictionary that the owning handle `source`
/// holds into the dictionary that `target` refers to, in order; where both
/// have a key, the entry from `source` wins. `source` and every handle it
/// produced are freed.
pub fn plist_dict_merge(store: &mut PlistStore, target: Handle, source: Handle) -> (r: PlistErr)
    ensures
        r == PlistErr::PLIST_ERR_SUCCESS <==> (dict_of(old(store)@, target) is Some
            && can_move_into(old(store)@, target, source) && crate::handle::owned_tree(
            old(store)@,
            source,
        ) is Dictionary),
        r != PlistErr::PLIST_ERR_SUCCESS ==> r == PlistErr::PLIST_ERR_INVALID_ARG && final(store)@
            == old(store)@,
        r == PlistErr::PLIST_ERR_SUCCESS ==> rewritten_consuming(
            old(store)@,
            final(store)@,
            target,
            source,
            Tree::Dictionary(
                dict_extend(
                    dict_of(old(store)@, target)->Some_0,
                    crate::handle::owned_tree(old(store)@, source)->Dictionary_0,
                ),
            ),
        ),
{
    let ghost s0 = store@;
    match store.borrow_self(target) {
        Ok(Value::Dictionary(_)) => {},
        _ => {
            return PlistErr::PLIST_ERR_INVALID_ARG;
        },
    }
    if !store.can_move_into(target, source) {
        return PlistErr::PLIST_ERR_INVALID_ARG;
    }
    match store.borrow_self(source) {
        Ok(Value::Dictionary(_)) => {},
        _ => {
            return PlistErr::PLIST_ERR_INVALID_ARG;
        },
    }
    let src = match store.consume(source) {
        Ok(Value::Dictionary(d)) => d,
        _ => {
            return PlistErr::PLIST_ERR_INVALID_ARG;
        },
    };
    proof {
        lemma_dict_view(src);
    }
    let ghost s1 = store@;
    proof {
        lemma_consumed_keeps(s0, s1, target, source);
    }
    let cur = store.take_value(target);
    let ghost s2 = store@;
    let new_value = match cur {
        Value::Dictionary(d) => {
            let mut d = d;
            proof {
                lemma_dict_view(d);
            }
            dict_extend_entries(&mut d, src);
            proof {
                lemma_dict_view(d);
            }
            Value::Dictionary(d)
        },
        other => other,
    };
    store.set_value(target, new_value);
    proof {
        lemma_rewritten_twice(s1, s2, store@, target, Tree::Boolean(false), new_value@);
        lemma_consumed_then_rewritten(s0, s1, store@, target, source, new_value@);
    }
    PlistErr::PLIST_ERR_SUCCESS
}

/// The value under `key` in the dictionary that `h` refers to.
pub open spec fn entry_of(s: Seq<Slot>, h: Handle, key: Seq<char>) -> Option<Tree> {
    match dict_of(s, h) {
        Some(d) => dict_get(d, key),
        None => None,
    }
}

/// The boolean that the entry under `key` stands for.
fn internal_get_bool(d: &Vec<(String, Value)>, key: &String) -> (r: Option<bool>)
    ensures
        r == match dict_get(entries_view(d@), key@) {
            Some(t) => coerce_bool(t),
            None => None,
        },
{
    match dict_find(d, key) {
        Some(i) => value_to_bool(&d[i].1),
        None => None,
    }
}

/// The signed integer that the entry under `key` stands for.
fn internal_get_i64(d: &Vec<(String, Value)>, key: &String) -> (r: Option<i64>)
    ensures
        match r {
            Some(x) => dict_get(entries_view(d@), key@) matches Some(t) && coerce_i64(t) == Some(
                x as int,
            ),
            None => !(dict_get(entries_view(d@), key@) matches Some(t) && coerce_i64(t) is Some),
        },
{
    match dict_find(d, key) {
        Some(i) => value_to_i64(&d[i].1),
        None => None,
    }
}

/// The unsigned integer that the entry under `key` stands for.
fn internal_get_u64(d: &Vec<(String, Value)>, key: &String) -> (r: Option<u64>)
    ensures
        match r {
            Some(x) => dict_get(entries_view(d@), key@) matches Some(t) && coerce_u64(t) == Some(
                x as int,
            ),
            None => !(dict_get(entries_view(d@), key@) matches Some(t) && coerce_u64(t) is Some),
        },
{
    match dict_find(d, key) {
        Some(i) => value_to_u64(&d[i].1),
        None => None,
    }
}

/// The boolean that the entry under `key` of the dictionary `dict` refers
/// to stands for, as 1 or 0; 0 where there is none.
pub fn plist_dict_get_bool(store: &PlistStore, dict: Handle, key: &str) -> (r: u8)
    ensures
        r == (if entry_of(store@, dict, key@) matches Some(t) && coerce_bool(t) == Some(true) {
            1u8
        } else {
            0u8
        }),
{
    let k = key.to_owned();
    match store.borrow_self(dict) {
        Ok(Value::Dictionary(d)) => {
            proof {
                lemma_dict_view(*d);
            }
            match internal_get_bool(d, &k) {
                Some(true) => 1,
                _ => 0,
            }
        },
        _ => 0,
    }
}

/// The signed integer that the entry under `key` of the dictionary `dict`
/// refers to stands for; 0 where there is none.
pub fn plist_dict_get_int(store: &PlistStore, dict: Handle, key: &str) -> (r: i64)
    ensures
        r as int == (if entry_of(store@, dict, key@) matches Some(t) && coerce_i64(t) is Some {
            coerce_i64(entry_of(store@, dict, key@)->Some_0)->Some_0
        } else {
            0
        }),
{
    let k = key.to_owned();
    match store.borrow_self(dict) {
        Ok(Value::Dictionary(d)) => {
            proof {
                lemma_dict_view(*d);
            }
            match internal_get_i64(d, &k) {
                Some(v) => v,
                None => 0,
            }
        },
        _ => 0,
    }
}

/// The unsigned integer that the entry under `key` of the dictionary `dict`
/// refers to stands for; 0 where there is none.
pub fn plist_dict_get_uint(store: &PlistStore, dict: Handle, key: &str) -> (r: u64)
    ensures
        r as int == (if entry_of(store@, dict, key@) matches Some(t) && coerce_u64(t) is Some {
            coerce_u64(entry_of(store@, dict, key@)->Some_0)->Some_0
        } else {
            0
        }),
{
    let k = key.to_owned();
    match store.borrow_self(dict) {
        Ok(Value::Dictionary(d)) => {
            proof {
                lemma_dict_view(*d);
            }
            match internal_get_u64(d, &k) {
                Some(v) => v,
                None => 0,
            }
        },
        _ => 0,
    }
}

/// What a typed copy stores.
pub enum CopyKind {
    Item,
    Bool,
    Int,
    Uint,
    Data,
    Text,
}

/// What a copy of kind `k` stores for the value `t`, if `t` qualifies.
pub open spec fn converted(k: CopyKind, t: Tree) -> Option<Tree> {
    match k {
        CopyKind::Item => Some(t),
        CopyKind::Bool => match coerce_bool(t) {
            Some(b) => Some(Tree::Boolean(b)),
            None => None,
        },
        CopyKind::Int => match coerce_i64(t) {
            Some(i) => Some(Tree::Integer(i)),
            None => None,
        },
        CopyKind::Uint => match coerce_u64(t) {
            Some(i) => Some(Tree::Integer(i)),
            None => None,
        },
        CopyKind::Data => if t is Data {
            Some(t)
        } else {
            None
        },
        CopyKind::Text => if t is String {
            Some(t)
        } else {
            None
        },
    }
}

fn convert(k: &CopyKind, v: &Value) -> (r: Option<Value>)
    ensures
        match r {
            Some(x) => converted(*k, v@) == Some(x@),
            None => converted(*k, v@) is None,
        },
{
    match k {
        CopyKind::Item => Some(v.deep_copy()),
        CopyKind::Bool => match value_to_bool(v) {
            Some(b) => Some(Value::Boolean(b)),
            None => None,
        },
        CopyKind::Int => match value_to_i64(v) {
            Some(i) => Some(Value::Integer(i as i128)),
            None => None,
        },
        CopyKind::Uint => match value_to_u64(v) {
            Some(i) => Some(Value::Integer(i as i128)),
            None => None,
        },
        CopyKind::Data => match v {
            Value::Data(_) => Some(v.deep_copy()),
            _ => None,
        },
        CopyKind::Text => match v {
            Value::String(_) => Some(v.deep_copy()),
            _ => None,
        },
    }
}

/// The key that a copy looks up: `alt` where given, else `key`.
pub open spec fn lookup_key(key: &str, alt: Option<&str>) -> Seq<char> {
    match alt {
        Some(a) => a@,
        None => key@,
    }
}

/// Whether a copy of kind `k` from `source` to `target` succeeds.
pub open spec fn copy_ok(s: Seq<Slot>, target: Handle, source: Handle, lk: Seq<char>, k: CopyKind) -> bool {
    &&& dict_of(s, target) is Some
    &&& entry_of(s, source, lk) is Some
    &&& converted(k, entry_of(s, source, lk)->Some_0) is Some
}

/// What a successful copy of kind `k` leaves.
pub open spec fn copied(
    old: Seq<Slot>,
    new: Seq<Slot>,
    target: Handle,
    source: Handle,
    key: Seq<char>,
    lk: Seq<char>,
    k: CopyKind,
) -> bool {
    rewritten(
        old,
        new,
        target,
        Tree::Dictionary(
            dict_insert(
                dict_of(old, target)->Some_0,
                key,
                converted(k, entry_of(old, source, lk)->Some_0)->Some_0,
            ),
        ),
    )
}

fn copy_entry(
    store: &mut PlistStore,
    target: Handle,
    source: Handle,
    key: &str,
    alt: Option<&str>,
    k: CopyKind,
) -> (r: PlistErr)
    ensures
        r == PlistErr::PLIST_ERR_SUCCESS <==> copy_ok(old(store)@, target, source, lookup_key(key, alt), k),
        r != PlistErr::PLIST_ERR_SUCCESS ==> r == PlistErr::PLIST_ERR_INVALID_ARG && final(store)@
            == old(store)@,
        r == PlistErr::PLIST_ERR_SUCCESS ==> copied(old(store)@, final(store)@, target, source, key@, lookup_key(key, alt), k),
{
    let lk = match alt {
        Some(a) => a.to_owned(),
        None => key.to_owned(),
    };
    match store.borrow_self(target) {
        Ok(Value::Dictionary(_)) => {},
        _ => {
            return PlistErr::PLIST_ERR_INVALID_ARG;
        },
    }
    let v = match store.borrow_self(source) {
        Ok(Value::Dictionary(d)) => {
            proof {
                lemma_dict_view(*d);
            }
            match dict_find(d, &lk) {
                Some(i) => match convert(&k, &d[i].1) {
                    Some(v) => v,
                    None => {
                        return PlistErr::PLIST_ERR_INVALID_ARG;
                    },
                },
                None => {
                    return PlistErr::PLIST_ERR_INVALID_ARG;
                },
            }
        },
        _ => {
            return PlistErr::PLIST_ERR_INVALID_ARG;
        },
    };
    insert_into_dict(store, target, key.to_owned(), v);
    PlistErr::PLIST_ERR_SUCCESS
}

/// Copies the entry under `alt_source_key` (else `key`) of the dictionary
/// that `source_plist` refers to into the one that `target_plist` refers to,
/// under `key`, as a deep copy.
pub fn plist_dict_copy_item(
    store: &mut PlistStore,
    target_plist: Handle,
    source_plist: Handle,
    key: &str,
    alt_source_key: Option<&str>,
) -> (r: PlistErr)
    ensures
        r == PlistErr::PLIST_ERR_SUCCESS <==> copy_ok(old(store)@, target_plist, source_plist, lookup_key(key, alt_source_key), CopyKind::Item),
        r != PlistErr::PLIST_ERR_SUCCESS ==> r == PlistErr::PLIST_ERR_INVALID_ARG && final(store)@
            == old(store)@,
        r == PlistErr::PLIST_ERR_SUCCESS ==> copied(old(store)@, final(store)@, target_plist, source_plist, key@, lookup_key(key, alt_source_key), CopyKind::Item),
{
    copy_entry(store, target_plist, source_plist, key, alt_source_key, CopyKind::Item)
}

/// Like `plist_dict_copy_item`, but stores the boolean that the entry
/// stands for; fails where it stands for none.
pub fn plist_dict_copy_bool(
    store: &mut PlistStore,
    target_plist: Handle,
    source_plist: Handle,
    key: &str,
    alt_source_key: Option<&str>,
) -> (r: PlistErr)
    ensures
        r == PlistErr::PLIST_ERR_SUCCESS <==> copy_ok(old(store)@, target_plist, source_plist, lookup_key(key, alt_source_key), CopyKind::Bool),
        r != PlistErr::PLIST_ERR_SUCCESS ==> r == PlistErr::PLIST_ERR_INVALID_ARG && final(store)@
            == old(store)@,
        r == PlistErr::PLIST_ERR_SUCCESS ==> copied(old(store)@, final(store)@, target_plist, source_plist, key@, lookup_key(key, alt_source_key), CopyKind::Bool),
{
    copy_entry(store, target_plist, source_plist, key, alt_source_key, CopyKind::Bool)
}

/// Like `plist_dict_copy_item`, but stores the signed integer that the
/// entry stands for; fails where it stands for none.
pub fn plist_dict_copy_int(
    store: &mut PlistStore,
    target_plist: Handle,
    source_plist: Handle,
    key: &str,
    alt_source_key: Option<&str>,
) -> (r: PlistErr)
    ensures
        r == PlistErr::PLIST_ERR_SUCCESS <==> copy_ok(old(store)@, target_plist, source_plist, lookup_key(key, alt_source_key), CopyKind::Int),
        r != PlistErr::PLIST_ERR_SUCCESS ==> r == PlistErr::PLIST_ERR_INVALID_ARG && final(store)@
            == old(store)@,
        r == PlistErr::PLIST_ERR_SUCCESS ==> copied(old(store)@, final(store)@, target_plist, source_plist, key@, lookup_key(key, alt_source_key), CopyKind::Int),
{
    copy_entry(store, target_plist, source_plist, key, alt_source_key, CopyKind::Int)
}

/// Like `plist_dict_copy_item`, but stores the unsigned integer that the
/// entry stands for; fails where it stands for none.
pub fn plist_dict_copy_uint(
    store: &mut PlistStore,
    target_plist: Handle,
    source_plist: Handle,
    key: &str,
    alt_source_key: Option<&str>,
) -> (r: PlistErr)
    ensures
        r == PlistErr::PLIST_ERR_SUCCESS <==> copy_ok(old(store)@, target_plist, source_plist, lookup_key(key, alt_source_key), CopyKind::Uint),
        r != PlistErr::PLIST_ERR_SUCCESS ==> r == PlistErr::PLIST_ERR_INVALID_ARG && final(store)@
            == old(store)@,
        r == PlistErr::PLIST_ERR_SUCCESS ==> copied(old(store)@, final(store)@, target_plist, source_plist, key@, lookup_key(key, alt_source_key), CopyKind::Uint),
{
    copy_entry(store, target_plist, source_plist, key, alt_source_key, CopyKind::Uint)
}

/// Like `plist_dict_copy_item`, but only for an entry that holds data.
pub fn plist_dict_copy_data(
    store: &mut PlistStore,
    target_plist: Handle,
    source_plist: Handle,
    key: &str,
    alt_source_key: Option<&str>,
) -> (r: PlistErr)
    ensures
        r == PlistErr::PLIST_ERR_SUCCESS <==> copy_ok(old(store)@, target_plist, source_plist, lookup_key(key, alt_source_key), CopyKind::Data),
        r != PlistErr::PLIST_ERR_SUCCESS ==> r == PlistErr::PLIST_ERR_INVALID_ARG && final(store)@
            == old(store)@,
        r == PlistErr::PLIST_ERR_SUCCESS ==> copied(old(store)@, final(store)@, target_plist, source_plist, key@, lookup_key(key, alt_source_key), CopyKind::Data),
{
    copy_entry(store, target_plist, source_plist, key, alt_source_key, CopyKind::Data)
}

/// Like `plist_dict_copy_item`, but only for an entry that holds a string.
pub fn plist_dict_copy_string(
    store: &mut PlistStore,
    target_plist: Handle,
    source_plist: Handle,
    key: &str,
    alt_source_key: Option<&str>,
) -> (r: PlistErr)
    ensures
        r == PlistErr::PLIST_ERR_SUCCESS <==> copy_ok(old(store)@, target_plist, source_plist, lookup_key(key, alt_source_key), CopyKind::Text),
        r != PlistErr::PLIST_ERR_SUCCESS ==> r == PlistErr::PLIST_ERR_INVALID_ARG && final(store)@
            == old(store)@,
        r == PlistErr::PLIST_ERR_SUCCESS ==> copied(old(store)@, final(store)@, target_plist, source_plist, key@, lookup_key(key, alt_source_key), CopyKind::Text),
{
    copy_entry(store, target_plist, source_plist, key, alt_source_key, CopyKind::Text)
}

} // verus!
