use vstd::prelude::*;

use crate::handle::{
    allocated, is_alias, location, node_error, owned_tree,
    tree_of_handle, wrapper_of, Handle, HandleError, NodeType, PlistStore,
};
use crate::value::{steps_view, tree_at, Step, Tree, Value};
use crate::PlistType;

verus! {

/// The kind of a value.
pub open spec fn type_of(t: Tree) -> PlistType {
    match t {
        Tree::Boolean(_) => PlistType::PLIST_BOOLEAN,
        Tree::Integer(_) => PlistType::PLIST_INT,
        Tree::Real(_) => PlistType::PLIST_REAL,
        Tree::String(_) => PlistType::PLIST_STRING,
        Tree::Data(_) => PlistType::PLIST_DATA,
        Tree::Date(_) => PlistType::PLIST_DATE,
        Tree::Uid(_) => PlistType::PLIST_UID,
        Tree::Array(_) => PlistType::PLIST_ARRAY,
        Tree::Dictionary(_) => PlistType::PLIST_DICT,
    }
}

/// Where the parent of what the alias `h` refers to lies: the owner and the
/// path with its last step dropped.
pub open spec fn parent_location(s: Seq<crate::handle::Slot>, h: Handle) -> Option<(Handle, Seq<Step>)> {
    match location(s, h) {
        Some((r, p)) => if is_alias(s, h) && p.len() > 0 {
            Some((r, p.drop_last()))
        } else {
            None
        },
        None => None,
    }
}

/// A new alias, produced by `node`, for the container that holds what the
/// alias `node` refers to; `None` (and no change) for an owning handle or
/// an alias whose position is gone.
pub fn plist_get_parent(store: &mut PlistStore, node: Handle) -> (r: Option<Handle>)
    requires
        old(store)@.len() < usize::MAX,
    ensures
        r is Some <==> parent_location(old(store)@, node) is Some,
        match r {
            Some(h) => {
                let (root, p) = parent_location(old(store)@, node)->Some_0;
                &&& allocated(old(store)@, final(store)@, h, wrapper_of(final(store)@, h))
                &&& is_alias(final(store)@, h)
                &&& location(final(store)@, h) == Some((root, p))
                &&& tree_of_handle(final(store)@, h) == tree_at(owned_tree(old(store)@, root), p)
                &&& wrapper_of(final(store)@, h).lineage@ == wrapper_of(old(store)@, node).lineage@.push(node)
                &&& (wrapper_of(final(store)@, h).node matches NodeType::Child { index, key, .. }
                    && index == u32::MAX && key is None)
            },
            None => final(store)@ == old(store)@,
        },
{
    let ghost s0 = store@;
    match store.borrow_self(node) {
        Ok(_) => {},
        Err(_) => {
            return None;
        },
    }
    let (root, mut path) = match store.wrapper(node) {
        Some(w) => match &w.node {
            NodeType::Child { root, path, .. } => (*root, crate::handle::copy_path(path)),
            _ => {
                return None;
            },
        },
        None => {
            return None;
        },
    };
    if path.len() == 0 {
        return None;
    }
    let ghost full = path@;
    let _ = path.pop();
    proof {
        assert(steps_view(path@) =~= steps_view(full).drop_last());
        crate::value::lemma_tree_at_push(owned_tree(s0, root), steps_view(path@), full.last()@);
        assert(steps_view(full) =~= steps_view(path@).push(full.last()@));
    }
    let h = store.new_child(node, NodeType::Child { root, path, index: u32::MAX, key: None });
    proof {
        assert(store@[root.index as int] == s0[root.index as int]);
    }
    Some(h)
}

/// The kind of what `node` refers to; a cursor, a freed handle or a gone
/// position is refused.
pub fn plist_get_node_type(store: &PlistStore, node: Handle) -> (r: Result<PlistType, HandleError>)
    ensures
        match r {
            Ok(t) => tree_of_handle(store@, node) is Some && t == type_of(tree_of_handle(store@, node)->Some_0),
            Err(e) => tree_of_handle(store@, node) is None && e == node_error(store@, node),
        },
{
    match store.borrow_self(node)? {
        Value::Boolean(_) => Ok(PlistType::PLIST_BOOLEAN),
        Value::Integer(_) => Ok(PlistType::PLIST_INT),
        Value::Real(_) => Ok(PlistType::PLIST_REAL),
        Value::String(_) => Ok(PlistType::PLIST_STRING),
        Value::Data(_) => Ok(PlistType::PLIST_DATA),
        Value::Date(_) => Ok(PlistType::PLIST_DATE),
        Value::Uid(_) => Ok(PlistType::PLIST_UID),
        Value::Array(_) => Ok(PlistType::PLIST_ARRAY),
        Value::Dictionary(_) => Ok(PlistType::PLIST_DICT),
    }
}

/// The string that `node` refers to, if it refers to one.
pub fn plist_get_key_val(store: &PlistStore, node: Handle) -> (r: Option<String>)
    ensures
        match r {
            Some(s) => tree_of_handle(store@, node) == Some(Tree::String(s@)),
            None => !(tree_of_handle(store@, node) matches Some(Tree::String(_))),
        },
{
    plist_get_string_val(store, node)
}

/// The string that `node` refers to, if it refers to one.
pub fn plist_get_string_val(store: &PlistStore, node: Handle) -> (r: Option<String>)
    ensures
        match r {
            Some(s) => tree_of_handle(store@, node) == Some(Tree::String(s@)),
            None => !(tree_of_handle(store@, node) matches Some(Tree::String(_))),
        },
{
    match store.borrow_self(node) {
        Ok(Value::String(s)) => Some(s.clone()),
        _ => None,
    }
}

/// The string that `node` refers to, if it refers to one, borrowed.
pub fn plist_get_string_ptr<'a>(store: &'a PlistStore, node: Handle) -> (r: Option<&'a String>)
    ensures
        match r {
            Some(s) => tree_of_handle(store@, node) == Some(Tree::String(s@)),
            None => !(tree_of_handle(store@, node) matches Some(Tree::String(_))),
        },
{
    match store.borrow_self(node) {
        Ok(Value::String(s)) => Some(s),
        _ => None,
    }
}

/// The boolean that `node` refers to, as 1 or 0, if it refers to one.
pub fn plist_get_bool_val(store: &PlistStore, node: Handle) -> (r: Option<u8>)
    ensures
        match r {
            Some(b) => tree_of_handle(store@, node) matches Some(Tree::Boolean(x)) && b == (if x { 1u8 } else { 0u8 }),
            None => !(tree_of_handle(store@, node) matches Some(Tree::Boolean(_))),
        },
{
    match store.borrow_self(node) {
        Ok(Value::Boolean(b)) => Some(if *b { 1 } else { 0 }),
        _ => None,
    }
}

/// The integer that `node` refers to, if it refers to one that fits `u64`.
pub fn plist_get_uint_val(store: &PlistStore, node: Handle) -> (r: Option<u64>)
    ensures
        match r {
            Some(v) => tree_of_handle(store@, node) == Some(Tree::Integer(v as int)),
            None => !(tree_of_handle(store@, node) matches Some(Tree::Integer(i)) && 0 <= i <= u64::MAX),
        },
{
    match store.borrow_self(node) {
        Ok(Value::Integer(i)) => if *i >= 0 && *i <= 0xffff_ffff_ffff_ffff {
            Some(*i as u64)
        } else {
            None
        },
        _ => None,
    }
}

/// The integer that `node` refers to, if it refers to one that fits `i64`.
pub fn plist_get_int_val(store: &PlistStore, node: Handle) -> (r: Option<i64>)
    ensures
        match r {
            Some(v) => tree_of_handle(store@, node) == Some(Tree::Integer(v as int)),
            None => !(tree_of_handle(store@, node) matches Some(Tree::Integer(i)) && i64::MIN <= i <= i64::MAX),
        },
{
    match store.borrow_self(node) {
        Ok(Value::Integer(i)) => if *i >= -0x8000_0000_0000_0000 && *i <= 0x7fff_ffff_ffff_ffff {
            Some(*i as i64)
        } else {
            None
        },
        _ => None,
    }
}

/// The IEEE-754 bit pattern of the real that `node` refers to, if it refers
/// to one.
pub fn plist_get_real_val(store: &PlistStore, node: Handle) -> (r: Option<u64>)
    ensures
        match r {
            Some(v) => tree_of_handle(store@, node) == Some(Tree::Real(v)),
            None => !(tree_of_handle(store@, node) matches Some(Tree::Real(_))),
        },
{
    match store.borrow_self(node) {
        Ok(Value::Real(v)) => Some(*v),
        _ => None,
    }
}

/// A copy of the bytes that `node` refers to, if it refers to data.
pub fn plist_get_data_val(store: &PlistStore, node: Handle) -> (r: Option<Vec<u8>>)
    ensures
        match r {
            Some(v) => tree_of_handle(store@, node) == Some(Tree::Data(v@)),
            None => !(tree_of_handle(store@, node) matches Some(Tree::Data(_))),
        },
{
    match store.borrow_self(node) {
        Ok(Value::Data(d)) => {
            let c = d.clone();
            assert(c@ =~= d@);
            Some(c)
        },
        _ => None,
    }
}

/// The bytes that `node` refers to, if it refers to data, borrowed.
pub fn plist_get_data_ptr<'a>(store: &'a PlistStore, node: Handle) -> (r: Option<&'a Vec<u8>>)
    ensures
        match r {
            Some(v) => tree_of_handle(store@, node) == Some(Tree::Data(v@)),
            None => !(tree_of_handle(store@, node) matches Some(Tree::Data(_))),
        },
{
    match store.borrow_self(node) {
        Ok(Value::Data(d)) => Some(d),
        _ => None,
    }
}

/// The seconds since the Unix epoch of the date that `node` refers to, if it
/// refers to one.
pub fn plist_get_unix_date_val(store: &PlistStore, node: Handle) -> (r: Option<i64>)
    ensures
        match r {
            Some(v) => tree_of_handle(store@, node) == Some(Tree::Date(v)),
            None => !(tree_of_handle(store@, node) matches Some(Tree::Date(_))),
        },
{
    match store.borrow_self(node) {
        Ok(Value::Date(d)) => Some(*d),
        _ => None,
    }
}

/// The unique identifier that `node` refers to, if it refers to one.
pub fn plist_get_uid_val(store: &PlistStore, node: Handle) -> (r: Option<u64>)
    ensures
        match r {
            Some(v) => tree_of_handle(store@, node) == Some(Tree::Uid(v)),
            None => !(tree_of_handle(store@, node) matches Some(Tree::Uid(_))),
        },
{
    match store.borrow_self(node) {
        Ok(Value::Uid(u)) => Some(*u),
        _ => None,
    }
}

} // verus!
