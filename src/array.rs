use vstd::prelude::*;

use crate::handle::{
    allocated, can_move_into, is_alias, is_cursor, is_live, lemma_consumed_then_rewritten,
    lemma_rewritten_twice, location, node_error, owned_tree, rewritten, rewritten_consuming,
    tree_of_handle, wrapper_of, Handle, HandleError, NodeType, PlistStore, };
use crate::value::{
    child_at, lemma_array_view, lemma_tree_at_push, steps_view, tree_at, PathElem, Step, Tree,
    Value,
};
use crate::PlistErr;

verus! {

/// The elements of the array that `h` refers to, if it refers to an array.
pub open spec fn array_of(s: Seq<crate::handle::Slot>, h: Handle) -> Option<Seq<Tree>> {
    match tree_of_handle(s, h) {
        Some(Tree::Array(a)) => Some(a),
        _ => None,
    }
}

/// `h` is a new alias, produced by `parent`, for what `step` reaches from
/// what `parent` refers to.
pub open spec fn made_alias(
    old: Seq<crate::handle::Slot>,
    new: Seq<crate::handle::Slot>,
    parent: Handle,
    h: Handle,
    step: Step,
) -> bool {
    &&& allocated(old, new, h, wrapper_of(new, h))
    &&& is_alias(new, h)
    &&& wrapper_of(new, h).lineage@ == wrapper_of(old, parent).lineage@.push(parent)
    &&& location(new, h) == Some(
        (location(old, parent)->Some_0.0, location(old, parent)->Some_0.1.push(step)),
    )
    &&& tree_of_handle(new, h) == child_at(tree_of_handle(old, parent)->Some_0, step)
}

/// Makes the alias for `step` below `parent` and proves what it refers to.
pub fn make_alias(store: &mut PlistStore, parent: Handle, step: PathElem, index: u32, key: Option<String>) -> (h: Handle)
    requires
        location(old(store)@, parent) is Some,
        child_at(tree_of_handle(old(store)@, parent)->Some_0, step@) is Some,
        old(store)@.len() < usize::MAX,
    ensures
        made_alias(old(store)@, final(store)@, parent, h, step@),
        match wrapper_of(final(store)@, h).node {
            NodeType::Child { index: i, key: k, .. } => i == index && k == key,
            _ => false,
        },
{
    let ghost s0 = store@;
    let ghost st = step@;
    let h = store.new_alias(parent, step, index, key);
    proof {
        let (r, p) = location(s0, parent)->Some_0;
        lemma_tree_at_push(owned_tree(s0, r), p, st);
        assert(store@[r.index as int] == s0[r.index as int]);
    }
    h
}

/// The number of elements of the array that `node` refers to (cut to 32
/// bits); 0 for anything else.
pub fn plist_array_get_size(store: &PlistStore, node: Handle) -> (r: u32)
    ensures
        r == match array_of(store@, node) {
            Some(a) => a.len() as u32,
            None => 0,
        },
{
    match store.borrow_self(node) {
        Ok(Value::Array(a)) => {
            proof {
                lemma_array_view(*a);
            }
            a.len() as u32
        },
        _ => 0,
    }
}

/// The length of the array that `node` refers to.
fn array_len(store: &PlistStore, node: Handle) -> (r: Option<usize>)
    ensures
        match r {
            Some(n) => array_of(store@, node) is Some && n == array_of(store@, node)->Some_0.len(),
            None => array_of(store@, node) is None,
        },
{
    match store.borrow_self(node) {
        Ok(Value::Array(a)) => {
            proof {
                lemma_array_view(*a);
            }
            Some(a.len())
        },
        _ => None,
    }
}

/// A new alias, produced by `node`, for element `n` of the array that
/// `node` refers to; `None` (and no change) where there is no such element.
pub fn plist_array_get_item(store: &mut PlistStore, node: Handle, n: u32) -> (r: Option<Handle>)
    requires
        old(store)@.len() < usize::MAX,
    ensures
        r is Some <==> (array_of(old(store)@, node) is Some && n < array_of(
            old(store)@,
            node,
        )->Some_0.len()),
        match r {
            Some(h) => {
                &&& made_alias(old(store)@, final(store)@, node, h, Step::Index(n as int))
                &&& tree_of_handle(final(store)@, h) == Some(array_of(old(store)@, node)->Some_0[n as int])
                &&& wrapper_of(final(store)@, h).node matches NodeType::Child { index, key, .. }
                    && index == n && key is None
            },
            None => final(store)@ == old(store)@,
        },
{
    match array_len(store, node) {
        Some(len) => {
            if (n as usize) < len {
                Some(make_alias(store, node, PathElem::Index(n), n, None))
            } else {
                None
            }
        },
        None => None,
    }
}

/// The array position that the alias `node` was made for: `u32::MAX` for an
/// owning handle or an alias made otherwise.
pub fn plist_array_get_item_index(store: &PlistStore, node: Handle) -> (r: Result<u32, HandleError>)
    ensures
        match r {
            Ok(i) => is_live(store@, node) && !is_cursor(store@, node) && i == match wrapper_of(
                store@,
                node,
            ).node {
                NodeType::Child { index, .. } => index,
                _ => u32::MAX,
            },
            Err(e) => e == if !is_live(store@, node) {
                HandleError::Freed
            } else {
                HandleError::IsCursor
            } && (!is_live(store@, node) || is_cursor(store@, node)),
        },
{
    match store.wrapper(node) {
        Some(w) => match &w.node {
            NodeType::Node(_) => Ok(u32::MAX),
            NodeType::Child { index, .. } => Ok(*index),
            NodeType::Iterator(_) => Err(HandleError::IsCursor),
        },
        None => Err(HandleError::Freed),
    }
}

/// Which array edit to make.
enum Edit {
    Replace(usize),
    Insert(usize),
    Append,
}

/// The elements after the edit, with `x` as the new element.
spec fn edited(a: Seq<Tree>, e: Edit, x: Tree) -> Seq<Tree> {
    match e {
        Edit::Replace(i) => a.update(i as int, x),
        Edit::Insert(i) => a.insert(i as int, x),
        Edit::Append => a.push(x),
    }
}

spec fn edit_fits(a: Seq<Tree>, e: Edit) -> bool {
    match e {
        Edit::Replace(i) => i < a.len(),
        Edit::Insert(i) => i <= a.len(),
        Edit::Append => true,
    }
}

/// Moves the value of `item` into the array that `node` refers to.
fn move_into_array(store: &mut PlistStore, node: Handle, item: Handle, e: Edit) -> (r: PlistErr)
    ensures
        r == PlistErr::PLIST_ERR_SUCCESS <==> (array_of(old(store)@, node) is Some && edit_fits(
            array_of(old(store)@, node)->Some_0,
            e,
        ) && can_move_into(old(store)@, node, item)),
        r != PlistErr::PLIST_ERR_SUCCESS ==> r == PlistErr::PLIST_ERR_INVALID_ARG && final(store)@
            == old(store)@,
        r == PlistErr::PLIST_ERR_SUCCESS ==> rewritten_consuming(
            old(store)@,
            final(store)@,
            node,
            item,
            Tree::Array(
                edited(array_of(old(store)@, node)->Some_0, e, owned_tree(old(store)@, item)),
            ),
        ),
{
    let ghost s0 = store@;
    let len = match array_len(store, node) {
        Some(len) => len,
        None => {
            return PlistErr::PLIST_ERR_INVALID_ARG;
        },
    };
    let fits = match e {
        Edit::Replace(i) => i < len,
        Edit::Insert(i) => i <= len,
        Edit::Append => true,
    };
    if !fits || !store.can_move_into(node, item) {
        return PlistErr::PLIST_ERR_INVALID_ARG;
    }
    let v = match store.consume(item) {
        Ok(v) => v,
        Err(_) => {
            return PlistErr::PLIST_ERR_INVALID_ARG;
        },
    };
    let ghost s1 = store@;
    proof {
        crate::handle::lemma_consumed_keeps(s0, s1, node, item);
    }
    let cur = store.take_value(node);
    let ghost s2 = store@;
    let ghost vv = v@;
    let new_value = match cur {
        Value::Array(a) => {
            let mut a = a;
            proof {
                lemma_array_view(a);
            }
            let ghost a0 = a@;
            match e {
                Edit::Replace(i) => {
                    a[i] = v;
                },
                Edit::Insert(i) => {
                    a.insert(i, v);
                },
                Edit::Append => {
                    a.push(v);
                },
            }
            proof {
                lemma_array_view(a);
                assert(crate::value::items_view(a@) =~= edited(
                    crate::value::items_view(a0),
                    e,
                    vv,
                ));
            }
            Value::Array(a)
        },
        other => other,
    };
    store.set_value(node, new_value);
    proof {
        lemma_rewritten_twice(s1, s2, store@, node, Tree::Boolean(false), new_value@);
        lemma_consumed_then_rewritten(s0, s1, store@, node, item, new_value@);
    }
    PlistErr::PLIST_ERR_SUCCESS
}

/// Moves the value of the owning handle `item` into slot `n` of the array
/// that `node` refers to, in place of what stood there. `item` and every
/// handle it produced are freed.
pub fn plist_array_set_item(store: &mut PlistStore, node: Handle, item: Handle, n: u32) -> (r: PlistErr)
    ensures
        r == PlistErr::PLIST_ERR_SUCCESS <==> (array_of(old(store)@, node) is Some && n
            < array_of(old(store)@, node)->Some_0.len() && can_move_into(old(store)@, node, item)),
        r != PlistErr::PLIST_ERR_SUCCESS ==> r == PlistErr::PLIST_ERR_INVALID_ARG && final(store)@
            == old(store)@,
        r == PlistErr::PLIST_ERR_SUCCESS ==> rewritten_consuming(
            old(store)@,
            final(store)@,
            node,
            item,
            Tree::Array(
                array_of(old(store)@, node)->Some_0.update(n as int, owned_tree(old(store)@, item)),
            ),
        ),
{
    move_into_array(store, node, item, Edit::Replace(n as usize))
}

/// Moves the value of the owning handle `item` to the end of the array that
/// `node` refers to. `item` and every handle it produced are freed.
pub fn plist_array_append_item(store: &mut PlistStore, node: Handle, item: Handle) -> (r: PlistErr)
    ensures
        r == PlistErr::PLIST_ERR_SUCCESS <==> (array_of(old(store)@, node) is Some && can_move_into(
            old(store)@,
            node,
            item,
        )),
        r != PlistErr::PLIST_ERR_SUCCESS ==> r == PlistErr::PLIST_ERR_INVALID_ARG && final(store)@
            == old(store)@,
        r == PlistErr::PLIST_ERR_SUCCESS ==> rewritten_consuming(
            old(store)@,
            final(store)@,
            node,
            item,
            Tree::Array(array_of(old(store)@, node)->Some_0.push(owned_tree(old(store)@, item))),
        ),
{
    move_into_array(store, node, item, Edit::Append)
}

/// Moves the value of the owning handle `item` into the array that `node`
/// refers to, at position `n`; later elements move up by one. `item` and
/// every handle it produced are freed.
pub fn plist_array_insert_item(store: &mut PlistStore, node: Handle, item: Handle, n: u32) -> (r: PlistErr)
    ensures
        r == PlistErr::PLIST_ERR_SUCCESS <==> (array_of(old(store)@, node) is Some && n
            <= array_of(old(store)@, node)->Some_0.len() && can_move_into(old(store)@, node, item)),
        r != PlistErr::PLIST_ERR_SUCCESS ==> r == PlistErr::PLIST_ERR_INVALID_ARG && final(store)@
            == old(store)@,
        r == PlistErr::PLIST_ERR_SUCCESS ==> rewritten_consuming(
            old(store)@,
            final(store)@,
            node,
            item,
            Tree::Array(
                array_of(old(store)@, node)->Some_0.insert(n as int, owned_tree(old(store)@, item)),
            ),
        ),
{
    move_into_array(store, node, item, Edit::Insert(n as usize))
}

/// Drops element `n` of the array that `node` refers to; later elements move
/// down by one.
pub fn plist_array_remove_item(store: &mut PlistStore, node: Handle, n: u32) -> (r: PlistErr)
    ensures
        r == PlistErr::PLIST_ERR_SUCCESS <==> (array_of(old(store)@, node) is Some && n
            < array_of(old(store)@, node)->Some_0.len()),
        r != PlistErr::PLIST_ERR_SUCCESS ==> r == PlistErr::PLIST_ERR_INVALID_ARG && final(store)@
            == old(store)@,
        r == PlistErr::PLIST_ERR_SUCCESS ==> rewritten(
            old(store)@,
            final(store)@,
            node,
            Tree::Array(array_of(old(store)@, node)->Some_0.remove(n as int)),
        ),
{
    let ghost s0 = store@;
    match array_len(store, node) {
        Some(len) => {
            if n as usize >= len {
                return PlistErr::PLIST_ERR_INVALID_ARG;
            }
        },
        None => {
            return PlistErr::PLIST_ERR_INVALID_ARG;
        },
    }
    let cur = store.take_value(node);
    let ghost s1 = store@;
    let new_value = match cur {
        Value::Array(a) => {
            let mut a = a;
            proof {
                lemma_array_view(a);
            }
            let ghost a0 = a@;
            let _ = a.remove(n as usize);
            proof {
                lemma_array_view(a);
                assert(crate::value::items_view(a@) =~= crate::value::items_view(a0).remove(
                    n as int,
                ));
            }
            Value::Array(a)
        },
        other => other,
    };
    store.set_value(node, new_value);
    proof {
        lemma_rewritten_twice(s0, s1, store@, node, Tree::Boolean(false), new_value@);
    }
    PlistErr::PLIST_ERR_SUCCESS
}

/// Where the alias `h` was made for an array element: its owner, the path to
/// the array, and the element's position.
pub open spec fn array_slot_of(s: Seq<crate::handle::Slot>, h: Handle) -> Option<
    (Handle, Seq<Step>, int),
> {
    if is_alias(s, h) {
        match wrapper_of(s, h).node {
            NodeType::Child { root, path, index, .. } => if path@.len() > 0 && crate::handle::is_owning(
                s,
                root,
            ) {
                Some((root, steps_view(path@).drop_last(), index as int))
            } else {
                None
            },
            _ => None,
        }
    } else {
        None
    }
}

/// Removes, from the array that holds it, the element at the position that
/// the alias `node` was made for. The position is the one recorded when the
/// alias was made; it fails where that array or position no longer exists.
pub fn plist_array_item_remove(store: &mut PlistStore, node: Handle) -> (r: PlistErr)
    ensures
        r == PlistErr::PLIST_ERR_SUCCESS <==> (array_slot_of(old(store)@, node) matches Some(
            (root, p, i),
        ) && tree_at(owned_tree(old(store)@, root), p) matches Some(Tree::Array(a)) && i
            < a.len()),
        r != PlistErr::PLIST_ERR_SUCCESS ==> r == PlistErr::PLIST_ERR_INVALID_ARG && final(store)@
            == old(store)@,
        r == PlistErr::PLIST_ERR_SUCCESS ==> ({
            let (root, p, i) = array_slot_of(old(store)@, node)->Some_0;
            crate::handle::transition(
                old(store)@,
                final(store)@,
                None,
                root.index as int,
                crate::value::tree_update(
                    owned_tree(old(store)@, root),
                    p,
                    Tree::Array(tree_at(owned_tree(old(store)@, root), p)->Some_0->Array_0.remove(i)),
                ),
            )
        }),
{
    let ghost s0 = store@;
    let (root, mut path, index) = match store.wrapper(node) {
        Some(w) => match &w.node {
            NodeType::Child { root, path, index, .. } => (
                *root,
                crate::handle::copy_path(path),
                *index,
            ),
            _ => {
                return PlistErr::PLIST_ERR_INVALID_ARG;
            },
        },
        None => {
            return PlistErr::PLIST_ERR_INVALID_ARG;
        },
    };
    if path.len() == 0 {
        return PlistErr::PLIST_ERR_INVALID_ARG;
    }
    let ghost full = path@;
    let _ = path.pop();
    assert(steps_view(path@) =~= steps_view(full).drop_last());
    assert(crate::value::path_from(path@, 0) =~= steps_view(path@));
    let len = match store.wrapper(root) {
        Some(w) => match &w.node {
            NodeType::Node(v) => match crate::value::value_at(v, &path, 0) {
                Some(Value::Array(a)) => {
                    proof {
                        lemma_array_view(*a);
                    }
                    a.len()
                },
                _ => {
                    return PlistErr::PLIST_ERR_INVALID_ARG;
                },
            },
            _ => {
                return PlistErr::PLIST_ERR_INVALID_ARG;
            },
        },
        None => {
            return PlistErr::PLIST_ERR_INVALID_ARG;
        },
    };
    if index as usize >= len {
        return PlistErr::PLIST_ERR_INVALID_ARG;
    }
    let cur = store.replace_path(root, &path, Value::Boolean(false));
    let ghost s1 = store@;
    let new_value = match cur {
        Value::Array(a) => {
            let mut a = a;
            proof {
                lemma_array_view(a);
            }
            let ghost a0 = a@;
            let _ = a.remove(index as usize);
            proof {
                lemma_array_view(a);
                assert(crate::value::items_view(a@) =~= crate::value::items_view(a0).remove(
                    index as int,
                ));
            }
            Value::Array(a)
        },
        other => other,
    };
    proof {
        crate::value::lemma_update_then_read(owned_tree(s0, root), steps_view(path@), Tree::Boolean(false));
        assert(s1[root.index as int] == s1[root.index as int]);
    }
    let _ = store.replace_path(root, &path, new_value);
    proof {
        crate::handle::lemma_retree_twice(s0, s1, store@, root, steps_view(path@), Tree::Boolean(false), new_value@);
    }
    PlistErr::PLIST_ERR_SUCCESS
}

/// The position of cursor `c`.
pub open spec fn cursor_pos(s: Seq<crate::handle::Slot>, c: Handle) -> u32 {
    wrapper_of(s, c).node->Iterator_0
}

/// A new cursor at position 0, produced by `node`.
pub fn plist_array_new_iter(store: &mut PlistStore, node: Handle) -> (r: Result<Handle, HandleError>)
    requires
        old(store)@.len() < usize::MAX,
    ensures
        r is Ok <==> is_live(old(store)@, node),
        match r {
            Ok(h) => {
                &&& allocated(old(store)@, final(store)@, h, wrapper_of(final(store)@, h))
                &&& wrapper_of(final(store)@, h).node == NodeType::Iterator(0)
                &&& wrapper_of(final(store)@, h).lineage@ == wrapper_of(old(store)@, node).lineage@.push(node)
            },
            Err(e) => e == HandleError::Freed && final(store)@ == old(store)@,
        },
{
    if !store.is_live(node) {
        return Err(HandleError::Freed);
    }
    Ok(store.new_child(node, NodeType::Iterator(0)))
}

/// `new` is `old` after cursor `iter` took one step over `children`, the
/// children of what `node` refers to, and `x` is the alias made for the
/// child it stepped over (none past the end).
pub open spec fn cursor_stepped(
    old: Seq<crate::handle::Slot>,
    new: Seq<crate::handle::Slot>,
    node: Handle,
    iter: Handle,
    x: Option<Handle>,
    children: Seq<Tree>,
) -> bool {
    let p = cursor_pos(old, iter);
    &&& is_cursor(new, iter)
    &&& cursor_pos(new, iter) == if p < u32::MAX {
        (p + 1) as u32
    } else {
        p
    }
    &&& wrapper_of(new, iter).lineage == wrapper_of(old, iter).lineage
    &&& tree_of_handle(new, node) == tree_of_handle(old, node)
    &&& x is Some <==> p < children.len()
    &&& x is Some ==> {
        let h = x->Some_0;
        &&& !is_live(old, h)
        &&& h.index < old.len() ==> old[h.index as int].wrapper is None
        &&& is_alias(new, h)
        &&& tree_of_handle(new, h) == Some(children[p as int])
        &&& wrapper_of(new, h).lineage@ == wrapper_of(old, node).lineage@.push(node)
    }
    &&& new.len() >= old.len()
    &&& forall|i: int|
        0 <= i < old.len() && i != iter.index && (x is None || i != x->Some_0.index) ==> #[trigger] new[i]
            == old[i]
}

/// Why a cursor step over the children of `node` is refused.
pub open spec fn step_error(s: Seq<crate::handle::Slot>, node: Handle, iter: Handle) -> HandleError {
    if tree_of_handle(s, node) is None {
        node_error(s, node)
    } else if !is_live(s, iter) {
        HandleError::Freed
    } else {
        HandleError::NotCursor
    }
}

/// Checks a cursor step: `node` must refer to a value, `iter` must be a
/// cursor.
pub fn check_step(store: &PlistStore, node: Handle, iter: Handle) -> (r: Result<(), HandleError>)
    ensures
        r is Ok <==> (tree_of_handle(store@, node) is Some && is_cursor(store@, iter)),
        r is Err ==> r == Err::<(), HandleError>(step_error(store@, node, iter)),
{
    match store.borrow_self(node) {
        Ok(_) => {},
        Err(e) => {
            return Err(e);
        },
    }
    match store.wrapper(iter) {
        Some(w) => match &w.node {
            NodeType::Iterator(_) => Ok(()),
            _ => Err(HandleError::NotCursor),
        },
        None => Err(HandleError::Freed),
    }
}

/// Moves cursor `iter` one step over the array that `node` refers to, and
/// makes an alias, produced by `node`, for the element it stepped over;
/// `None` past the end. Where `node` does not refer to an array nothing
/// changes.
pub fn plist_array_next_item(store: &mut PlistStore, node: Handle, iter: Handle) -> (r: Result<
    Option<Handle>,
    HandleError,
>)
    requires
        old(store)@.len() < usize::MAX,
    ensures
        r is Ok <==> (tree_of_handle(old(store)@, node) is Some && is_cursor(old(store)@, iter)),
        match r {
            Err(e) => final(store)@ == old(store)@ && e == step_error(old(store)@, node, iter),
            Ok(x) => match array_of(old(store)@, node) {
                Some(a) => cursor_stepped(old(store)@, final(store)@, node, iter, x, a),
                None => x is None && final(store)@ == old(store)@,
            },
        },
{
    let ghost s0 = store@;
    check_step(store, node, iter)?;
    let len = match array_len(store, node) {
        Some(len) => len,
        None => {
            return Ok(None);
        },
    };
    let p = match store.advance(iter) {
        Ok(p) => p,
        Err(e) => {
            return Err(e);
        },
    };
    let ghost s1 = store@;
    proof {
        let (root, path) = location(s0, node)->Some_0;
        assert(s1[node.index as int] == s0[node.index as int]);
        assert(s1[root.index as int] == s0[root.index as int]);
        assert(location(s1, node) == location(s0, node));
    }
    if (p as usize) < len {
        let h = make_alias(store, node, PathElem::Index(p), p, None);
        proof {
            assert(store@[iter.index as int] == s1[iter.index as int]);
            if h.index < s0.len() && h.index != iter.index {
                assert(s1[h.index as int] == s0[h.index as int]);
            }
            let (root, path) = location(s0, node)->Some_0;
            assert(store@[node.index as int] == s1[node.index as int]);
            assert(store@[root.index as int] == s1[root.index as int]);
        }
        Ok(Some(h))
    } else {
        Ok(None)
    }
}

} // verus!
