use vstd::prelude::*;

use crate::array::{array_of, cursor_pos, cursor_stepped, made_alias};
use crate::creation::made_node;
use crate::handle::{
    in_cascade, is_alias, is_cursor, is_live, is_owning, location, owned_tree, rewritten,
    transition, tree_of_handle, wrapper_of, Handle, Slot,
};
use crate::value::{
    dict_extend, dict_get, keys_unique, lemma_extend_get, tree_update, Step, Tree,
};

verus! {

/// A write through an alias is seen through its owner and through every
/// later alias for the same element: `h` is made for element `i` of the
/// array that the owning handle `o` holds, what `h` refers to is rewritten
/// to `t`, and then `h2` is made for element `i` again.
pub proof fn law_alias_write_visible(
    s0: Seq<Slot>,
    s1: Seq<Slot>,
    s2: Seq<Slot>,
    s3: Seq<Slot>,
    o: Handle,
    h: Handle,
    h2: Handle,
    i: int,
    t: Tree,
)
    requires
        is_owning(s0, o),
        array_of(s0, o) is Some,
        0 <= i < array_of(s0, o)->Some_0.len(),
        made_alias(s0, s1, o, h, Step::Index(i)),
        rewritten(s1, s2, h, t),
        made_alias(s2, s3, o, h2, Step::Index(i)),
    ensures
        tree_of_handle(s2, o) == Some(Tree::Array(array_of(s0, o)->Some_0.update(i, t))),
        tree_of_handle(s3, h2) == Some(t),
{
    let a = array_of(s0, o)->Some_0;
    assert(s1[o.index as int] == s0[o.index as int]);
    assert(location(s0, o) == Some((o, Seq::<Step>::empty())));
    assert(location(s1, h) == Some((o, Seq::<Step>::empty().push(Step::Index(i)))));
    let p = Seq::<Step>::empty().push(Step::Index(i));
    assert(owned_tree(s1, o) == Tree::Array(a));
    assert(p.drop_first() =~= Seq::<Step>::empty());
    assert(p[0] == Step::Index(i));
    assert(tree_update(a[i], p.drop_first(), t) == t);
    assert(tree_update(Tree::Array(a), p, t) == Tree::Array(a.update(i, t)));
    assert(owned_tree(s2, o) == Tree::Array(a.update(i, t)));
    assert(location(s2, o) == Some((o, Seq::<Step>::empty())));
}

/// Freeing a handle frees it and exactly the handles that it produced,
/// directly or through others; every other handle stays as it was, and no
/// freed one reaches a value any more.
pub proof fn law_free_cascades(s0: Seq<Slot>, s1: Seq<Slot>, root: Handle, k: Handle)
    requires
        is_live(s0, root),
        transition(s0, s1, Some(root), -1, Tree::Boolean(false)),
        is_live(s0, k),
    ensures
        (k == root || wrapper_of(s0, k).lineage@.contains(root)) ==> !is_live(s1, k)
            && tree_of_handle(s1, k) is None,
        !(k == root || wrapper_of(s0, k).lineage@.contains(root)) ==> is_live(s1, k)
            && wrapper_of(s1, k) == wrapper_of(s0, k),
{
    assert(s0[k.index as int] == s0[k.index as int]);
    if k == root || wrapper_of(s0, k).lineage@.contains(root) {
        assert(in_cascade(s0, root, k.index as int));
    } else {
        assert(!in_cascade(s0, root, k.index as int));
    }
}

/// A handle made from `parent` counts `root` among its producers whenever
/// `parent` is `root` or counts it: so freeing `root` frees aliases nested
/// to any depth.
pub proof fn law_produced_by(parent: Handle, root: Handle, parent_lineage: Seq<Handle>, lineage: Seq<Handle>)
    requires
        lineage == parent_lineage.push(parent),
        parent == root || parent_lineage.contains(root),
    ensures
        lineage.contains(root),
{
    if parent == root {
        assert(lineage[lineage.len() - 1] == root);
    } else {
        let j = choose|j: int| 0 <= j < parent_lineage.len() && parent_lineage[j] == root;
        assert(lineage[j] == root);
    }
}

/// Consuming an owning handle hands its value out once: afterwards the
/// handle is gone, so a second consume fails.
pub proof fn law_consume_once(s0: Seq<Slot>, s1: Seq<Slot>, h: Handle)
    requires
        is_owning(s0, h),
        transition(s0, s1, Some(h), -1, Tree::Boolean(false)),
    ensures
        !is_live(s1, h),
        !is_owning(s1, h),
{
    assert(in_cascade(s0, h, h.index as int));
}

/// A copy is independent: after `c` is made as a copy of what `a` refers
/// to and then rewritten, every handle that had a value before the copy
/// still refers to the same value.
pub proof fn law_clone_independent(
    s0: Seq<Slot>,
    s1: Seq<Slot>,
    s2: Seq<Slot>,
    a: Handle,
    c: Handle,
    k: Handle,
    t: Tree,
)
    requires
        tree_of_handle(s0, a) is Some,
        made_node(s0, s1, c, tree_of_handle(s0, a)->Some_0),
        rewritten(s1, s2, c, t),
        location(s0, k) is Some,
    ensures
        tree_of_handle(s2, k) == tree_of_handle(s0, k),
{
    let (r, p) = location(s0, k)->Some_0;
    assert(s1[k.index as int] == s0[k.index as int]);
    assert(s1[r.index as int] == s0[r.index as int]);
    assert(location(s1, c) == Some((c, Seq::<Step>::empty())));
    assert(s2[k.index as int] == s1[k.index as int]);
    assert(s2[r.index as int] == s1[r.index as int]);
}

/// Merging: every key of either dictionary is kept; where both hold a key,
/// the value from the source wins.
pub proof fn law_merge_source_wins(
    target: Seq<(Seq<char>, Tree)>,
    source: Seq<(Seq<char>, Tree)>,
    k: Seq<char>,
)
    requires
        keys_unique(source),
    ensures
        dict_get(dict_extend(target, source), k) == if dict_get(source, k) is Some {
            dict_get(source, k)
        } else {
            dict_get(target, k)
        },
        keys_unique(target) ==> keys_unique(dict_extend(target, source)),
{
    lemma_extend_get(target, source, k);
}

/// Walking an array of length `n` with a fresh cursor: step `j` gives an
/// alias for element `j` while `j < n`, and the end after that; the aliases
/// are all different handles.
pub proof fn law_cursor_walk(
    states: Seq<Seq<Slot>>,
    results: Seq<Option<Handle>>,
    node: Handle,
    iter: Handle,
    a: Seq<Tree>,
)
    requires
        states.len() == results.len() + 1,
        results.len() < u32::MAX,
        array_of(states[0], node) == Some(a),
        is_cursor(states[0], iter),
        cursor_pos(states[0], iter) == 0,
        forall|j: int|
            0 <= j < results.len() ==> cursor_stepped(
                #[trigger] states[j],
                states[j + 1],
                node,
                iter,
                results[j],
                array_of(states[j], node)->Some_0,
            ),
    ensures
        forall|j: int| 0 <= j < results.len() ==> (#[trigger] results[j] is Some <==> j < a.len()),
        forall|j: int|
            0 <= j < results.len() && j < a.len() ==> tree_of_handle(states[j + 1], #[trigger] results[j]->Some_0)
                == Some(a[j]),
        forall|j1: int, j2: int|
            0 <= j1 < j2 < results.len() && j2 < a.len() ==> #[trigger] results[j1] != #[trigger] results[j2],
{
    walk_invariant(states, results, node, iter, a, results.len() as int);
}

/// One cursor step keeps every other live alias live.
proof fn lemma_step_keeps(
    s: Seq<Slot>,
    n: Seq<Slot>,
    node: Handle,
    iter: Handle,
    x: Option<Handle>,
    c: Seq<Tree>,
    h: Handle,
)
    requires
        cursor_stepped(s, n, node, iter, x, c),
        is_cursor(s, iter),
        is_live(s, h),
        is_alias(s, h),
    ensures
        is_live(n, h),
{
    assert(h.index != iter.index) by {
        if h.index == iter.index {
            assert(s[h.index as int] == s[iter.index as int]);
        }
    }
    if x is Some {
        assert(h.index != x->Some_0.index) by {
            if h.index == x->Some_0.index {
                assert(!is_live(s, x->Some_0));
            }
        }
    }
    assert(n[h.index as int] == s[h.index as int]);
}

proof fn walk_invariant(
    states: Seq<Seq<Slot>>,
    results: Seq<Option<Handle>>,
    node: Handle,
    iter: Handle,
    a: Seq<Tree>,
    m: int,
)
    requires
        states.len() == results.len() + 1,
        results.len() < u32::MAX,
        0 <= m <= results.len(),
        array_of(states[0], node) == Some(a),
        is_cursor(states[0], iter),
        cursor_pos(states[0], iter) == 0,
        forall|j: int|
            0 <= j < results.len() ==> cursor_stepped(
                #[trigger] states[j],
                states[j + 1],
                node,
                iter,
                results[j],
                array_of(states[j], node)->Some_0,
            ),
    ensures
        array_of(states[m], node) == Some(a),
        is_cursor(states[m], iter),
        cursor_pos(states[m], iter) == m,
        forall|j: int| 0 <= j < m ==> (#[trigger] results[j] is Some <==> j < a.len()),
        forall|j: int|
            0 <= j < m && j < a.len() ==> tree_of_handle(states[j + 1], #[trigger] results[j]->Some_0)
                == Some(a[j]),
        forall|j: int|
            0 <= j < m && j < a.len() ==> is_live(states[m], #[trigger] results[j]->Some_0)
                && is_alias(states[m], results[j]->Some_0),
        forall|j1: int, j2: int|
            0 <= j1 < j2 < m && j2 < a.len() ==> #[trigger] results[j1] != #[trigger] results[j2],
    decreases m,
{
    if m > 0 {
        walk_invariant(states, results, node, iter, a, m - 1);
        let s = states[m - 1];
        let n = states[m];
        let x = results[m - 1];
        assert(cursor_stepped(s, n, node, iter, x, a));
        assert forall|j: int| 0 <= j < m && j < a.len() implies is_live(
            n,
            #[trigger] results[j]->Some_0,
        ) && is_alias(n, results[j]->Some_0) by {
            if j < m - 1 {
                let h = results[j]->Some_0;
                lemma_step_keeps(s, n, node, iter, x, a, h);
                assert(n[h.index as int] == s[h.index as int]) by {
                    assert(h.index != iter.index) by {
                        if h.index == iter.index {
                            assert(s[h.index as int] == s[iter.index as int]);
                        }
                    }
                    if x is Some {
                        assert(h.index != x->Some_0.index) by {
                            if h.index == x->Some_0.index {
                                assert(!is_live(s, x->Some_0));
                            }
                        }
                    }
                }
            }
        }
        assert forall|j1: int, j2: int|
            0 <= j1 < j2 < m && j2 < a.len() implies #[trigger] results[j1] != #[trigger] results[j2] by {
            if j2 == m - 1 {
                assert(is_live(s, results[j1]->Some_0));
                assert(!is_live(s, results[j2]->Some_0));
            }
        }
    }
}

} // verus!
