use vstd::prelude::*;

use crate::value::{
    lemma_update_then_read, lemma_update_twice, path_from, replace_at, steps_view, tree_at,
    tree_update, value_at, PathElem, Step, Tree, Value,
};

verus! {

/// Names one slot of a store, at one generation of that slot.
///
/// A handle stays valid until it is freed, alone or with an ancestor; after
/// that every operation on it fails instead of reaching whatever the slot
/// holds next.
#[derive(Clone, Copy, Debug, PartialEq, Eq, Structural)]
pub struct Handle {
    pub index: usize,
    pub generation: u64,
}

/// What a handle refers to.
pub enum NodeType {
    /// A value that the handle owns.
    Node(Value),
    /// A position inside the value of the owning handle `root`: the value that
    /// `path` reaches from it. `index` and `key` tell how the last step was
    /// taken: through an array (`index`) or a dictionary (`key`); neither is
    /// set for a parent. After an insertion or removal the alias names
    /// whatever stands at that position then; where nothing does, it refers
    /// to no value, and operations on it fail (`HandleError::Dangling` where
    /// they report why).
    Child { root: Handle, path: Vec<PathElem>, index: u32, key: Option<String> },
    /// A position counter for enumeration.
    Iterator(u32),
}

/// One live handle: what it refers to, and the chain of handles that
/// produced it, oldest first.
pub struct PlistWrapper {
    pub node: NodeType,
    pub lineage: Vec<Handle>,
}

pub struct Slot {
    pub generation: u64,
    pub wrapper: Option<PlistWrapper>,
}

/// Why an operation refused a handle.
#[derive(Clone, Copy, Debug, PartialEq, Eq, Structural)]
pub enum HandleError {
    /// The handle was freed, or never came from this store.
    Freed,
    /// The position that an alias names does not exist any more.
    Dangling,
    /// The operation moves a value out, and the handle does not own one.
    NotOwning,
    /// A cursor was given where a value was needed.
    IsCursor,
    /// A value was given where a cursor was needed.
    NotCursor,
}

/// The arena that holds every handle.
pub struct PlistStore {
    slots: Vec<Slot>,
    free: Vec<usize>,
}

impl View for PlistStore {
    type V = Seq<Slot>;

    closed spec fn view(&self) -> Seq<Slot> {
        self.slots@
    }
}

pub open spec fn is_live(s: Seq<Slot>, h: Handle) -> bool {
    &&& h.index < s.len()
    &&& s[h.index as int].generation == h.generation
    &&& s[h.index as int].wrapper is Some
}

pub open spec fn wrapper_of(s: Seq<Slot>, h: Handle) -> PlistWrapper {
    s[h.index as int].wrapper->Some_0
}

pub open spec fn is_owning(s: Seq<Slot>, h: Handle) -> bool {
    is_live(s, h) && wrapper_of(s, h).node is Node
}

pub open spec fn is_alias(s: Seq<Slot>, h: Handle) -> bool {
    is_live(s, h) && wrapper_of(s, h).node is Child
}

pub open spec fn is_cursor(s: Seq<Slot>, h: Handle) -> bool {
    is_live(s, h) && wrapper_of(s, h).node is Iterator
}

/// The tree that the owning handle `h` holds.
pub open spec fn owned_tree(s: Seq<Slot>, h: Handle) -> Tree {
    wrapper_of(s, h).node->Node_0@
}

/// The owning handle whose tree holds what `h` refers to, and the path to it.
pub open spec fn location(s: Seq<Slot>, h: Handle) -> Option<(Handle, Seq<Step>)> {
    if !is_live(s, h) {
        None
    } else {
        match wrapper_of(s, h).node {
            NodeType::Node(_) => Some((h, Seq::empty())),
            NodeType::Child { root, path, .. } => if is_owning(s, root) && tree_at(
                owned_tree(s, root),
                steps_view(path@),
            ) is Some {
                Some((root, steps_view(path@)))
            } else {
                None
            },
            NodeType::Iterator(_) => None,
        }
    }
}

/// The value that `h` refers to.
pub open spec fn tree_of_handle(s: Seq<Slot>, h: Handle) -> Option<Tree> {
    match location(s, h) {
        Some((r, p)) => tree_at(owned_tree(s, r), p),
        None => None,
    }
}

/// The error that an operation needing a value gets for `h`.
pub open spec fn node_error(s: Seq<Slot>, h: Handle) -> HandleError {
    if !is_live(s, h) {
        HandleError::Freed
    } else if is_cursor(s, h) {
        HandleError::IsCursor
    } else {
        HandleError::Dangling
    }
}

/// Slot `i` goes when `h` is freed: it is `h` itself, or `h` is among the
/// handles that produced it.
pub open spec fn in_cascade(s: Seq<Slot>, h: Handle, i: int) -> bool {
    &&& 0 <= i < s.len()
    &&& s[i].wrapper is Some
    &&& ((i == h.index && s[i].generation == h.generation) || s[i].wrapper->Some_0.lineage@.contains(
        h,
    ))
}

pub open spec fn next_generation(g: u64) -> u64 {
    if g < u64::MAX {
        (g + 1) as u64
    } else {
        g
    }
}

pub open spec fn freed_slot(old: Slot, new: Slot) -> bool {
    new.wrapper is None && new.generation == next_generation(old.generation)
}

/// Slot `new` is slot `old` with the tree it owns replaced by `t`.
pub open spec fn retreed_slot(old: Slot, new: Slot, t: Tree) -> bool {
    &&& new.generation == old.generation
    &&& new.wrapper is Some
    &&& new.wrapper->Some_0.lineage == old.wrapper->Some_0.lineage
    &&& new.wrapper->Some_0.node is Node
    &&& new.wrapper->Some_0.node->Node_0@ == t
}

/// `new` is `old` with the cascade of `gone` freed (if any) and the tree of
/// slot `r` replaced by `t` (if `r` names a slot).
pub open spec fn transition(
    old: Seq<Slot>,
    new: Seq<Slot>,
    gone: Option<Handle>,
    r: int,
    t: Tree,
) -> bool {
    &&& new.len() == old.len()
    &&& forall|i: int|
        0 <= i < old.len() ==> if i == r {
            retreed_slot(#[trigger] old[i], new[i], t)
        } else if gone is Some && in_cascade(old, gone->Some_0, i) {
            freed_slot(old[i], new[i])
        } else {
            new[i] == old[i]
        }
}

/// `new` is `old` with what `h` refers to replaced by `t`.
pub open spec fn rewritten(old: Seq<Slot>, new: Seq<Slot>, h: Handle, t: Tree) -> bool {
    &&& location(old, h) is Some
    &&& transition(
        old,
        new,
        None,
        location(old, h)->Some_0.0.index as int,
        tree_update(owned_tree(old, location(old, h)->Some_0.0), location(old, h)->Some_0.1, t),
    )
}

/// `new` is `old` with the owning handle `item` and what it produced freed,
/// and what `h` refers to replaced by `t`.
pub open spec fn rewritten_consuming(
    old: Seq<Slot>,
    new: Seq<Slot>,
    h: Handle,
    item: Handle,
    t: Tree,
) -> bool {
    &&& location(old, h) is Some
    &&& transition(
        old,
        new,
        Some(item),
        location(old, h)->Some_0.0.index as int,
        tree_update(owned_tree(old, location(old, h)->Some_0.0), location(old, h)->Some_0.1, t),
    )
}

/// Moving `item` out leaves what `h` refers to in place.
pub open spec fn can_move_into(s: Seq<Slot>, h: Handle, item: Handle) -> bool {
    &&& is_owning(s, item)
    &&& location(s, h) is Some
    &&& !in_cascade(s, item, h.index as int)
    &&& !in_cascade(s, item, location(s, h)->Some_0.0.index as int)
}

pub proof fn lemma_retree_twice(
    s0: Seq<Slot>,
    s1: Seq<Slot>,
    s2: Seq<Slot>,
    r: Handle,
    p: Seq<Step>,
    a: Tree,
    b: Tree,
)
    requires
        is_owning(s0, r),
        transition(s0, s1, None, r.index as int, tree_update(owned_tree(s0, r), p, a)),
        transition(s1, s2, None, r.index as int, tree_update(owned_tree(s1, r), p, b)),
    ensures
        transition(s0, s2, None, r.index as int, tree_update(owned_tree(s0, r), p, b)),
{
    let ri = r.index as int;
    assert(retreed_slot(s0[ri], s1[ri], tree_update(owned_tree(s0, r), p, a)));
    lemma_update_twice(owned_tree(s0, r), p, a, b);
    assert forall|i: int| 0 <= i < s0.len() implies if i == ri {
        retreed_slot(#[trigger] s0[i], s2[i], tree_update(owned_tree(s0, r), p, b))
    } else {
        s2[i] == s0[i]
    } by {
        if i == ri {
            assert(retreed_slot(s1[i], s2[i], tree_update(owned_tree(s1, r), p, b)));
        } else {
            assert(s1[i] == s0[i]);
            assert(s2[i] == s1[i]);
        }
    }
}

pub proof fn lemma_rewritten_twice(s0: Seq<Slot>, s1: Seq<Slot>, s2: Seq<Slot>, h: Handle, a: Tree, b: Tree)
    requires
        rewritten(s0, s1, h, a),
        location(s1, h) == location(s0, h),
        rewritten(s1, s2, h, b),
    ensures
        rewritten(s0, s2, h, b),
{
    let (r, p) = location(s0, h)->Some_0;
    let ri = r.index as int;
    lemma_update_twice(owned_tree(s0, r), p, a, b);
    assert forall|i: int| 0 <= i < s0.len() implies if i == ri {
        retreed_slot(#[trigger] s0[i], s2[i], tree_update(owned_tree(s0, r), p, b))
    } else {
        s2[i] == s0[i]
    } by {
        if i == ri {
            assert(retreed_slot(s0[i], s1[i], tree_update(owned_tree(s0, r), p, a)));
            assert(retreed_slot(s1[i], s2[i], tree_update(owned_tree(s1, r), p, b)));
        } else {
            assert(s1[i] == s0[i]);
            assert(s2[i] == s1[i]);
        }
    }
}

/// After a rewrite, `h` refers to what was written.
pub proof fn lemma_rewritten_reads(s0: Seq<Slot>, s1: Seq<Slot>, h: Handle, t: Tree)
    requires
        rewritten(s0, s1, h, t),
    ensures
        location(s1, h) == location(s0, h),
        tree_of_handle(s1, h) == Some(t),
{
    let (r, p) = location(s0, h)->Some_0;
    lemma_update_then_read(owned_tree(s0, r), p, t);
    assert(s1[r.index as int] == s1[r.index as int]);
    assert(s1[h.index as int] == s1[h.index as int]);
    assert(s0[h.index as int] == s0[h.index as int]);
}

pub proof fn lemma_consumed_keeps(s0: Seq<Slot>, s1: Seq<Slot>, h: Handle, item: Handle)
    requires
        can_move_into(s0, h, item),
        transition(s0, s1, Some(item), -1, Tree::Boolean(false)),
    ensures
        location(s1, h) == location(s0, h),
        tree_of_handle(s1, h) == tree_of_handle(s0, h),
{
    let (r, p) = location(s0, h)->Some_0;
    assert(s1[h.index as int] == s0[h.index as int]);
    assert(s1[r.index as int] == s0[r.index as int]);
}

pub proof fn lemma_consumed_then_rewritten(
    s0: Seq<Slot>,
    s1: Seq<Slot>,
    s2: Seq<Slot>,
    h: Handle,
    item: Handle,
    t: Tree,
)
    requires
        can_move_into(s0, h, item),
        transition(s0, s1, Some(item), -1, Tree::Boolean(false)),
        rewritten(s1, s2, h, t),
    ensures
        location(s1, h) == location(s0, h),
        tree_of_handle(s1, h) == tree_of_handle(s0, h),
        rewritten_consuming(s0, s2, h, item, t),
{
    let (r, p) = location(s0, h)->Some_0;
    let ri = r.index as int;
    assert(s1[h.index as int] == s0[h.index as int]);
    assert(s1[ri] == s0[ri]);
    assert(location(s1, h) == location(s0, h));
    assert forall|i: int| 0 <= i < s0.len() implies if i == ri {
        retreed_slot(#[trigger] s0[i], s2[i], tree_update(owned_tree(s0, r), p, t))
    } else if in_cascade(s0, item, i) {
        freed_slot(s0[i], s2[i])
    } else {
        s2[i] == s0[i]
    } by {
        if i == ri {
            assert(retreed_slot(s1[i], s2[i], tree_update(owned_tree(s1, r), p, t)));
        } else {
            assert(s2[i] == s1[i]);
        }
    }
}

/// `new` is `old` with one more live handle `h`, holding `w`.
pub open spec fn allocated(old: Seq<Slot>, new: Seq<Slot>, h: Handle, w: PlistWrapper) -> bool {
    &&& !is_live(old, h)
    &&& h.index < old.len() ==> old[h.index as int].wrapper is None
    &&& h.index < new.len()
    &&& new[h.index as int].generation == h.generation
    &&& new[h.index as int].wrapper == Some(w)
    &&& old.len() <= new.len() <= old.len() + 1
    &&& new.len() == old.len() + 1 ==> h.index == old.len()
    &&& forall|i: int| 0 <= i < old.len() && i != h.index ==> #[trigger] new[i] == old[i]
}

/// Whether `h` occurs in `l`.
fn lineage_contains(l: &Vec<Handle>, h: Handle) -> (r: bool)
    ensures
        r == l@.contains(h),
{
    let mut i: usize = 0;
    while i < l.len()
        invariant
            i <= l.len(),
            forall|j: int| 0 <= j < i ==> l@[j] != h,
        decreases l.len() - i,
    {
        if l[i] == h {
            assert(l@[i as int] == h);
            return true;
        }
        i += 1;
    }
    false
}

/// A copy of a lineage.
fn copy_lineage(l: &Vec<Handle>) -> (r: Vec<Handle>)
    ensures
        r@ == l@,
{
    let mut r: Vec<Handle> = Vec::new();
    let mut i: usize = 0;
    while i < l.len()
        invariant
            i <= l.len(),
            r@ == l@.subrange(0, i as int),
        decreases l.len() - i,
    {
        r.push(l[i]);
        i += 1;
        assert(r@ =~= l@.subrange(0, i as int));
    }
    assert(l@.subrange(0, l.len() as int) =~= l@);
    r
}

/// A copy of a path.
pub fn copy_path(p: &Vec<PathElem>) -> (r: Vec<PathElem>)
    ensures
        r@ == p@,
{
    let mut r: Vec<PathElem> = Vec::new();
    let mut i: usize = 0;
    while i < p.len()
        invariant
            i <= p.len(),
            r@ == p@.subrange(0, i as int),
        decreases p.len() - i,
    {
        let e = match &p[i] {
            PathElem::Key(k) => PathElem::Key(k.clone()),
            PathElem::Index(n) => PathElem::Index(*n),
        };
        r.push(e);
        i += 1;
        assert(r@ =~= p@.subrange(0, i as int));
    }
    assert(p@.subrange(0, p.len() as int) =~= p@);
    r
}

impl NodeType {
    pub fn is_node(&self) -> (r: bool)
        ensures
            r == self is Node,
    {
        match self {
            NodeType::Node(_) => true,
            _ => false,
        }
    }
}

impl PlistWrapper {
    /// A wrapper that owns `v`.
    pub fn new_node(v: Value) -> (r: PlistWrapper)
        ensures
            r.node == NodeType::Node(v),
            r.lineage@.len() == 0,
    {
        PlistWrapper { node: NodeType::Node(v), lineage: Vec::new() }
    }

    /// A cursor at position `i`.
    pub fn new_iterator(i: u32) -> (r: PlistWrapper)
        ensures
            r.node == NodeType::Iterator(i),
            r.lineage@.len() == 0,
    {
        PlistWrapper { node: NodeType::Iterator(i), lineage: Vec::new() }
    }

    /// The value that this wrapper refers to, looked up in `store` where it
    /// is an alias.
    pub fn borrow_self<'a>(&'a self, store: &'a PlistStore) -> (r: Result<&'a Value, HandleError>)
        ensures
            match self.node {
                NodeType::Node(v) => r == Ok::<&Value, HandleError>(&v),
                NodeType::Child { root, path, .. } => match r {
                    Ok(v) => is_owning(store@, root) && tree_at(
                        owned_tree(store@, root),
                        steps_view(path@),
                    ) == Some(v@),
                    Err(e) => e == HandleError::Dangling && !(is_owning(store@, root) && tree_at(
                        owned_tree(store@, root),
                        steps_view(path@),
                    ) is Some),
                },
                NodeType::Iterator(_) => r == Err::<&Value, HandleError>(HandleError::IsCursor),
            },
    {
        match &self.node {
            NodeType::Node(v) => Ok(v),
            NodeType::Child { root, path, .. } => {
                match store.owned_value(*root) {
                    Some(rv) => {
                        assert(path_from(path@, 0) =~= steps_view(path@));
                        match value_at(rv, path, 0) {
                            Some(v) => Ok(v),
                            None => Err(HandleError::Dangling),
                        }
                    },
                    None => Err(HandleError::Dangling),
                }
            },
            NodeType::Iterator(_) => Err(HandleError::IsCursor),
        }
    }
}

impl PlistStore {
    /// An empty store.
    pub fn new() -> (r: PlistStore)
        ensures
            r@.len() == 0,
    {
        PlistStore { slots: Vec::new(), free: Vec::new() }
    }

    /// The number of slots, live or free.
    pub fn slot_count(&self) -> (r: usize)
        ensures
            r == self@.len(),
    {
        self.slots.len()
    }

    /// Whether `h` is a live handle of this store.
    pub fn is_live(&self, h: Handle) -> (r: bool)
        ensures
            r == is_live(self@, h),
    {
        h.index < self.slots.len() && self.slots[h.index].generation == h.generation
            && self.slots[h.index].wrapper.is_some()
    }

    /// The wrapper of a live handle.
    pub fn wrapper(&self, h: Handle) -> (r: Option<&PlistWrapper>)
        ensures
            match r {
                Some(w) => is_live(self@, h) && *w == wrapper_of(self@, h),
                None => !is_live(self@, h),
            },
    {
        if h.index < self.slots.len() && self.slots[h.index].generation == h.generation {
            match &self.slots[h.index].wrapper {
                Some(w) => Some(w),
                None => None,
            }
        } else {
            None
        }
    }

    /// The value that the owning handle `h` holds.
    fn owned_value(&self, h: Handle) -> (r: Option<&Value>)
        ensures
            match r {
                Some(v) => is_owning(self@, h) && v@ == owned_tree(self@, h),
                None => !is_owning(self@, h),
            },
    {
        match self.wrapper(h) {
            Some(w) => match &w.node {
                NodeType::Node(v) => Some(v),
                _ => None,
            },
            None => None,
        }
    }

    /// Gives the value that `h` refers to, whether `h` owns it or aliases it.
    pub fn borrow_self(&self, h: Handle) -> (r: Result<&Value, HandleError>)
        ensures
            match r {
                Ok(v) => tree_of_handle(self@, h) == Some(v@),
                Err(e) => tree_of_handle(self@, h) is None && e == node_error(self@, h),
            },
    {
        match self.wrapper(h) {
            Some(w) => {
                let r = w.borrow_self(self);
                proof {
                    if w.node is Node {
                        assert(steps_view(Seq::<PathElem>::empty()) =~= Seq::<Step>::empty());
                    }
                }
                r
            },
            None => Err(HandleError::Freed),
        }
    }

    /// Places `w` in a free slot, or in a new one.
    fn place(&mut self, w: PlistWrapper) -> (h: Handle)
        requires
            old(self)@.len() < usize::MAX,
        ensures
            allocated(old(self)@, final(self)@, h, w),
    {
        while self.free.len() > 0
            invariant
                self@ == old(self)@,
            decreases self.free.len(),
        {
            let i = self.free.pop().unwrap();
            if i < self.slots.len() && self.slots[i].wrapper.is_none() {
                let g = self.slots[i].generation;
                self.slots[i] = Slot { generation: g, wrapper: Some(w) };
                return Handle { index: i, generation: g };
            }
        }
        let i = self.slots.len();
        self.slots.push(Slot { generation: 0, wrapper: Some(w) });
        Handle { index: i, generation: 0 }
    }

    /// Frees `h` and every handle that it produced, directly or through
    /// others, and hands back the wrapper that `h` itself had.
    fn release(&mut self, h: Handle) -> (r: Option<PlistWrapper>)
        ensures
            transition(old(self)@, final(self)@, Some(h), -1, Tree::Boolean(false)),
            r == if is_live(old(self)@, h) {
                Some(wrapper_of(old(self)@, h))
            } else {
                None::<PlistWrapper>
            },
    {
        let ghost s0 = self@;
        let n = self.slots.len();
        let mut out: Option<PlistWrapper> = None;
        let mut i: usize = 0;
        while i < n
            invariant
                n == s0.len(),
                self@.len() == n,
                i <= n,
                forall|j: int|
                    0 <= j < i ==> if in_cascade(s0, h, j) {
                        freed_slot(#[trigger] s0[j], self@[j])
                    } else {
                        self@[j] == s0[j]
                    },
                forall|j: int| i <= j < n ==> #[trigger] self@[j] == s0[j],
                out == if is_live(s0, h) && h.index < i {
                    Some(wrapper_of(s0, h))
                } else {
                    None::<PlistWrapper>
                },
            decreases n - i,
        {
            let hit = match &self.slots[i].wrapper {
                Some(w) => (i == h.index && self.slots[i].generation == h.generation)
                    || lineage_contains(&w.lineage, h),
                None => false,
            };
            if hit {
                let g = self.slots[i].generation;
                let ng = if g < u64::MAX {
                    g + 1
                } else {
                    g
                };
                let mut gone = Slot { generation: ng, wrapper: None };
                std::mem::swap(&mut self.slots[i], &mut gone);
                if i == h.index && g == h.generation {
                    out = gone.wrapper;
                }
                if ng > g {
                    self.free.push(i);
                }
            }
            proof {
                assert(self@[i as int] == self@[i as int]);
            }
            i += 1;
        }
        out
    }

    /// Puts `n` where `path` leads in the tree of the owning handle `root`,
    /// and hands back what stood there.
    pub(crate) fn replace_path(&mut self, root: Handle, path: &Vec<PathElem>, n: Value) -> (r: Value)
        requires
            is_owning(old(self)@, root),
            tree_at(owned_tree(old(self)@, root), steps_view(path@)) is Some,
        ensures
            Some(r@) == tree_at(owned_tree(old(self)@, root), steps_view(path@)),
            transition(
                old(self)@,
                final(self)@,
                None,
                root.index as int,
                tree_update(owned_tree(old(self)@, root), steps_view(path@), n@),
            ),
    {
        let ghost s0 = self@;
        assert(path_from(path@, 0) =~= steps_view(path@));
        let ri = root.index;
        let g = self.slots[ri].generation;
        let mut slot = Slot { generation: g, wrapper: None };
        std::mem::swap(&mut self.slots[ri], &mut slot);
        let Slot { generation, wrapper } = slot;
        let w = wrapper.unwrap();
        let PlistWrapper { node, lineage } = w;
        match node {
            NodeType::Node(v) => {
                let mut v = v;
                let r = replace_at(&mut v, path, 0, n);
                self.slots[ri] = Slot {
                    generation,
                    wrapper: Some(PlistWrapper { node: NodeType::Node(v), lineage }),
                };
                proof {
                    assert forall|i: int| 0 <= i < s0.len() && i != ri implies self@[i] == s0[i] by {}
                }
                match r {
                    Ok(o) => o,
                    Err(x) => x,
                }
            },
            _ => {
                proof {
                    assert(false);
                }
                n
            },
        }
    }


    /// Puts `n` where `h` refers, and hands back what stood there.
    fn replace_value(&mut self, h: Handle, n: Value) -> (r: Value)
        requires
            location(old(self)@, h) is Some,
        ensures
            Some(r@) == tree_of_handle(old(self)@, h),
            transition(
                old(self)@,
                final(self)@,
                None,
                location(old(self)@, h)->Some_0.0.index as int,
                tree_update(
                    owned_tree(old(self)@, location(old(self)@, h)->Some_0.0),
                    location(old(self)@, h)->Some_0.1,
                    n@,
                ),
            ),
    {
        let ghost s0 = self@;
        let (root, path) = match &self.slots[h.index].wrapper {
            Some(w) => match &w.node {
                NodeType::Child { root, path, .. } => (*root, copy_path(path)),
                _ => (h, Vec::new()),
            },
            None => (h, Vec::new()),
        };
        assert(steps_view(path@) == location(s0, h)->Some_0.1) by {
            if wrapper_of(s0, h).node is Node {
                assert(steps_view(path@) =~= Seq::<Step>::empty());
            }
        }
        self.replace_path(root, &path, n)
    }

    /// Whether freeing `item` would free slot `i`.
    pub fn in_cascade(&self, item: Handle, i: usize) -> (r: bool)
        ensures
            r == in_cascade(self@, item, i as int),
    {
        if i >= self.slots.len() {
            return false;
        }
        match &self.slots[i].wrapper {
            Some(w) => (i == item.index && self.slots[i].generation == item.generation)
                || lineage_contains(&w.lineage, item),
            None => false,
        }
    }

    /// The owning handle whose tree holds what `h` refers to.
    pub fn root_of(&self, h: Handle) -> (r: Handle)
        requires
            location(self@, h) is Some,
        ensures
            r == location(self@, h)->Some_0.0,
    {
        match &self.slots[h.index].wrapper.as_ref().unwrap().node {
            NodeType::Child { root, .. } => *root,
            _ => h,
        }
    }

    /// Whether the value of the owning handle `item` can move to where `h`
    /// refers without freeing `h` or its owner.
    pub fn can_move_into(&self, h: Handle, item: Handle) -> (r: bool)
        requires
            location(self@, h) is Some,
        ensures
            r == can_move_into(self@, h, item),
    {
        let owning = match self.wrapper(item) {
            Some(w) => w.node.is_node(),
            None => false,
        };
        owning && !self.in_cascade(item, h.index) && !self.in_cascade(item, self.root_of(h).index)
    }

    /// Puts `v` where `h` refers.
    pub fn set_value(&mut self, h: Handle, v: Value)
        requires
            location(old(self)@, h) is Some,
        ensures
            rewritten(old(self)@, final(self)@, h, v@),
    {
        let _ = self.replace_value(h, v);
    }

    /// Takes out the value that `h` refers to, leaving a placeholder.
    pub fn take_value(&mut self, h: Handle) -> (r: Value)
        requires
            location(old(self)@, h) is Some,
        ensures
            Some(r@) == tree_of_handle(old(self)@, h),
            rewritten(old(self)@, final(self)@, h, Tree::Boolean(false)),
            location(final(self)@, h) == location(old(self)@, h),
    {
        let ghost s0 = self@;
        let r = self.replace_value(h, Value::Boolean(false));
        proof {
            let (root, p) = location(s0, h)->Some_0;
            lemma_update_then_read(owned_tree(s0, root), p, Tree::Boolean(false));
            assert(self@[root.index as int] == self@[root.index as int]);
            assert(self@[h.index as int] == self@[h.index as int]);
            assert(s0[h.index as int] == s0[h.index as int]);
        }
        r
    }

    /// Takes the value out of the owning handle `h`; `h` and every handle it
    /// produced are freed.
    pub fn consume(&mut self, h: Handle) -> (r: Result<Value, HandleError>)
        ensures
            is_owning(old(self)@, h) <==> r is Ok,
            match r {
                Ok(v) => v@ == owned_tree(old(self)@, h) && transition(
                    old(self)@,
                    final(self)@,
                    Some(h),
                    -1,
                    Tree::Boolean(false),
                ),
                Err(e) => final(self)@ == old(self)@ && e == (if !is_live(old(self)@, h) {
                    HandleError::Freed
                } else if is_cursor(old(self)@, h) {
                    HandleError::IsCursor
                } else {
                    HandleError::NotOwning
                }),
            },
    {
        match self.wrapper(h) {
            None => Err(HandleError::Freed),
            Some(w) => match &w.node {
                NodeType::Iterator(_) => Err(HandleError::IsCursor),
                NodeType::Child { .. } => Err(HandleError::NotOwning),
                NodeType::Node(_) => {
                    let w = self.release(h).unwrap();
                    match w.node {
                        NodeType::Node(v) => Ok(v),
                        _ => Err(HandleError::NotOwning),
                    }
                },
            },
        }
    }

    /// Hands out the position of cursor `h` and moves it one step on; a
    /// cursor at `u32::MAX` stays there.
    pub fn advance(&mut self, h: Handle) -> (r: Result<u32, HandleError>)
        ensures
            is_cursor(old(self)@, h) <==> r is Ok,
            match r {
                Ok(p) => {
                    &&& wrapper_of(old(self)@, h).node == NodeType::Iterator(p)
                    &&& final(self)@.len() == old(self)@.len()
                    &&& forall|i: int|
                        0 <= i < old(self)@.len() && i != h.index ==> #[trigger] final(self)@[i]
                            == old(self)@[i]
                    &&& final(self)@[h.index as int].generation == h.generation
                    &&& final(self)@[h.index as int].wrapper is Some
                    &&& wrapper_of(final(self)@, h).node == NodeType::Iterator(
                        if p < u32::MAX {
                            (p + 1) as u32
                        } else {
                            p
                        },
                    )
                    &&& wrapper_of(final(self)@, h).lineage == wrapper_of(old(self)@, h).lineage
                },
                Err(e) => final(self)@ == old(self)@ && e == (if !is_live(old(self)@, h) {
                    HandleError::Freed
                } else {
                    HandleError::NotCursor
                }),
            },
    {
        let p = match self.wrapper(h) {
            None => {
                return Err(HandleError::Freed);
            },
            Some(w) => match &w.node {
                NodeType::Iterator(p) => *p,
                _ => {
                    return Err(HandleError::NotCursor);
                },
            },
        };
        let ghost s0 = self@;
        let mut slot = Slot { generation: h.generation, wrapper: None };
        std::mem::swap(&mut self.slots[h.index], &mut slot);
        let w = slot.wrapper.unwrap();
        let next = if p < u32::MAX {
            p + 1
        } else {
            p
        };
        self.slots[h.index] = Slot {
            generation: h.generation,
            wrapper: Some(PlistWrapper { node: NodeType::Iterator(next), lineage: w.lineage }),
        };
        proof {
            assert forall|i: int| 0 <= i < s0.len() && i != h.index implies self@[i] == s0[i] by {}
        }
        Ok(p)
    }

    /// Frees `h` and, before it, every handle that it produced, directly or
    /// through others. Owned values go with their handles; aliased ones stay
    /// in their owner's tree.
    pub fn free(&mut self, h: Handle) -> (r: Result<(), HandleError>)
        ensures
            r is Ok <==> is_live(old(self)@, h),
            r is Ok ==> transition(old(self)@, final(self)@, Some(h), -1, Tree::Boolean(false)),
            r is Err ==> final(self)@ == old(self)@ && r == Err::<(), HandleError>(
                HandleError::Freed,
            ),
    {
        if !self.is_live(h) {
            return Err(HandleError::Freed);
        }
        let _ = self.release(h);
        Ok(())
    }

    /// A new owning handle that holds `v`.
    pub fn new_node(&mut self, v: Value) -> (h: Handle)
        requires
            old(self)@.len() < usize::MAX,
        ensures
            allocated(old(self)@, final(self)@, h, wrapper_of(final(self)@, h)),
            is_owning(final(self)@, h),
            owned_tree(final(self)@, h) == v@,
            wrapper_of(final(self)@, h).lineage@.len() == 0,
    {
        self.place(PlistWrapper::new_node(v))
    }

    /// A new cursor at position `i`, produced by no other handle.
    pub fn new_cursor(&mut self, i: u32) -> (h: Handle)
        requires
            old(self)@.len() < usize::MAX,
        ensures
            allocated(old(self)@, final(self)@, h, wrapper_of(final(self)@, h)),
            wrapper_of(final(self)@, h).node == NodeType::Iterator(i),
            wrapper_of(final(self)@, h).lineage@.len() == 0,
    {
        self.place(PlistWrapper::new_iterator(i))
    }

    /// A new handle that `parent` produced: `parent`'s lineage grows by
    /// `parent`.
    pub(crate) fn new_child(&mut self, parent: Handle, node: NodeType) -> (h: Handle)
        requires
            is_live(old(self)@, parent),
            old(self)@.len() < usize::MAX,
        ensures
            allocated(old(self)@, final(self)@, h, wrapper_of(final(self)@, h)),
            wrapper_of(final(self)@, h).node == node,
            wrapper_of(final(self)@, h).lineage@ == wrapper_of(old(self)@, parent).lineage@.push(
                parent,
            ),
    {
        let mut lineage = copy_lineage(&self.slots[parent.index].wrapper.as_ref().unwrap().lineage);
        lineage.push(parent);
        self.place(PlistWrapper { node, lineage })
    }

    /// A new alias, produced by `parent`, for what `step` reaches from what
    /// `parent` refers to.
    pub fn new_alias(&mut self, parent: Handle, step: PathElem, index: u32, key: Option<String>) -> (h: Handle)
        requires
            location(old(self)@, parent) is Some,
            old(self)@.len() < usize::MAX,
        ensures
            allocated(old(self)@, final(self)@, h, wrapper_of(final(self)@, h)),
            is_alias(final(self)@, h),
            match wrapper_of(final(self)@, h).node {
                NodeType::Child { root, path, index: i, key: k } => {
                    &&& root == location(old(self)@, parent)->Some_0.0
                    &&& steps_view(path@) == location(old(self)@, parent)->Some_0.1.push(step@)
                    &&& i == index
                    &&& k == key
                },
                _ => false,
            },
            wrapper_of(final(self)@, h).lineage@ == wrapper_of(old(self)@, parent).lineage@.push(
                parent,
            ),
    {
        let ghost s0 = self@;
        let (root, mut path) = match &self.slots[parent.index].wrapper {
            Some(w) => match &w.node {
                NodeType::Child { root, path, .. } => (*root, copy_path(path)),
                _ => (parent, Vec::new()),
            },
            None => (parent, Vec::new()),
        };
        assert(steps_view(path@) == location(s0, parent)->Some_0.1) by {
            if wrapper_of(s0, parent).node is Node {
                assert(steps_view(path@) =~= Seq::<Step>::empty());
            }
        }
        let ghost prefix = path@;
        let ghost sv = step@;
        path.push(step);
        assert(steps_view(path@) =~= steps_view(prefix).push(sv));
        self.new_child(parent, NodeType::Child { root, path, index, key })
    }
}

} // verus!
