use vstd::prelude::*;

verus! {

broadcast use vstd::std_specs::vec::group_vec_axioms;

/// The mathematical model of a property-list value.
pub enum Tree {
    Boolean(bool),
    Integer(int),
    /// The IEEE-754 bit pattern of a double.
    Real(u64),
    String(Seq<char>),
    Data(Seq<u8>),
    /// Seconds since the Unix epoch.
    Date(i64),
    Uid(u64),
    Array(Seq<Tree>),
    /// Entries in insertion order.
    Dictionary(Seq<(Seq<char>, Tree)>),
}

/// A property-list value: scalars, arrays, and insertion-ordered dictionaries.
///
/// Reals are held as the IEEE-754 bit pattern of a double, dates as seconds
/// since the Unix epoch.
pub enum Value {
    Boolean(bool),
    Integer(i128),
    Real(u64),
    String(String),
    Data(Vec<u8>),
    Date(i64),
    Uid(u64),
    Array(Vec<Value>),
    Dictionary(Vec<(String, Value)>),
}

/// The model of `v`.
pub open spec fn tree_of(v: &Value) -> Tree
    decreases v,
{
    match v {
        Value::Boolean(b) => Tree::Boolean(*b),
        Value::Integer(i) => Tree::Integer(*i as int),
        Value::Real(r) => Tree::Real(*r),
        Value::String(s) => Tree::String(s@),
        Value::Data(d) => Tree::Data(d@),
        Value::Date(d) => Tree::Date(*d),
        Value::Uid(u) => Tree::Uid(*u),
        Value::Array(a) => Tree::Array(
            Seq::new(
                a.len() as nat,
                |i: int|
                    if 0 <= i < a.len() {
                        tree_of(&a[i])
                    } else {
                        Tree::Boolean(false)
                    },
            ),
        ),
        Value::Dictionary(d) => Tree::Dictionary(
            Seq::new(
                d.len() as nat,
                |i: int|
                    if 0 <= i < d.len() {
                        (d[i].0@, tree_of(&d[i].1))
                    } else {
                        (Seq::empty(), Tree::Boolean(false))
                    },
            ),
        ),
    }
}

impl View for Value {
    type V = Tree;

    open spec fn view(&self) -> Tree {
        tree_of(self)
    }
}

/// The model of the elements of an array.
pub open spec fn items_view(a: Seq<Value>) -> Seq<Tree> {
    Seq::new(a.len(), |i: int| a[i]@)
}

/// The model of the entries of a dictionary.
pub open spec fn entries_view(d: Seq<(String, Value)>) -> Seq<(Seq<char>, Tree)> {
    Seq::new(d.len(), |i: int| (d[i].0@, d[i].1@))
}

pub proof fn lemma_array_view(a: Vec<Value>)
    ensures
        Value::Array(a)@ == Tree::Array(items_view(a@)),
{
    let v = Value::Array(a);
    assert(v@ is Array);
    let t = v@->Array_0;
    assert(t.len() == a.len());
    assert forall|i: int| 0 <= i < a.len() implies #[trigger] t[i] == items_view(a@)[i] by {
        assert(t[i] == a@[i]@);
    }
    assert(t =~= items_view(a@));
}

pub proof fn lemma_dict_view(d: Vec<(String, Value)>)
    ensures
        Value::Dictionary(d)@ == Tree::Dictionary(entries_view(d@)),
{
    let t = Value::Dictionary(d)@->Dictionary_0;
    assert forall|i: int| 0 <= i < d.len() implies #[trigger] t[i] == entries_view(d@)[i] by {
        assert(t[i] == (d[i].0@, d[i].1@));
    }
    assert(t =~= entries_view(d@));
}

/// One step of a path from a value to one of its descendants.
pub enum PathElem {
    Key(String),
    Index(u32),
}

/// The model of a path step.
pub enum Step {
    Key(Seq<char>),
    Index(int),
}

impl View for PathElem {
    type V = Step;

    open spec fn view(&self) -> Step {
        match self {
            PathElem::Key(k) => Step::Key(k@),
            PathElem::Index(i) => Step::Index(*i as int),
        }
    }
}

pub open spec fn steps_view(p: Seq<PathElem>) -> Seq<Step> {
    Seq::new(p.len(), |i: int| p[i]@)
}

/// Index of the first entry under `k`, or -1.
pub open spec fn key_index(d: Seq<(Seq<char>, Tree)>, k: Seq<char>) -> int
    decreases d.len(),
{
    if d.len() == 0 {
        -1
    } else {
        let j = key_index(d.drop_last(), k);
        if j >= 0 {
            j
        } else if d.last().0 == k {
            d.len() - 1
        } else {
            -1
        }
    }
}

pub open spec fn dict_get(d: Seq<(Seq<char>, Tree)>, k: Seq<char>) -> Option<Tree> {
    let j = key_index(d, k);
    if j >= 0 {
        Some(d[j].1)
    } else {
        None
    }
}

/// Insertion keeps an existing key in place and appends a new one.
pub open spec fn dict_insert(d: Seq<(Seq<char>, Tree)>, k: Seq<char>, v: Tree) -> Seq<
    (Seq<char>, Tree),
> {
    let j = key_index(d, k);
    if j >= 0 {
        d.update(j, (k, v))
    } else {
        d.push((k, v))
    }
}

/// Removal moves the last entry into the hole that the removed one leaves.
pub open spec fn dict_remove(d: Seq<(Seq<char>, Tree)>, k: Seq<char>) -> Seq<(Seq<char>, Tree)> {
    let j = key_index(d, k);
    if j < 0 {
        d
    } else if j == d.len() - 1 {
        d.drop_last()
    } else {
        d.drop_last().update(j, d.last())
    }
}

/// Every entry of `s`, in order, inserted into `t`.
pub open spec fn dict_extend(t: Seq<(Seq<char>, Tree)>, s: Seq<(Seq<char>, Tree)>) -> Seq<
    (Seq<char>, Tree),
>
    decreases s.len(),
{
    if s.len() == 0 {
        t
    } else {
        let r = dict_extend(t, s.drop_last());
        dict_insert(r, s.last().0, s.last().1)
    }
}

pub open spec fn keys_unique(d: Seq<(Seq<char>, Tree)>) -> bool {
    forall|i: int, j: int| 0 <= i < j < d.len() ==> d[i].0 != d[j].0
}

pub proof fn lemma_key_index(d: Seq<(Seq<char>, Tree)>, k: Seq<char>)
    ensures
        -1 <= key_index(d, k) < d.len(),
        key_index(d, k) >= 0 ==> d[key_index(d, k)].0 == k,
        key_index(d, k) >= 0 ==> forall|j: int| 0 <= j < key_index(d, k) ==> d[j].0 != k,
        key_index(d, k) < 0 ==> forall|j: int| 0 <= j < d.len() ==> d[j].0 != k,
    decreases d.len(),
{
    if d.len() > 0 {
        lemma_key_index(d.drop_last(), k);
        assert forall|j: int| 0 <= j < d.len() - 1 implies d.drop_last()[j] == #[trigger] d[j] by {}
    }
}

/// Only the keys decide where a key is found.
pub proof fn lemma_same_keys(d1: Seq<(Seq<char>, Tree)>, d2: Seq<(Seq<char>, Tree)>, k: Seq<char>)
    requires
        d1.len() == d2.len(),
        forall|i: int| 0 <= i < d1.len() ==> #[trigger] d1[i].0 == d2[i].0,
    ensures
        key_index(d1, k) == key_index(d2, k),
{
    lemma_key_index(d1, k);
    lemma_key_index(d2, k);
    let a = key_index(d1, k);
    let b = key_index(d2, k);
    if a >= 0 && b >= 0 {
        assert(d1[a].0 == d2[a].0);
        assert(d1[b].0 == d2[b].0);
    } else if a >= 0 {
        assert(d1[a].0 == d2[a].0);
    } else if b >= 0 {
        assert(d1[b].0 == d2[b].0);
    }
}

pub proof fn lemma_key_index_unique(d: Seq<(Seq<char>, Tree)>, k: Seq<char>, i: int)
    requires
        0 <= i < d.len(),
        d[i].0 == k,
        keys_unique(d),
    ensures
        key_index(d, k) == i,
{
    lemma_key_index(d, k);
}

pub proof fn lemma_insert_get(d: Seq<(Seq<char>, Tree)>, k: Seq<char>, v: Tree, k2: Seq<char>)
    ensures
        dict_get(dict_insert(d, k, v), k2) == if k2 == k {
            Some(v)
        } else {
            dict_get(d, k2)
        },
        keys_unique(d) ==> keys_unique(dict_insert(d, k, v)),
{
    let r = dict_insert(d, k, v);
    lemma_key_index(d, k);
    lemma_key_index(d, k2);
    lemma_key_index(r, k2);
    let j = key_index(d, k);
    assert forall|i: int| 0 <= i < r.len() && i != j && i < d.len() implies r[i] == d[i] by {}
    if k2 == k {
        if j < 0 {
            assert(r[d.len() as int].0 == k);
        } else {
            assert(r[j].0 == k);
        }
    } else {
        let j2 = key_index(d, k2);
        if j2 >= 0 {
            assert(r[j2].0 == k2);
        }
    }
}

pub proof fn lemma_extend_get(t: Seq<(Seq<char>, Tree)>, s: Seq<(Seq<char>, Tree)>, k: Seq<char>)
    requires
        keys_unique(s),
    ensures
        dict_get(dict_extend(t, s), k) == if key_index(s, k) >= 0 {
            dict_get(s, k)
        } else {
            dict_get(t, k)
        },
        keys_unique(t) ==> keys_unique(dict_extend(t, s)),
    decreases s.len(),
{
    if s.len() > 0 {
        let p = s.drop_last();
        assert(keys_unique(p));
        lemma_extend_get(t, p, k);
        let r = dict_extend(t, p);
        lemma_insert_get(r, s.last().0, s.last().1, k);
        lemma_key_index(s, k);
        lemma_key_index(p, k);
        if s.last().0 == k {
            lemma_key_index_unique(s, k, s.len() - 1);
        }
    }
}

/// The value reached from `t` by `path`, if every step exists.
pub open spec fn tree_at(t: Tree, path: Seq<Step>) -> Option<Tree>
    decreases path.len(),
{
    if path.len() == 0 {
        Some(t)
    } else {
        match (t, path[0]) {
            (Tree::Array(a), Step::Index(i)) => if 0 <= i < a.len() {
                tree_at(a[i], path.drop_first())
            } else {
                None
            },
            (Tree::Dictionary(d), Step::Key(k)) => {
                let j = key_index(d, k);
                if j >= 0 {
                    tree_at(d[j].1, path.drop_first())
                } else {
                    None
                }
            },
            _ => None,
        }
    }
}

/// `t` with the value at `path` replaced by `n`; `t` itself where the path
/// does not exist.
pub open spec fn tree_update(t: Tree, path: Seq<Step>, n: Tree) -> Tree
    decreases path.len(),
{
    if path.len() == 0 {
        n
    } else {
        match (t, path[0]) {
            (Tree::Array(a), Step::Index(i)) => if 0 <= i < a.len() {
                Tree::Array(a.update(i, tree_update(a[i], path.drop_first(), n)))
            } else {
                t
            },
            (Tree::Dictionary(d), Step::Key(k)) => {
                let j = key_index(d, k);
                if j >= 0 {
                    Tree::Dictionary(d.update(j, (d[j].0, tree_update(d[j].1, path.drop_first(), n))))
                } else {
                    t
                }
            },
            _ => t,
        }
    }
}

/// Writing at a path and reading it back gives what was written.
pub proof fn lemma_update_then_read(t: Tree, path: Seq<Step>, n: Tree)
    requires
        tree_at(t, path) is Some,
    ensures
        tree_at(tree_update(t, path, n), path) == Some(n),
    decreases path.len(),
{
    if path.len() > 0 {
        match (t, path[0]) {
            (Tree::Array(a), Step::Index(i)) => {
                lemma_update_then_read(a[i], path.drop_first(), n);
            },
            (Tree::Dictionary(d), Step::Key(k)) => {
                let j = key_index(d, k);
                lemma_key_index(d, k);
                let d2 = d.update(j, (d[j].0, tree_update(d[j].1, path.drop_first(), n)));
                lemma_same_keys(d, d2, k);
                lemma_update_then_read(d[j].1, path.drop_first(), n);
            },
            _ => {},
        }
    }
}

/// The position of the first entry under `k`.
pub fn dict_find(d: &Vec<(String, Value)>, k: &String) -> (r: Option<usize>)
    ensures
        match r {
            Some(i) => i < d.len() && key_index(entries_view(d@), k@) == i,
            None => key_index(entries_view(d@), k@) == -1,
        },
{
    let ghost e = entries_view(d@);
    proof {
        lemma_key_index(e, k@);
    }
    let mut i: usize = 0;
    while i < d.len()
        invariant
            e == entries_view(d@),
            i <= d.len(),
            forall|j: int| 0 <= j < i ==> e[j].0 != k@,
            -1 <= key_index(e, k@) < e.len(),
            key_index(e, k@) >= 0 ==> e[key_index(e, k@)].0 == k@,
            key_index(e, k@) >= 0 ==> forall|j: int| 0 <= j < key_index(e, k@) ==> e[j].0 != k@,
            key_index(e, k@) < 0 ==> forall|j: int| 0 <= j < e.len() ==> e[j].0 != k@,
        decreases d.len() - i,
    {
        if d[i].0 == *k {
            assert(e[i as int].0 == k@);
            return Some(i);
        }
        i += 1;
    }
    None
}

/// Inserts `v` under `k`: an existing entry keeps its place, a new one is
/// appended.
pub fn dict_insert_entry(d: &mut Vec<(String, Value)>, k: String, v: Value)
    ensures
        entries_view(final(d)@) == dict_insert(entries_view(old(d)@), k@, v@),
{
    let ghost e = entries_view(d@);
    let ghost kv = k@;
    let ghost vv = v@;
    match dict_find(d, &k) {
        Some(i) => {
            d[i] = (k, v);
            assert(entries_view(d@) =~= e.update(i as int, (kv, vv)));
        },
        None => {
            d.push((k, v));
            assert(entries_view(d@) =~= e.push((kv, vv)));
        },
    }
}

/// Removes the entry under `k`, moving the last entry into its place.
pub fn dict_remove_entry(d: &mut Vec<(String, Value)>, k: &String) -> (r: Option<Value>)
    ensures
        entries_view(final(d)@) == dict_remove(entries_view(old(d)@), k@),
        r is Some <==> key_index(entries_view(old(d)@), k@) >= 0,
        r is Some ==> Some(r->Some_0@) == dict_get(entries_view(old(d)@), k@),
{
    let ghost e = entries_view(d@);
    match dict_find(d, k) {
        Some(i) => {
            let (_, v) = d.swap_remove(i);
            proof {
                lemma_key_index(e, k@);
                if i as int == e.len() - 1 {
                    assert(entries_view(d@) =~= e.drop_last());
                } else {
                    assert(entries_view(d@) =~= e.drop_last().update(i as int, e.last()));
                }
            }
            Some(v)
        },
        None => None,
    }
}

/// Inserts every entry of `s`, in order, into `t`.
pub fn dict_extend_entries(t: &mut Vec<(String, Value)>, s: Vec<(String, Value)>)
    ensures
        entries_view(final(t)@) == dict_extend(entries_view(old(t)@), entries_view(s@)),
{
    let ghost t0 = entries_view(t@);
    let ghost sv = entries_view(s@);
    let mut s = s;
    let ghost n = sv.len();
    while s.len() > 0
        invariant
            n == sv.len(),
            s.len() <= n,
            entries_view(s@) == sv.subrange(n - s.len(), n as int),
            entries_view(t@) == dict_extend(t0, sv.subrange(0, n - s.len())),
        decreases s.len(),
    {
        let ghost before = entries_view(s@);
        let ghost m = n - s.len();
        let (k, v) = s.remove(0);
        assert(entries_view(s@) =~= before.drop_first());
        assert(before[0] == sv[m]);
        assert(sv.subrange(0, m + 1).drop_last() =~= sv.subrange(0, m));
        assert(entries_view(s@) =~= sv.subrange(m + 1, n as int));
        dict_insert_entry(t, k, v);
    }
    assert(sv.subrange(0, n as int) =~= sv);
}

impl Value {
    /// A deep copy: a new value that shares nothing with `self`.
    pub fn deep_copy(&self) -> (r: Value)
        ensures
            r@ == self@,
        decreases self,
    {
        match self {
            Value::Boolean(b) => Value::Boolean(*b),
            Value::Integer(i) => Value::Integer(*i),
            Value::Real(r) => Value::Real(*r),
            Value::String(s) => Value::String(s.clone()),
            Value::Data(d) => {
                let c = d.clone();
                assert(c@ =~= d@);
                Value::Data(c)
            },
            Value::Date(d) => Value::Date(*d),
            Value::Uid(u) => Value::Uid(*u),
            Value::Array(a) => {
                let mut out: Vec<Value> = Vec::new();
                let mut k: usize = 0;
                while k < a.len()
                    invariant
                        *self == Value::Array(*a),
                        k <= a.len(),
                        out@.len() == k,
                        forall|j: int| 0 <= j < k ==> #[trigger] out@[j]@ == a@[j]@,
                    decreases a.len() - k,
                {
                    proof {
                        assert(decreases_to!(*self => self->Array_0));
                        assert(decreases_to!(self => a[k as int]));
                    }
                    let c = a[k].deep_copy();
                    out.push(c);
                    k += 1;
                }
                proof {
                    lemma_array_view(*a);
                    lemma_array_view(out);
                    assert(items_view(out@) =~= items_view(a@));
                }
                Value::Array(out)
            },
            Value::Dictionary(d) => {
                let mut out: Vec<(String, Value)> = Vec::new();
                let mut k: usize = 0;
                while k < d.len()
                    invariant
                        *self == Value::Dictionary(*d),
                        k <= d.len(),
                        out@.len() == k,
                        forall|j: int|
                            0 <= j < k ==> #[trigger] out@[j].0@ == d@[j].0@ && out@[j].1@
                                == d@[j].1@,
                    decreases d.len() - k,
                {
                    proof {
                        assert(decreases_to!(*self => self->Dictionary_0));
                        assert(decreases_to!(self->Dictionary_0 => self->Dictionary_0[k as int]));
                        assert(decreases_to!(self => d[k as int].1));
                    }
                    let c = d[k].1.deep_copy();
                    out.push((d[k].0.clone(), c));
                    k += 1;
                }
                proof {
                    lemma_dict_view(*d);
                    lemma_dict_view(out);
                    assert(entries_view(out@) =~= entries_view(d@));
                }
                Value::Dictionary(out)
            },
        }
    }
}

/// One step down from `t`.
pub open spec fn child_at(t: Tree, s: Step) -> Option<Tree> {
    match (t, s) {
        (Tree::Array(a), Step::Index(i)) => if 0 <= i < a.len() {
            Some(a[i])
        } else {
            None
        },
        (Tree::Dictionary(d), Step::Key(k)) => dict_get(d, k),
        _ => None,
    }
}

/// A path that grows by one step reaches one step further down.
pub proof fn lemma_tree_at_push(t: Tree, p: Seq<Step>, s: Step)
    ensures
        tree_at(t, p.push(s)) == match tree_at(t, p) {
            Some(x) => child_at(x, s),
            None => None,
        },
    decreases p.len(),
{
    let q = p.push(s);
    if p.len() == 0 {
        let e = q.drop_first();
        assert(e =~= Seq::<Step>::empty());
        assert(q[0] == s);
        match (t, s) {
            (Tree::Array(a), Step::Index(i)) => {
                if 0 <= i < a.len() {
                    assert(tree_at(a[i], e) == Some(a[i]));
                }
            },
            (Tree::Dictionary(d), Step::Key(k)) => {
                let j = key_index(d, k);
                if j >= 0 {
                    assert(tree_at(d[j].1, e) == Some(d[j].1));
                }
            },
            _ => {},
        }
        assert(tree_at(t, p) == Some(t));
    } else {
        assert(q[0] == p[0]);
        assert(q.drop_first() =~= p.drop_first().push(s));
        match (t, p[0]) {
            (Tree::Array(a), Step::Index(i)) => {
                if 0 <= i < a.len() {
                    lemma_tree_at_push(a[i], p.drop_first(), s);
                }
            },
            (Tree::Dictionary(d), Step::Key(k)) => {
                let j = key_index(d, k);
                if j >= 0 {
                    lemma_tree_at_push(d[j].1, p.drop_first(), s);
                }
            },
            _ => {},
        }
    }
}

/// Following `p` then `q` reaches what following `p + q` reaches.
pub proof fn lemma_tree_at_concat(t: Tree, p: Seq<Step>, q: Seq<Step>)
    ensures
        tree_at(t, p + q) == match tree_at(t, p) {
            Some(x) => tree_at(x, q),
            None => None,
        },
    decreases p.len(),
{
    if p.len() == 0 {
        assert(p + q =~= q);
    } else {
        assert((p + q)[0] == p[0]);
        assert((p + q).drop_first() =~= p.drop_first() + q);
        match (t, p[0]) {
            (Tree::Array(a), Step::Index(i)) => {
                if 0 <= i < a.len() {
                    lemma_tree_at_concat(a[i], p.drop_first(), q);
                }
            },
            (Tree::Dictionary(d), Step::Key(k)) => {
                let j = key_index(d, k);
                if j >= 0 {
                    lemma_tree_at_concat(d[j].1, p.drop_first(), q);
                }
            },
            _ => {},
        }
    }
}

/// Whether the bit pattern `x` is a NaN.
pub open spec fn is_nan(x: u64) -> bool {
    (x & 0x7ff0_0000_0000_0000u64) == 0x7ff0_0000_0000_0000u64 && (x & 0x000f_ffff_ffff_ffffu64) != 0
}

/// IEEE-754 equality of two doubles given by their bit patterns: a NaN
/// equals nothing, and the two zeros are equal.
pub open spec fn real_eq(x: u64, y: u64) -> bool {
    !is_nan(x) && !is_nan(y) && (x == y || ((x & 0x7fff_ffff_ffff_ffffu64) == 0 && (y
        & 0x7fff_ffff_ffff_ffffu64) == 0))
}

/// Structural equality of two values: reals compare as doubles, and two
/// dictionaries are equal when they hold the same keys with equal values,
/// in whatever order.
pub open spec fn tree_eq(a: Tree, b: Tree) -> bool
    decreases a,
{
    match (a, b) {
        (Tree::Boolean(x), Tree::Boolean(y)) => x == y,
        (Tree::Integer(x), Tree::Integer(y)) => x == y,
        (Tree::Real(x), Tree::Real(y)) => real_eq(x, y),
        (Tree::String(x), Tree::String(y)) => x == y,
        (Tree::Data(x), Tree::Data(y)) => x == y,
        (Tree::Date(x), Tree::Date(y)) => x == y,
        (Tree::Uid(x), Tree::Uid(y)) => x == y,
        (Tree::Array(x), Tree::Array(y)) => x.len() == y.len() && forall|i: int|
            0 <= i < x.len() ==> tree_eq(#[trigger] x[i], y[i]),
        (Tree::Dictionary(x), Tree::Dictionary(y)) => x.len() == y.len() && forall|i: int|
            0 <= i < x.len() ==> (dict_get(y, #[trigger] x[i].0) is Some && tree_eq(
                x[i].1,
                dict_get(y, x[i].0)->Some_0,
            )),
        _ => false,
    }
}

fn real_equal(x: u64, y: u64) -> (r: bool)
    ensures
        r == real_eq(x, y),
{
    let nan_x = (x & 0x7ff0_0000_0000_0000u64) == 0x7ff0_0000_0000_0000u64 && (x
        & 0x000f_ffff_ffff_ffffu64) != 0;
    let nan_y = (y & 0x7ff0_0000_0000_0000u64) == 0x7ff0_0000_0000_0000u64 && (y
        & 0x000f_ffff_ffff_ffffu64) != 0;
    !nan_x && !nan_y && (x == y || ((x & 0x7fff_ffff_ffff_ffffu64) == 0 && (y
        & 0x7fff_ffff_ffff_ffffu64) == 0))
}

/// Whether `a` and `b` are structurally equal.
pub fn values_equal(a: &Value, b: &Value) -> (r: bool)
    ensures
        r == tree_eq(a@, b@),
    decreases a,
{
    match (a, b) {
        (Value::Boolean(x), Value::Boolean(y)) => *x == *y,
        (Value::Integer(x), Value::Integer(y)) => *x == *y,
        (Value::Real(x), Value::Real(y)) => real_equal(*x, *y),
        (Value::String(x), Value::String(y)) => *x == *y,
        (Value::Data(x), Value::Data(y)) => {
            if x.len() != y.len() {
                return false;
            }
            let mut i: usize = 0;
            while i < x.len()
                invariant
                    *a == Value::Data(*x),
                    *b == Value::Data(*y),
                    x@.len() == y@.len(),
                    i <= x@.len(),
                    forall|j: int| 0 <= j < i ==> x@[j] == y@[j],
                decreases x@.len() - i,
            {
                if x[i] != y[i] {
                    assert(x@[i as int] != y@[i as int]);
                    return false;
                }
                i += 1;
            }
            assert(x@ =~= y@);
            true
        },
        (Value::Date(x), Value::Date(y)) => *x == *y,
        (Value::Uid(x), Value::Uid(y)) => *x == *y,
        (Value::Array(x), Value::Array(y)) => {
            proof {
                lemma_array_view(*x);
                lemma_array_view(*y);
            }
            if x.len() != y.len() {
                return false;
            }
            let mut i: usize = 0;
            while i < x.len()
                invariant
                    *a == Value::Array(*x),
                    *b == Value::Array(*y),
                    a@ == Tree::Array(items_view(x@)),
                    b@ == Tree::Array(items_view(y@)),
                    x@.len() == y@.len(),
                    i <= x@.len(),
                    forall|j: int| 0 <= j < i ==> tree_eq(#[trigger] x@[j]@, y@[j]@),
                decreases x@.len() - i,
            {
                proof {
                    assert(decreases_to!(*a => a->Array_0));
                    assert(decreases_to!(a => x[i as int]));
                }
                if !values_equal(&x[i], &y[i]) {
                    assert(items_view(x@)[i as int] == x@[i as int]@);
                    assert(items_view(y@)[i as int] == y@[i as int]@);
                    return false;
                }
                i += 1;
            }
            assert forall|j: int| 0 <= j < x@.len() implies tree_eq(
                #[trigger] items_view(x@)[j],
                items_view(y@)[j],
            ) by {
                assert(tree_eq(x@[j]@, y@[j]@));
            }
            true
        },
        (Value::Dictionary(x), Value::Dictionary(y)) => {
            proof {
                lemma_dict_view(*x);
                lemma_dict_view(*y);
            }
            if x.len() != y.len() {
                return false;
            }
            let ghost ex = entries_view(x@);
            let ghost ey = entries_view(y@);
            let mut i: usize = 0;
            while i < x.len()
                invariant
                    *a == Value::Dictionary(*x),
                    *b == Value::Dictionary(*y),
                    a@ == Tree::Dictionary(ex),
                    b@ == Tree::Dictionary(ey),
                    ex == entries_view(x@),
                    ey == entries_view(y@),
                    x@.len() == y@.len(),
                    i <= x@.len(),
                    forall|j: int|
                        0 <= j < i ==> (dict_get(ey, #[trigger] ex[j].0) is Some && tree_eq(
                            ex[j].1,
                            dict_get(ey, ex[j].0)->Some_0,
                        )),
                decreases x@.len() - i,
            {
                proof {
                    assert(decreases_to!(*a => a->Dictionary_0));
                    assert(decreases_to!(a->Dictionary_0 => a->Dictionary_0[i as int]));
                    assert(decreases_to!(a => x[i as int].1));
                    lemma_key_index(ey, ex[i as int].0);
                }
                match dict_find(y, &x[i].0) {
                    Some(k) => {
                        if !values_equal(&x[i].1, &y[k].1) {
                            assert(ex[i as int].1 == x@[i as int].1@);
                            assert(ey[k as int].1 == y@[k as int].1@);
                            assert(dict_get(ey, ex[i as int].0) == Some(ey[k as int].1));
                            return false;
                        }
                    },
                    None => {
                        assert(dict_get(ey, ex[i as int].0) is None);
                        return false;
                    },
                }
                i += 1;
            }
            true
        },
        _ => false,
    }
}

/// A second write at the same path overrides the first.
pub proof fn lemma_update_twice(t: Tree, path: Seq<Step>, a: Tree, b: Tree)
    ensures
        tree_update(tree_update(t, path, a), path, b) == tree_update(t, path, b),
    decreases path.len(),
{
    if path.len() > 0 {
        match (t, path[0]) {
            (Tree::Array(s), Step::Index(i)) => {
                if 0 <= i < s.len() {
                    lemma_update_twice(s[i], path.drop_first(), a, b);
                    let s1 = s.update(i, tree_update(s[i], path.drop_first(), a));
                    assert(s1.update(i, tree_update(s1[i], path.drop_first(), b)) =~= s.update(
                        i,
                        tree_update(s[i], path.drop_first(), b),
                    ));
                }
            },
            (Tree::Dictionary(d), Step::Key(k)) => {
                let j = key_index(d, k);
                if j >= 0 {
                    lemma_key_index(d, k);
                    lemma_update_twice(d[j].1, path.drop_first(), a, b);
                    let d1 = d.update(j, (d[j].0, tree_update(d[j].1, path.drop_first(), a)));
                    lemma_same_keys(d, d1, k);
                    assert(d1.update(j, (d1[j].0, tree_update(d1[j].1, path.drop_first(), b)))
                        =~= d.update(j, (d[j].0, tree_update(d[j].1, path.drop_first(), b))));
                }
            },
            _ => {},
        }
    }
}

/// The steps of `path` from position `d` on.
pub open spec fn path_from(path: Seq<PathElem>, d: int) -> Seq<Step> {
    steps_view(path).subrange(d, path.len() as int)
}

pub proof fn lemma_path_from(path: Seq<PathElem>, d: int)
    requires
        0 <= d < path.len(),
    ensures
        path_from(path, d).len() > 0,
        path_from(path, d)[0] == path[d]@,
        path_from(path, d).drop_first() == path_from(path, d + 1),
{
    assert(path_from(path, d).drop_first() =~= path_from(path, d + 1));
}

/// The value that `path`, from step `d` on, reaches from `v`.
pub fn value_at<'a>(v: &'a Value, path: &Vec<PathElem>, d: usize) -> (r: Option<&'a Value>)
    requires
        d <= path.len(),
    ensures
        match r {
            Some(x) => tree_at(v@, path_from(path@, d as int)) == Some(x@),
            None => tree_at(v@, path_from(path@, d as int)) is None,
        },
    decreases path.len() - d,
{
    if d == path.len() {
        assert(path_from(path@, d as int) =~= Seq::<Step>::empty());
        return Some(v);
    }
    proof {
        lemma_path_from(path@, d as int);
    }
    match &path[d] {
        PathElem::Index(i) => match v {
            Value::Array(a) => {
                proof {
                    lemma_array_view(*a);
                }
                if (*i as usize) < a.len() {
                    value_at(&a[*i as usize], path, d + 1)
                } else {
                    None
                }
            },
            _ => None,
        },
        PathElem::Key(k) => match v {
            Value::Dictionary(e) => {
                proof {
                    lemma_dict_view(*e);
                }
                match dict_find(e, k) {
                    Some(j) => value_at(&e[j].1, path, d + 1),
                    None => None,
                }
            },
            _ => None,
        },
    }
}

/// Puts `n` where `path`, from step `d` on, leads from `v`, and hands back
/// what stood there; hands `n` back where the path leads nowhere.
pub fn replace_at(v: &mut Value, path: &Vec<PathElem>, d: usize, n: Value) -> (r: Result<
    Value,
    Value,
>)
    requires
        d <= path.len(),
    ensures
        match r {
            Ok(o) => tree_at(old(v)@, path_from(path@, d as int)) == Some(o@) && final(v)@
                == tree_update(old(v)@, path_from(path@, d as int), n@),
            Err(x) => tree_at(old(v)@, path_from(path@, d as int)) is None && x == n && final(v)@
                == old(v)@,
        },
    decreases path.len() - d,
{
    let ghost v0 = *v;
    let ghost nv = n@;
    if d == path.len() {
        assert(path_from(path@, d as int) =~= Seq::<Step>::empty());
        let mut n = n;
        std::mem::swap(v, &mut n);
        return Ok(n);
    }
    proof {
        lemma_path_from(path@, d as int);
    }
    let r = match &path[d] {
        PathElem::Index(i) => match v {
            Value::Array(a) => {
                if (*i as usize) < a.len() {
                    replace_at(&mut a[*i as usize], path, d + 1, n)
                } else {
                    Err(n)
                }
            },
            _ => Err(n),
        },
        PathElem::Key(k) => match v {
            Value::Dictionary(e) => {
                match dict_find(e, k) {
                    Some(j) => replace_at(&mut e[j].1, path, d + 1, n),
                    None => Err(n),
                }
            },
            _ => Err(n),
        },
    };
    proof {
        let pf = path_from(path@, d as int);
        match (v0, path@[d as int]) {
            (Value::Array(a0), PathElem::Index(i)) => {
                lemma_array_view(a0);
                if *v is Array {
                    let a1 = (*v)->Array_0;
                    lemma_array_view(a1);
                    if r is Ok {
                        assert(items_view(a1@) =~= items_view(a0@).update(i as int, a1@[i as int]@));
                    } else {
                        assert(items_view(a1@) =~= items_view(a0@));
                    }
                }
            },
            (Value::Dictionary(e0), PathElem::Key(k)) => {
                lemma_dict_view(e0);
                if *v is Dictionary {
                    let e1 = (*v)->Dictionary_0;
                    lemma_dict_view(e1);
                    let j = key_index(entries_view(e0@), k@);
                    if r is Ok {
                        assert(entries_view(e1@) =~= entries_view(e0@).update(
                            j,
                            (entries_view(e0@)[j].0, e1@[j].1@),
                        ));
                    } else {
                        assert(entries_view(e1@) =~= entries_view(e0@));
                    }
                }
            },
            _ => {},
        }
    }
    r
}

} // verus!
