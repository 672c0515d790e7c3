use vstd::prelude::*;

use crate::handle::{
    allocated, copy_path, location, node_error, owned_tree, tree_of_handle, wrapper_of,
    Handle, HandleError, NodeType, PlistStore,
};
use crate::value::{
    lemma_tree_at_concat, steps_view, tree_at, tree_eq, values_equal, PathElem, Step, Tree, Value,
};

verus! {

/// A new alias, produced by `plist`, for what the steps of `path` reach,
/// one after the other, from what `plist` refers to: a key step looks up a
/// dictionary, an index step an array. `None` (and no change) where a step
/// finds no such container or no such entry.
pub fn plist_access_path_shim(store: &mut PlistStore, plist: Handle, path: &Vec<PathElem>) -> (r: Option<Handle>)
    requires
        old(store)@.len() < usize::MAX,
    ensures
        r is Some <==> (tree_of_handle(old(store)@, plist) is Some && tree_at(
            tree_of_handle(old(store)@, plist)->Some_0,
            steps_view(path@),
        ) is Some),
        match r {
            Some(h) => {
                &&& allocated(old(store)@, final(store)@, h, wrapper_of(final(store)@, h))
                &&& crate::handle::is_alias(final(store)@, h)
                &&& tree_of_handle(final(store)@, h) == tree_at(
                    tree_of_handle(old(store)@, plist)->Some_0,
                    steps_view(path@),
                )
                &&& wrapper_of(final(store)@, h).lineage@ == wrapper_of(old(store)@, plist).lineage@.push(plist)
            },
            None => final(store)@ == old(store)@,
        },
{
    let ghost s0 = store@;
    let found = match store.borrow_self(plist) {
        Ok(v) => {
            assert(crate::value::path_from(path@, 0) =~= steps_view(path@));
            crate::value::value_at(v, path, 0).is_some()
        },
        Err(_) => false,
    };
    if !found {
        return None;
    }
    let (root, mut full) = match store.wrapper(plist) {
        Some(w) => match &w.node {
            NodeType::Child { root, path, .. } => (*root, copy_path(path)),
            _ => (plist, Vec::new()),
        },
        None => (plist, Vec::new()),
    };
    let ghost base = full@;
    assert(steps_view(base) == location(s0, plist)->Some_0.1) by {
        if wrapper_of(s0, plist).node is Node {
            assert(steps_view(base) =~= Seq::<Step>::empty());
        }
    }
    let tail = copy_path(path);
    let mut i: usize = 0;
    while i < tail.len()
        invariant
            i <= tail@.len(),
            tail@ == path@,
            full@ == base + path@.subrange(0, i as int),
        decreases tail@.len() - i,
    {
        let e = match &tail[i] {
            PathElem::Key(k) => PathElem::Key(k.clone()),
            PathElem::Index(n) => PathElem::Index(*n),
        };
        full.push(e);
        i += 1;
        assert(full@ =~= base + path@.subrange(0, i as int));
    }
    assert(path@.subrange(0, path@.len() as int) =~= path@);
    assert(steps_view(full@) =~= steps_view(base) + steps_view(path@));
    let (index, key) = if path.len() == 0 {
        (u32::MAX, None)
    } else {
        match &path[path.len() - 1] {
            PathElem::Index(n) => (*n, None),
            PathElem::Key(k) => (u32::MAX, Some(k.clone())),
        }
    };
    proof {
        let (r, p) = location(s0, plist)->Some_0;
        lemma_tree_at_concat(owned_tree(s0, r), p, steps_view(path@));
    }
    let h = store.new_child(plist, NodeType::Child { root, path: full, index, key });
    proof {
        assert(store@[root.index as int] == s0[root.index as int]);
    }
    Some(h)
}

/// Whether `node_l` and `node_r` refer to structurally equal values.
pub fn plist_compare_node_value(store: &PlistStore, node_l: Handle, node_r: Handle) -> (r: Result<bool, HandleError>)
    ensures
        match r {
            Ok(b) => tree_of_handle(store@, node_l) is Some && tree_of_handle(store@, node_r) is Some
                && b == tree_eq(tree_of_handle(store@, node_l)->Some_0, tree_of_handle(store@, node_r)->Some_0),
            Err(e) => (tree_of_handle(store@, node_l) is None && e == node_error(store@, node_l))
                || (tree_of_handle(store@, node_l) is Some && tree_of_handle(store@, node_r) is None
                && e == node_error(store@, node_r)),
        },
{
    let l = store.borrow_self(node_l)?;
    let r = store.borrow_self(node_r)?;
    Ok(values_equal(l, r))
}

/// -1, 0 or 1 as `a` is below, equal to or above `b`.
pub open spec fn sign_of(a: int, b: int) -> i8 {
    if a < b {
        -1i8
    } else if a > b {
        1i8
    } else {
        0i8
    }
}

fn compare_ints(a: i128, b: i128) -> (r: i8)
    ensures
        r == sign_of(a as int, b as int),
{
    if a < b {
        -1
    } else if a > b {
        1
    } else {
        0
    }
}

/// 1 where `boolnode` refers to true, else 0.
pub fn plist_bool_val_is_true(store: &PlistStore, boolnode: Handle) -> (r: i8)
    ensures
        r == (if tree_of_handle(store@, boolnode) == Some(Tree::Boolean(true)) {
            1i8
        } else {
            0i8
        }),
{
    match store.borrow_self(boolnode) {
        Ok(Value::Boolean(b)) => if *b {
            1
        } else {
            0
        },
        _ => 0,
    }
}

/// 1 where `intnode` refers to a negative integer, else 0.
pub fn plist_int_val_is_negative(store: &PlistStore, intnode: Handle) -> (r: i8)
    ensures
        r == (if tree_of_handle(store@, intnode) matches Some(Tree::Integer(i)) && i < 0 {
            1i8
        } else {
            0i8
        }),
{
    match store.borrow_self(intnode) {
        Ok(Value::Integer(i)) => if *i < 0 {
            1
        } else {
            0
        },
        _ => 0,
    }
}

/// How the integer that `intnode` refers to compares with `cmpval`; -1
/// where it refers to no integer.
pub fn plist_int_val_compare(store: &PlistStore, intnode: Handle, cmpval: i64) -> (r: i8)
    ensures
        r == match tree_of_handle(store@, intnode) {
            Some(Tree::Integer(i)) => sign_of(i, cmpval as int),
            _ => -1i8,
        },
{
    match store.borrow_self(intnode) {
        Ok(Value::Integer(i)) => compare_ints(*i, cmpval as i128),
        _ => -1,
    }
}

/// How the integer that `uintnode` refers to compares with `cmpval`; -1
/// where it refers to no integer.
pub fn plist_uint_val_compare(store: &PlistStore, uintnode: Handle, cmpval: u64) -> (r: i8)
    ensures
        r == match tree_of_handle(store@, uintnode) {
            Some(Tree::Integer(i)) => sign_of(i, cmpval as int),
            _ => -1i8,
        },
{
    match store.borrow_self(uintnode) {
        Ok(Value::Integer(i)) => compare_ints(*i, cmpval as i128),
        _ => -1,
    }
}

/// How the identifier that `uidtnode` refers to compares with `cmpval`; -1
/// where it refers to no identifier.
pub fn plist_uid_val_compare(store: &PlistStore, uidtnode: Handle, cmpval: u64) -> (r: i8)
    ensures
        r == match tree_of_handle(store@, uidtnode) {
            Some(Tree::Uid(u)) => sign_of(u as int, cmpval as int),
            _ => -1i8,
        },
{
    match store.borrow_self(uidtnode) {
        Ok(Value::Uid(u)) => compare_ints(*u as i128, cmpval as i128),
        _ => -1,
    }
}

/// How the date that `datenode` refers to compares with `cmpval` seconds
/// after the Unix epoch; -1 where it refers to no date.
pub fn plist_date_val_compare(store: &PlistStore, datenode: Handle, cmpval: i64) -> (r: i8)
    ensures
        r == match tree_of_handle(store@, datenode) {
            Some(Tree::Date(d)) => sign_of(d as int, cmpval as int),
            _ => -1i8,
        },
{
    match store.borrow_self(datenode) {
        Ok(Value::Date(d)) => compare_ints(*d as i128, cmpval as i128),
        _ => -1,
    }
}

/// Lexicographic order of byte strings: -1, 0 or 1.
pub open spec fn bytes_cmp(a: Seq<u8>, b: Seq<u8>) -> i8
    decreases a.len(),
{
    if a.len() == 0 {
        if b.len() == 0 {
            0i8
        } else {
            -1i8
        }
    } else if b.len() == 0 {
        1i8
    } else if a[0] < b[0] {
        -1i8
    } else if a[0] > b[0] {
        1i8
    } else {
        bytes_cmp(a.drop_first(), b.drop_first())
    }
}

/// Compares the first `na` bytes of `a` with the first `nb` bytes of `b`.
fn compare_bytes(a: &[u8], na: usize, b: &[u8], nb: usize) -> (r: i8)
    requires
        na <= a@.len(),
        nb <= b@.len(),
    ensures
        r == bytes_cmp(a@.subrange(0, na as int), b@.subrange(0, nb as int)),
{
    let ghost x = a@.subrange(0, na as int);
    let ghost y = b@.subrange(0, nb as int);
    let mut i: usize = 0;
    assert(x.subrange(0, na as int) =~= x);
    assert(y.subrange(0, nb as int) =~= y);
    while i < na && i < nb
        invariant
            na <= a@.len(),
            nb <= b@.len(),
            x == a@.subrange(0, na as int),
            y == b@.subrange(0, nb as int),
            i <= na,
            i <= nb,
            bytes_cmp(x, y) == bytes_cmp(x.subrange(i as int, na as int), y.subrange(i as int, nb as int)),
        decreases na - i,
    {
        let ghost xs = x.subrange(i as int, na as int);
        let ghost ys = y.subrange(i as int, nb as int);
        assert(xs[0] == a@[i as int]);
        assert(ys[0] == b@[i as int]);
        if a[i] < b[i] {
            return -1;
        }
        if a[i] > b[i] {
            return 1;
        }
        assert(xs.drop_first() =~= x.subrange(i as int + 1, na as int));
        assert(ys.drop_first() =~= y.subrange(i as int + 1, nb as int));
        i += 1;
    }
    if i < na {
        1
    } else if i < nb {
        -1
    } else {
        0
    }
}

/// The UTF-8 bytes of `s`.
pub open spec fn utf8(s: Seq<char>) -> Seq<u8> {
    vstd::utf8::encode_utf8(s)
}

/// How the string that `strnode` refers to compares with `cmpval`, byte by
/// byte; -1 where it refers to no string.
pub fn plist_string_val_compare(store: &PlistStore, strnode: Handle, cmpval: &str) -> (r: i8)
    ensures
        r == match tree_of_handle(store@, strnode) {
            Some(Tree::String(s)) => bytes_cmp(utf8(s), utf8(cmpval@)),
            _ => -1i8,
        },
{
    match store.borrow_self(strnode) {
        Ok(Value::String(s)) => {
            let a = s.as_str().as_bytes();
            let b = cmpval.as_bytes();
            assert(a@.subrange(0, a@.len() as int) =~= a@);
            assert(b@.subrange(0, b@.len() as int) =~= b@);
            compare_bytes(a, a.len(), b, b.len())
        },
        _ => -1,
    }
}

/// How the first `n` bytes of the string that `strnode` refers to compare
/// with the first `n` bytes of `cmpval`; -1 where it refers to no string.
pub fn plist_string_val_compare_with_size(store: &PlistStore, strnode: Handle, cmpval: &str, n: usize) -> (r: i8)
    requires
        n <= utf8(cmpval@).len(),
        tree_of_handle(store@, strnode) matches Some(Tree::String(s)) ==> n <= utf8(s).len(),
    ensures
        r == match tree_of_handle(store@, strnode) {
            Some(Tree::String(s)) => bytes_cmp(utf8(s).subrange(0, n as int), utf8(cmpval@).subrange(0, n as int)),
            _ => -1i8,
        },
{
    match store.borrow_self(strnode) {
        Ok(Value::String(s)) => {
            let a = s.as_str().as_bytes();
            let b = cmpval.as_bytes();
            compare_bytes(a, n, b, n)
        },
        _ => -1,
    }
}

/// Whether `needle` occurs in `haystack` at position `i`.
pub open spec fn occurs_at(haystack: Seq<u8>, needle: Seq<u8>, i: int) -> bool {
    0 <= i && i + needle.len() <= haystack.len() && haystack.subrange(i, i + needle.len()) == needle
}

/// Whether `needle` occurs in `haystack`.
pub open spec fn occurs(haystack: Seq<u8>, needle: Seq<u8>) -> bool {
    exists|i: int| occurs_at(haystack, needle, i)
}

fn occurs_here(haystack: &[u8], needle: &[u8], i: usize) -> (r: bool)
    requires
        i + needle@.len() <= haystack@.len(),
    ensures
        r == occurs_at(haystack@, needle@, i as int),
{
    let hn = haystack.len();
    let mut j: usize = 0;
    while j < needle.len()
        invariant
            hn == haystack@.len(),
            i + needle@.len() <= haystack@.len(),
            j <= needle@.len(),
            forall|k: int| 0 <= k < j ==> haystack@[i + k] == needle@[k],
        decreases needle@.len() - j,
    {
        if haystack[i + j] != needle[j] {
            assert(haystack@.subrange(i as int, i + needle@.len())[j as int] != needle@[j as int]);
            return false;
        }
        j += 1;
    }
    assert(haystack@.subrange(i as int, i + needle@.len()) =~= needle@);
    true
}

/// Whether `needle` occurs in `haystack`; the empty needle occurs
/// everywhere.
pub fn is_sub(haystack: &[u8], needle: &[u8]) -> (r: bool)
    ensures
        r == occurs(haystack@, needle@),
{
    if needle.len() == 0 {
        assert(occurs_at(haystack@, needle@, 0)) by {
            assert(haystack@.subrange(0, 0) =~= needle@);
        }
        return true;
    }
    if needle.len() > haystack.len() {
        return false;
    }
    let hn = haystack.len();
    let last = hn - needle.len();
    let mut i: usize = 0;
    while i <= last
        invariant
            hn == haystack@.len(),
            needle@.len() >= 1,
            last == haystack@.len() - needle@.len(),
            i <= last + 1,
            forall|k: int| 0 <= k < i ==> !occurs_at(haystack@, needle@, k),
        decreases last + 1 - i,
    {
        if occurs_here(haystack, needle, i) {
            return true;
        }
        i += 1;
    }
    false
}

/// 1 where the string that `strnode` refers to contains `substr`, else 0.
pub fn plist_string_val_contains(store: &PlistStore, strnode: Handle, substr: &str) -> (r: i8)
    ensures
        r == (if tree_of_handle(store@, strnode) matches Some(Tree::String(s)) && occurs(utf8(s), utf8(substr@)) {
            1i8
        } else {
            0i8
        }),
{
    match store.borrow_self(strnode) {
        Ok(Value::String(s)) => if is_sub(s.as_str().as_bytes(), substr.as_bytes()) {
            1
        } else {
            0
        },
        _ => 0,
    }
}

/// As `plist_string_val_compare`, for a key.
pub fn plist_key_val_compare(store: &PlistStore, keynode: Handle, cmpval: &str) -> (r: i8)
    ensures
        r == match tree_of_handle(store@, keynode) {
            Some(Tree::String(s)) => bytes_cmp(utf8(s), utf8(cmpval@)),
            _ => -1i8,
        },
{
    plist_string_val_compare(store, keynode, cmpval)
}

/// As `plist_string_val_compare_with_size`, for a key.
pub fn plist_key_val_compare_with_size(store: &PlistStore, keynode: Handle, cmpval: &str, n: usize) -> (r: i8)
    requires
        n <= utf8(cmpval@).len(),
        tree_of_handle(store@, keynode) matches Some(Tree::String(s)) ==> n <= utf8(s).len(),
    ensures
        r == match tree_of_handle(store@, keynode) {
            Some(Tree::String(s)) => bytes_cmp(utf8(s).subrange(0, n as int), utf8(cmpval@).subrange(0, n as int)),
            _ => -1i8,
        },
{
    plist_string_val_compare_with_size(store, keynode, cmpval, n)
}

/// As `plist_string_val_contains`, for a key.
pub fn plist_key_val_contains(store: &PlistStore, keynode: Handle, substr: &str) -> (r: i8)
    ensures
        r == (if tree_of_handle(store@, keynode) matches Some(Tree::String(s)) && occurs(utf8(s), utf8(substr@)) {
            1i8
        } else {
            0i8
        }),
{
    plist_string_val_contains(store, keynode, substr)
}

/// 1 where the data that `datanode` refers to comes after `cmpval` in
/// byte order, else 0.
pub fn plist_data_val_compare(store: &PlistStore, datanode: Handle, cmpval: &[u8]) -> (r: i8)
    ensures
        r == (if tree_of_handle(store@, datanode) matches Some(Tree::Data(d)) && bytes_cmp(d, cmpval@) == 1 {
            1i8
        } else {
            0i8
        }),
{
    match store.borrow_self(datanode) {
        Ok(Value::Data(d)) => {
            assert(d@.subrange(0, d@.len() as int) =~= d@);
            assert(cmpval@.subrange(0, cmpval@.len() as int) =~= cmpval@);
            if compare_bytes(d.as_slice(), d.len(), cmpval, cmpval.len()) == 1 {
                1
            } else {
                0
            }
        },
        _ => 0,
    }
}

/// 1 where the first `n` bytes of the data that `datanode` refers to come
/// after the first `n` bytes of `cmpval`, else 0.
pub fn plist_data_val_compare_with_size(store: &PlistStore, datanode: Handle, cmpval: &[u8], n: usize) -> (r: i8)
    requires
        n <= cmpval@.len(),
        tree_of_handle(store@, datanode) matches Some(Tree::Data(d)) ==> n <= d.len(),
    ensures
        r == (if tree_of_handle(store@, datanode) matches Some(Tree::Data(d)) && bytes_cmp(
            d.subrange(0, n as int),
            cmpval@.subrange(0, n as int),
        ) == 1 {
            1i8
        } else {
            0i8
        }),
{
    match store.borrow_self(datanode) {
        Ok(Value::Data(d)) => if compare_bytes(d.as_slice(), n, cmpval, n) == 1 {
            1
        } else {
            0
        },
        _ => 0,
    }
}

/// 1 where the data that `datanode` refers to contains `cmpval`, else 0.
pub fn plist_data_val_contains(store: &PlistStore, datanode: Handle, cmpval: &[u8]) -> (r: i8)
    ensures
        r == (if tree_of_handle(store@, datanode) matches Some(Tree::Data(d)) && occurs(d, cmpval@) {
            1i8
        } else {
            0i8
        }),
{
    match store.borrow_self(datanode) {
        Ok(Value::Data(d)) => if is_sub(d.as_slice(), cmpval) {
            1
        } else {
            0
        },
        _ => 0,
    }
}

/// Accepted for compatibility; there is no debug output to switch.
pub fn plist_set_debug(_debug: i8) {
}

/// The version of the interface this library follows.
pub fn libplist_version() -> (r: String)
    ensures
        r@ == seq!['2', '.', '0'],
{
    let r = String::from_str("2.0");
    proof {
        reveal_strlit("2.0");
    }
    r
}

proof fn lemma_cmp_antisym(a: Seq<u8>, b: Seq<u8>)
    ensures
        bytes_cmp(a, b) == -bytes_cmp(b, a),
    decreases a.len(),
{
    if a.len() > 0 && b.len() > 0 && a[0] == b[0] {
        lemma_cmp_antisym(a.drop_first(), b.drop_first());
    }
}

/// The UTF-8 bytes of the key of entry `i`.
pub open spec fn key_bytes(d: Seq<(Seq<char>, Tree)>, i: int) -> Seq<u8> {
    utf8(d[i].0)
}

/// Each key comes at or before the next one in byte order.
pub open spec fn keys_sorted(d: Seq<(Seq<char>, Tree)>) -> bool {
    forall|i: int| 0 <= i < d.len() - 1 ==> bytes_cmp(#[trigger] key_bytes(d, i), key_bytes(d, i + 1)) <= 0
}

/// Where an entry with key `k` goes in `out` so that equal keys keep their
/// order: after every key at or before `k`.
fn insert_position(out: &Vec<(String, Value)>, k: &String) -> (j: usize)
    ensures
        j <= out@.len(),
        forall|m: int| 0 <= m < j ==> bytes_cmp(utf8(k@), #[trigger] key_bytes(crate::value::entries_view(out@), m)) >= 0,
        j < out@.len() ==> bytes_cmp(utf8(k@), key_bytes(crate::value::entries_view(out@), j as int)) < 0,
{
    let ghost ov = crate::value::entries_view(out@);
    let eb = k.as_str().as_bytes();
    assert(eb@.subrange(0, eb@.len() as int) =~= eb@);
    let mut j: usize = 0;
    while j < out.len()
        invariant
            ov == crate::value::entries_view(out@),
            j <= out@.len(),
            eb@ == utf8(k@),
            forall|m: int| 0 <= m < j ==> bytes_cmp(utf8(k@), #[trigger] key_bytes(ov, m)) >= 0,
        decreases out@.len() - j,
    {
        let kb = out[j].0.as_str().as_bytes();
        assert(kb@.subrange(0, kb@.len() as int) =~= kb@);
        assert(eb@.subrange(0, eb@.len() as int) =~= eb@);
        assert(ov[j as int].0 == out@[j as int].0@);
        assert(kb@ == key_bytes(ov, j as int));
        if compare_bytes(eb, eb.len(), kb, kb.len()) < 0 {
            return j;
        }
        j += 1;
    }
    j
}

proof fn lemma_insert_key(ov: Seq<(Seq<char>, Tree)>, j: int, ev: (Seq<char>, Tree), i: int)
    requires
        0 <= j <= ov.len(),
        0 <= i <= ov.len(),
    ensures
        key_bytes(ov.insert(j, ev), i) == if i < j {
            key_bytes(ov, i)
        } else if i == j {
            utf8(ev.0)
        } else {
            key_bytes(ov, i - 1)
        },
{
}

proof fn lemma_insert_sorted(ov: Seq<(Seq<char>, Tree)>, j: int, ev: (Seq<char>, Tree))
    requires
        0 <= j <= ov.len(),
        keys_sorted(ov),
        forall|m: int| 0 <= m < j ==> bytes_cmp(utf8(ev.0), #[trigger] key_bytes(ov, m)) >= 0,
        j < ov.len() ==> bytes_cmp(utf8(ev.0), key_bytes(ov, j)) < 0,
    ensures
        keys_sorted(ov.insert(j, ev)),
{
    let nv = ov.insert(j, ev);
    if j > 0 {
        lemma_cmp_antisym(utf8(ev.0), key_bytes(ov, j - 1));
    }
    assert forall|i: int| 0 <= i < nv.len() - 1 implies bytes_cmp(
        #[trigger] key_bytes(nv, i),
        key_bytes(nv, i + 1),
    ) <= 0 by {
        lemma_insert_key(ov, j, ev, i);
        lemma_insert_key(ov, j, ev, i + 1);
        if i + 1 < j {
            assert(bytes_cmp(key_bytes(ov, i), key_bytes(ov, i + 1)) <= 0);
        } else if i >= j + 1 {
            assert(bytes_cmp(key_bytes(ov, i - 1), key_bytes(ov, i)) <= 0);
        }
    }
}

proof fn lemma_move_one<A>(out: Seq<A>, d: Seq<A>, j: int, whole: vstd::multiset::Multiset<A>)
    requires
        d.len() > 0,
        0 <= j <= out.len(),
        out.to_multiset().add(d.to_multiset()) == whole,
    ensures
        out.insert(j, d[0]).to_multiset().add(d.remove(0).to_multiset()) == whole,
{
    broadcast use vstd::seq_lib::group_to_multiset_ensures;

    vstd::seq_lib::to_multiset_remove(d, 0);
    vstd::seq_lib::to_multiset_insert(out, j, d[0]);
    assert(d.contains(d[0]));
    assert(d.to_multiset().count(d[0]) > 0);
    assert(out.insert(j, d[0]).to_multiset().add(d.remove(0).to_multiset()) =~= whole);
}

/// Sorts the entries of the dictionary that `plist` refers to by key, in
/// byte order; entries with equal keys keep their order.
pub fn plist_sort(store: &mut PlistStore, plist: Handle) -> (r: crate::PlistErr)
    ensures
        r == crate::PlistErr::PLIST_ERR_SUCCESS <==> crate::dict::dict_of(old(store)@, plist) is Some,
        r != crate::PlistErr::PLIST_ERR_SUCCESS ==> r == crate::PlistErr::PLIST_ERR_INVALID_ARG
            && final(store)@ == old(store)@,
        r == crate::PlistErr::PLIST_ERR_SUCCESS ==> (crate::dict::dict_of(final(store)@, plist) matches Some(s)
            && s.to_multiset() == crate::dict::dict_of(old(store)@, plist)->Some_0.to_multiset()
            && keys_sorted(s)
            && crate::handle::rewritten(old(store)@, final(store)@, plist, Tree::Dictionary(s))),
{
    let ghost s0 = store@;
    match store.borrow_self(plist) {
        Ok(Value::Dictionary(_)) => {},
        _ => {
            return crate::PlistErr::PLIST_ERR_INVALID_ARG;
        },
    }
    let cur = store.take_value(plist);
    let ghost s1 = store@;
    let mut d = match cur {
        Value::Dictionary(d) => d,
        _ => Vec::new(),
    };
    proof {
        crate::value::lemma_dict_view(d);
    }
    let ghost orig = crate::value::entries_view(d@);
    let mut out: Vec<(String, Value)> = Vec::new();
    proof {
        broadcast use vstd::seq_lib::group_to_multiset_ensures;

        assert(crate::value::entries_view(out@) =~= Seq::empty());
        assert(crate::value::entries_view(out@).to_multiset().add(orig.to_multiset()) =~= orig.to_multiset());
    }
    while d.len() > 0
        invariant
            crate::value::entries_view(out@).to_multiset().add(crate::value::entries_view(d@).to_multiset())
                == orig.to_multiset(),
            keys_sorted(crate::value::entries_view(out@)),
        decreases d.len(),
    {
        let ghost dv = crate::value::entries_view(d@);
        let ghost ov = crate::value::entries_view(out@);
        let e = d.remove(0);
        assert(crate::value::entries_view(d@) =~= dv.remove(0));
        let j = insert_position(&out, &e.0);
        proof {
            lemma_insert_sorted(ov, j as int, dv[0]);
            lemma_move_one(ov, dv, j as int, orig.to_multiset());
        }
        out.insert(j, e);
        assert(crate::value::entries_view(out@) =~= ov.insert(j as int, dv[0]));
    }
    proof {
        assert(crate::value::entries_view(d@) =~= Seq::empty());
        crate::value::lemma_dict_view(out);
    }
    let ghost sorted = crate::value::entries_view(out@);
    let new_value = Value::Dictionary(out);
    store.set_value(plist, new_value);
    proof {
        crate::handle::lemma_rewritten_twice(s0, s1, store@, plist, Tree::Boolean(false), new_value@);
        crate::handle::lemma_rewritten_reads(s0, store@, plist, new_value@);
    }
    crate::PlistErr::PLIST_ERR_SUCCESS
}

} // verus!
