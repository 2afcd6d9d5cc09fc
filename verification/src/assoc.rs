//! Association lists: sequences of key/value pairs used as finite maps.
//! A key's entry is its last occurrence; a map built only by `assoc_insert`
//! holds each key once.
use vstd::prelude::*;

verus! {

/// Index of the last entry with key `k`, or -1 when there is none.
pub open spec fn key_index<K, V>(s: Seq<(K, V)>, k: K) -> int
    decreases s.len(),
{
    if s.len() == 0 {
        -1
    } else if s.last().0 == k {
        s.len() - 1
    } else {
        key_index(s.drop_last(), k)
    }
}

pub open spec fn has_key<K, V>(s: Seq<(K, V)>, k: K) -> bool {
    key_index(s, k) >= 0
}

/// The value of key `k`; meaningful when `has_key(s, k)`.
pub open spec fn assoc_get<K, V>(s: Seq<(K, V)>, k: K) -> V {
    s[key_index(s, k)].1
}

/// Sets key `k` to `v`: the entry of `k` is updated in place, or a new entry
/// is appended.
pub open spec fn assoc_insert<K, V>(s: Seq<(K, V)>, k: K, v: V) -> Seq<(K, V)> {
    let i = key_index(s, k);
    if i >= 0 {
        s.update(i, (k, v))
    } else {
        s.push((k, v))
    }
}

/// Removes the entry of key `k`, if there is one.
pub open spec fn assoc_remove<K, V>(s: Seq<(K, V)>, k: K) -> Seq<(K, V)> {
    let i = key_index(s, k);
    if i >= 0 {
        s.remove(i)
    } else {
        s
    }
}

/// Each key occurs at most once.
pub open spec fn keys_unique<K, V>(s: Seq<(K, V)>) -> bool {
    forall|i: int, j: int| 0 <= i < s.len() && 0 <= j < s.len() && i != j ==> s[i].0 != s[j].0
}

pub proof fn lemma_key_index<K, V>(s: Seq<(K, V)>, k: K)
    ensures
        -1 <= key_index(s, k) < s.len(),
        key_index(s, k) >= 0 ==> s[key_index(s, k)].0 == k,
        forall|j: int| key_index(s, k) < j < s.len() ==> s[j].0 != k,
    decreases s.len(),
{
    if s.len() > 0 {
        lemma_key_index(s.drop_last(), k);
        if s.last().0 != k {
            assert forall|j: int| key_index(s, k) < j < s.len() implies s[j].0 != k by {
                if j < s.len() - 1 {
                    assert(s[j] == s.drop_last()[j]);
                }
            }
        }
    }
}

pub proof fn lemma_key_index_unique<K, V>(s: Seq<(K, V)>, k: K, i: int)
    requires
        keys_unique(s),
        0 <= i < s.len(),
        s[i].0 == k,
    ensures
        key_index(s, k) == i,
{
    lemma_key_index(s, k);
}

pub proof fn lemma_assoc_insert_unique<K, V>(s: Seq<(K, V)>, k: K, v: V)
    requires
        keys_unique(s),
    ensures
        keys_unique(assoc_insert(s, k, v)),
        has_key(assoc_insert(s, k, v), k),
        assoc_get(assoc_insert(s, k, v), k) == v,
{
    lemma_key_index(s, k);
    let r = assoc_insert(s, k, v);
    if key_index(s, k) < 0 {
        assert forall|j: int| 0 <= j < s.len() implies s[j].0 != k by {
            if s[j].0 == k {
                lemma_key_index_unique(s, k, j);
            }
        }
        lemma_key_index_unique(r, k, s.len() as int);
    } else {
        lemma_key_index_unique(r, k, key_index(s, k));
    }
}

pub proof fn lemma_assoc_remove_unique<K, V>(s: Seq<(K, V)>, k: K)
    requires
        keys_unique(s),
    ensures
        keys_unique(assoc_remove(s, k)),
        !has_key(assoc_remove(s, k), k),
        forall|j: int| 0 <= j < assoc_remove(s, k).len() ==> s.contains(#[trigger] assoc_remove(s, k)[j]),
{
    lemma_key_index(s, k);
    let r = assoc_remove(s, k);
    let i = key_index(s, k);
    assert forall|j: int| 0 <= j < r.len() implies s.contains(#[trigger] r[j]) by {
        if i >= 0 {
            if j < i {
                assert(r[j] == s[j]);
            } else {
                assert(r[j] == s[j + 1]);
            }
        } else {
            assert(r[j] == s[j]);
        }
    }
    lemma_key_index(r, k);
    if key_index(r, k) >= 0 {
        let j = key_index(r, k);
        if i >= 0 {
            if j < i {
                assert(s[j].0 == k);
            } else {
                assert(s[j + 1].0 == k);
            }
        } else {
            assert(s[j].0 == k);
        }
    }
}


pub proof fn lemma_assoc_insert_keeps<K, V>(s: Seq<(K, V)>, k: K, v: V, k2: K)
    requires
        has_key(s, k2),
    ensures
        has_key(assoc_insert(s, k, v), k2),
{
    lemma_key_index(s, k);
    lemma_key_index(s, k2);
    let r = assoc_insert(s, k, v);
    let i2 = key_index(s, k2);
    lemma_key_index(r, k2);
    if k2 == k {
        lemma_key_index(r, k);
        if key_index(s, k) >= 0 {
            assert(r[key_index(s, k)].0 == k);
        } else {
            assert(r[s.len() as int].0 == k);
        }
    } else {
        assert(r[i2].0 == k2);
    }
}


pub proof fn lemma_assoc_insert_get<K, V>(s: Seq<(K, V)>, k: K, v: V, k2: K)
    ensures
        has_key(assoc_insert(s, k, v), k2) == (k2 == k || has_key(s, k2)),
        k2 == k ==> assoc_get(assoc_insert(s, k, v), k2) == v,
        k2 != k && has_key(s, k2) ==> assoc_get(assoc_insert(s, k, v), k2) == assoc_get(s, k2),
{
    lemma_key_index(s, k);
    lemma_key_index(s, k2);
    let r = assoc_insert(s, k, v);
    lemma_key_index(r, k2);
    if k2 == k {
        lemma_assoc_insert_keeps_new(s, k, v);
    } else {
        if key_index(s, k) >= 0 {
            lemma_key_index_update(s, key_index(s, k), (k, v), k2);
        } else {
            lemma_key_index_push(s, (k, v), k2);
        }
    }
}

proof fn lemma_assoc_insert_keeps_new<K, V>(s: Seq<(K, V)>, k: K, v: V)
    ensures
        has_key(assoc_insert(s, k, v), k),
        assoc_get(assoc_insert(s, k, v), k) == v,
{
    lemma_key_index(s, k);
    let r = assoc_insert(s, k, v);
    lemma_key_index(r, k);
    if key_index(s, k) >= 0 {
        let i = key_index(s, k);
        assert(r[i].0 == k);
        if key_index(r, k) != i {
            assert(key_index(r, k) > i);
            assert(r[key_index(r, k)] == s[key_index(r, k)]);
        }
    } else {
        assert(r[s.len() as int].0 == k);
    }
}

proof fn lemma_key_index_update<K, V>(s: Seq<(K, V)>, i: int, e: (K, V), k2: K)
    requires
        0 <= i < s.len(),
        s[i].0 == e.0,
        k2 != e.0,
    ensures
        key_index(s.update(i, e), k2) == key_index(s, k2),
    decreases s.len(),
{
    let r = s.update(i, e);
    if s.len() > 0 {
        if i < s.len() - 1 {
            assert(r.drop_last() =~= s.drop_last().update(i, e));
            lemma_key_index_update(s.drop_last(), i, e, k2);
        } else {
            assert(r.drop_last() =~= s.drop_last());
        }
    }
}

proof fn lemma_key_index_push<K, V>(s: Seq<(K, V)>, e: (K, V), k2: K)
    requires
        k2 != e.0,
    ensures
        key_index(s.push(e), k2) == key_index(s, k2),
{
    assert(s.push(e).drop_last() =~= s);
}

/// Every entry of `assoc_insert(s, k, v)` is `(k, v)` or an entry of `s`.
pub proof fn lemma_assoc_insert_entries<K, V>(s: Seq<(K, V)>, k: K, v: V)
    ensures
        forall|j: int| 0 <= j < assoc_insert(s, k, v).len() ==>
            #[trigger] assoc_insert(s, k, v)[j] == (k, v) || s.contains(assoc_insert(s, k, v)[j]),
        forall|j: int| 0 <= j < s.len() && s[j].0 != k ==> assoc_insert(s, k, v).contains(#[trigger] s[j]),
{
    lemma_key_index(s, k);
    let r = assoc_insert(s, k, v);
    let i = key_index(s, k);
    assert forall|j: int| 0 <= j < r.len() implies #[trigger] r[j] == (k, v) || s.contains(r[j]) by {
        if j < s.len() && j != i {
            assert(r[j] == s[j]);
        }
    }
    assert forall|j: int| 0 <= j < s.len() && s[j].0 != k implies r.contains(#[trigger] s[j]) by {
        assert(r[j] == s[j]);
    }
}


pub proof fn lemma_has_key_iff<K, V>(s: Seq<(K, V)>, k: K)
    ensures
        has_key(s, k) <==> exists|j: int| 0 <= j < s.len() && (#[trigger] s[j]).0 == k,
{
    lemma_key_index(s, k);
    if has_key(s, k) {
        assert(s[key_index(s, k)].0 == k);
    }
}


/// A map keyed by identifiers, its values taken by their views.
pub open spec fn id_map_view<V: View>(s: Seq<(u128, V)>) -> Seq<(u128, V::V)> {
    s.map_values(|e: (u128, V)| (e.0, e.1@))
}

/// Index of the entry with key `k` (the last one), if any.
pub fn id_index<V: View>(s: &Vec<(u128, V)>, k: u128) -> (r: Option<usize>)
    ensures
        match r {
            Some(i) => i as int == key_index(id_map_view(s@), k) && i < s@.len(),
            None => !has_key(id_map_view(s@), k),
        },
{
    let ghost mv = id_map_view(s@);
    proof {
        lemma_key_index(mv, k);
    }
    let mut i = s.len();
    while i > 0
        invariant
            i <= s.len(),
            mv == id_map_view(s@),
            forall|j: int| i <= j < s.len() ==> mv[j].0 != k,
        decreases i,
    {
        i = i - 1;
        if s[i].0 == k {
            proof {
                assert(mv[i as int] == (s@[i as int].0, s@[i as int].1@));
                lemma_key_index(mv, k);
                if key_index(mv, k) != i {
                    assert(mv[i as int].0 == k);
                }
            }
            return Some(i);
        }
    }
    proof {
        lemma_key_index(mv, k);
        if key_index(mv, k) >= 0 {
            assert(mv[key_index(mv, k)].0 == k);
        }
    }
    None
}


/// A map keyed by names, its keys taken as text and its values by their
/// views.
pub open spec fn named_view<V: View>(s: Seq<(String, V)>) -> Seq<(Seq<char>, V::V)> {
    s.map_values(|e: (String, V)| (e.0@, e.1@))
}

/// The value of the entry named `k` (the last one), if any.
pub open spec fn spec_named_get<V>(s: Seq<(Seq<char>, V)>, k: Seq<char>) -> Option<V> {
    if has_key(s, k) {
        Some(assoc_get(s, k))
    } else {
        None
    }
}

/// Index of the entry named `k` (the last one), if any.
pub fn named_index<V: View>(s: &Vec<(String, V)>, k: &str) -> (r: Option<usize>)
    ensures
        match r {
            Some(i) => i as int == key_index(named_view(s@), k@) && i < s@.len(),
            None => !has_key(named_view(s@), k@),
        },
{
    let ghost mv = named_view(s@);
    proof {
        lemma_key_index(mv, k@);
    }
    let mut i = s.len();
    while i > 0
        invariant
            i <= s.len(),
            mv == named_view(s@),
            forall|j: int| i <= j < s.len() ==> mv[j].0 != k@,
        decreases i,
    {
        i = i - 1;
        if crate::text::str_eq(s[i].0.as_str(), k) {
            proof {
                assert(mv[i as int] == (s@[i as int].0@, s@[i as int].1@));
                lemma_key_index(mv, k@);
                if key_index(mv, k@) != i {
                    assert(mv[i as int].0 == k@);
                }
            }
            return Some(i);
        }
    }
    proof {
        lemma_key_index(mv, k@);
        if key_index(mv, k@) >= 0 {
            assert(mv[key_index(mv, k@)].0 == k@);
        }
    }
    None
}

/// The value of the entry named `k` (the last one), if any.
pub fn named_get<'a, V: View>(s: &'a Vec<(String, V)>, k: &str) -> (r: Option<&'a V>)
    ensures
        match r {
            Some(v) => spec_named_get(named_view(s@), k@) == Some(v@),
            None => spec_named_get(named_view(s@), k@) is None,
        },
{
    match named_index(s, k) {
        Some(i) => {
            assert(named_view(s@)[i as int] == (s@[i as int].0@, s@[i as int].1@));
            Some(&s[i].1)
        },
        None => None,
    }
}

/// Sets the entry named `k` to `v`: updated in place, or appended.
pub fn named_insert<V: View>(s: &mut Vec<(String, V)>, k: String, v: V)
    ensures
        named_view(final(s)@) == assoc_insert(named_view(old(s)@), k@, v@),
{
    let ghost mv = named_view(old(s)@);
    match named_index(s, k.as_str()) {
        Some(i) => {
            s.set(i, (k, v));
            assert(named_view(s@) =~= mv.update(i as int, (k@, v@)));
        },
        None => {
            proof {
                lemma_key_index(mv, k@);
            }
            s.push((k, v));
            assert(named_view(s@) =~= mv.push((k@, v@)));
        },
    }
}

/// Sets key `k` of a map keyed by identifiers to `v`: updated in place, or
/// appended.
pub fn id_insert<V: View>(s: &mut Vec<(u128, V)>, k: u128, v: V)
    ensures
        id_map_view(final(s)@) == assoc_insert(id_map_view(old(s)@), k, v@),
{
    let ghost mv = id_map_view(old(s)@);
    match id_index(s, k) {
        Some(i) => {
            s.set(i, (k, v));
            assert(id_map_view(s@) =~= mv.update(i as int, (k, v@)));
        },
        None => {
            proof {
                lemma_key_index(mv, k);
            }
            s.push((k, v));
            assert(id_map_view(s@) =~= mv.push((k, v@)));
        },
    }
}

/// Removes the entry of key `k` (the last one) from a map keyed by
/// identifiers, if there is one.
pub fn id_remove<V: View>(s: &mut Vec<(u128, V)>, k: u128)
    ensures
        id_map_view(final(s)@) == assoc_remove(id_map_view(old(s)@), k),
{
    let ghost mv = id_map_view(old(s)@);
    match id_index(s, k) {
        Some(i) => {
            s.remove(i);
            assert(id_map_view(s@) =~= mv.remove(i as int));
        },
        None => {
            proof {
                lemma_key_index(mv, k);
            }
        },
    }
}

} // verus!
