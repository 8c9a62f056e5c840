//! Vectors of `(key, value)` pairs used as maps: each key once, looked up by key.
use vstd::prelude::*;

verus! {

/// No key occurs twice in the sequence of entries.
pub open spec fn keys_distinct<T>(s: Seq<(u64, T)>) -> bool {
    forall|i: int, j: int| 0 <= i < j < s.len() ==> s[i].0 != s[j].0
}

/// Some entry carries key `k`.
pub open spec fn has_key<T>(s: Seq<(u64, T)>, k: u64) -> bool {
    exists|i: int| 0 <= i < s.len() && s[i].0 == k
}

/// The position of an entry with key `k` (the only one when keys are distinct).
pub open spec fn key_pos<T>(s: Seq<(u64, T)>, k: u64) -> int {
    choose|i: int| 0 <= i < s.len() && s[i].0 == k
}

/// The entries read as a map from key to value.
pub open spec fn key_map<T>(s: Seq<(u64, T)>) -> Map<u64, T> {
    Map::new(|k: u64| has_key(s, k), |k: u64| s[key_pos(s, k)].1)
}

/// The entries after storing `v` under `k`: in place when `k` is present, appended otherwise.
pub open spec fn entries_insert<T>(s: Seq<(u64, T)>, k: u64, v: T) -> Seq<(u64, T)> {
    if has_key(s, k) {
        s.update(key_pos(s, k), (k, v))
    } else {
        s.push((k, v))
    }
}

/// The entries after dropping the one under `k`, if any.
pub open spec fn entries_remove<T>(s: Seq<(u64, T)>, k: u64) -> Seq<(u64, T)> {
    if has_key(s, k) {
        s.remove(key_pos(s, k))
    } else {
        s
    }
}

/// Entries with each value replaced by its view.
pub open spec fn vmap<T: View>(s: Seq<(u64, T)>) -> Seq<(u64, T::V)> {
    s.map_values(|e: (u64, T)| (e.0, e.1@))
}

/// With distinct keys, the position of a key is the position of any entry carrying it.
pub proof fn lemma_key_pos<T>(s: Seq<(u64, T)>, i: int)
    requires
        keys_distinct(s),
        0 <= i < s.len(),
    ensures
        has_key(s, s[i].0),
        key_pos(s, s[i].0) == i,
        key_map(s).contains_key(s[i].0),
        key_map(s)[s[i].0] == s[i].1,
{
    let k = s[i].0;
    assert(has_key(s, k));
    let j = key_pos(s, k);
    if j != i {
        if j < i {
            assert(s[j].0 != s[i].0);
        } else {
            assert(s[i].0 != s[j].0);
        }
    }
}

/// Viewing the values keeps the keys, their order and their positions.
pub proof fn lemma_vmap<T: View>(s: Seq<(u64, T)>)
    ensures
        vmap(s).len() == s.len(),
        forall|i: int| 0 <= i < s.len() ==> #[trigger] vmap(s)[i] == (s[i].0, s[i].1@),
        keys_distinct(vmap(s)) == keys_distinct(s),
        forall|k: u64| has_key(vmap(s), k) == has_key(s, k),
{
    assert forall|k: u64| has_key(vmap(s), k) == has_key(s, k) by {
        if has_key(s, k) {
            let i = choose|i: int| 0 <= i < s.len() && s[i].0 == k;
            assert(vmap(s)[i].0 == k);
        }
        if has_key(vmap(s), k) {
            let i = choose|i: int| 0 <= i < vmap(s).len() && vmap(s)[i].0 == k;
            assert(s[i].0 == k);
        }
    }
    assert(keys_distinct(vmap(s)) == keys_distinct(s)) by {
        if keys_distinct(s) {
            assert forall|i: int, j: int| 0 <= i < j < vmap(s).len() implies vmap(s)[i].0 != vmap(s)[j].0 by {
                assert(s[i].0 != s[j].0);
            }
        }
        if keys_distinct(vmap(s)) {
            assert forall|i: int, j: int| 0 <= i < j < s.len() implies s[i].0 != s[j].0 by {
                assert(vmap(s)[i].0 != vmap(s)[j].0);
            }
        }
    }
}

/// Index of the first entry with key `k`, if any.
pub fn find_key<T>(v: &Vec<(u64, T)>, k: u64) -> (r: Option<usize>)
    ensures
        match r {
            Some(i) => i < v@.len() && v@[i as int].0 == k && forall|j: int| 0 <= j < i ==> v@[j].0 != k,
            None => !has_key(v@, k),
        },
{
    let mut i: usize = 0;
    while i < v.len()
        invariant
            i <= v@.len(),
            forall|j: int| 0 <= j < i ==> v@[j].0 != k,
        decreases v@.len() - i,
    {
        if v[i].0 == k {
            return Some(i);
        }
        i = i + 1;
    }
    None
}

/// Stores `val` under `k`, keeping keys distinct.
pub fn keyed_insert<T: View>(v: &mut Vec<(u64, T)>, k: u64, val: T)
    requires
        keys_distinct(old(v)@),
    ensures
        keys_distinct(final(v)@),
        vmap(final(v)@) == entries_insert(vmap(old(v)@), k, val@),
{
    let ghost s0 = v@;
    let ghost d = val@;
    proof { lemma_vmap(s0); }
    match find_key(v, k) {
        Some(i) => {
            proof {
                lemma_key_pos(s0, i as int);
                lemma_key_pos(vmap(s0), i as int);
            }
            v.set(i, (k, val));
            proof {
                let s1 = v@;
                assert(s1 == s0.update(i as int, (k, val)));
                assert(keys_distinct(s1));
                assert(vmap(s1) =~= vmap(s0).update(i as int, (k, d)));
            }
        },
        None => {
            v.push((k, val));
            proof {
                let s1 = v@;
                assert(s1 == s0.push((k, val)));
                assert(keys_distinct(s1));
                assert(vmap(s1) =~= vmap(s0).push((k, d)));
            }
        },
    }
}

/// Removes the entry under `k`, returning its value.
pub fn keyed_remove<T: View>(v: &mut Vec<(u64, T)>, k: u64) -> (r: Option<T>)
    requires
        keys_distinct(old(v)@),
    ensures
        keys_distinct(final(v)@),
        vmap(final(v)@) == entries_remove(vmap(old(v)@), k),
        match r {
            Some(val) => has_key(vmap(old(v)@), k) && val@ == key_map(vmap(old(v)@))[k],
            None => !has_key(vmap(old(v)@), k),
        },
{
    let ghost s0 = v@;
    proof { lemma_vmap(s0); }
    match find_key(v, k) {
        Some(i) => {
            proof {
                lemma_key_pos(s0, i as int);
                lemma_key_pos(vmap(s0), i as int);
            }
            let e = v.remove(i);
            proof {
                let s1 = v@;
                assert(s1 == s0.remove(i as int));
                assert forall|a: int, b: int| 0 <= a < b < s1.len() implies s1[a].0 != s1[b].0 by {
                    let a0 = if a < i { a } else { a + 1 };
                    let b0 = if b < i { b } else { b + 1 };
                    assert(s1[a] == s0[a0]);
                    assert(s1[b] == s0[b0]);
                }
                assert(vmap(s1) =~= vmap(s0).remove(i as int));
            }
            Some(e.1)
        },
        None => None,
    }
}

/// After an insert, the map view gains the new value under its key.
pub proof fn lemma_insert_map<T>(s: Seq<(u64, T)>, k: u64, v: T)
    requires
        keys_distinct(s),
    ensures
        keys_distinct(entries_insert(s, k, v)),
        key_map(entries_insert(s, k, v)) == key_map(s).insert(k, v),
{
    let t = entries_insert(s, k, v);
    if has_key(s, k) {
        let p = key_pos(s, k);
        assert(keys_distinct(t));
        assert forall|key: u64| #[trigger] has_key(t, key) == (has_key(s, key) || key == k) by {
            if has_key(s, key) {
                let j = choose|j: int| 0 <= j < s.len() && s[j].0 == key;
                assert(t[j].0 == key);
            }
            if has_key(t, key) {
                let j = choose|j: int| 0 <= j < t.len() && t[j].0 == key;
                assert(s[j].0 == key);
            }
        }
        assert forall|key: u64| #[trigger] key_map(t).contains_key(key) implies key_map(t)[key] == key_map(s).insert(k, v)[key] by {
            let j = choose|j: int| 0 <= j < t.len() && t[j].0 == key;
            lemma_key_pos(t, j);
            if j != p {
                lemma_key_pos(s, j);
            }
        }
    } else {
        assert(keys_distinct(t));
        assert forall|key: u64| #[trigger] has_key(t, key) == (has_key(s, key) || key == k) by {
            if has_key(s, key) {
                let j = choose|j: int| 0 <= j < s.len() && s[j].0 == key;
                assert(t[j].0 == key);
            }
            if key == k {
                assert(t[s.len() as int].0 == key);
            }
            if has_key(t, key) {
                let j = choose|j: int| 0 <= j < t.len() && t[j].0 == key;
                if j < s.len() {
                    assert(s[j].0 == key);
                }
            }
        }
        assert forall|key: u64| #[trigger] key_map(t).contains_key(key) implies key_map(t)[key] == key_map(s).insert(k, v)[key] by {
            let j = choose|j: int| 0 <= j < t.len() && t[j].0 == key;
            lemma_key_pos(t, j);
            if j < s.len() {
                lemma_key_pos(s, j);
            }
        }
    }
    assert(key_map(t) =~= key_map(s).insert(k, v));
}

/// After a removal, the map view loses the key.
pub proof fn lemma_remove_map<T>(s: Seq<(u64, T)>, k: u64)
    requires
        keys_distinct(s),
    ensures
        keys_distinct(entries_remove(s, k)),
        key_map(entries_remove(s, k)) == key_map(s).remove(k),
{
    let t = entries_remove(s, k);
    if has_key(s, k) {
        let i = key_pos(s, k);
        assert forall|a: int, b: int| 0 <= a < b < t.len() implies t[a].0 != t[b].0 by {
            let a0 = if a < i { a } else { a + 1 };
            let b0 = if b < i { b } else { b + 1 };
            assert(t[a] == s[a0]);
            assert(t[b] == s[b0]);
        }
        assert forall|key: u64| #[trigger] has_key(t, key) == (has_key(s, key) && key != k) by {
            if has_key(s, key) && key != k {
                let j = choose|j: int| 0 <= j < s.len() && s[j].0 == key;
                assert(j != i);
                let j1 = if j < i { j } else { j - 1 };
                assert(t[j1] == s[j]);
            }
            if has_key(t, key) {
                let j = choose|j: int| 0 <= j < t.len() && t[j].0 == key;
                let j0 = if j < i { j } else { j + 1 };
                assert(t[j] == s[j0]);
                assert(j0 != i);
            }
        }
        assert forall|key: u64| #[trigger] key_map(t).contains_key(key) implies key_map(t)[key] == key_map(s).remove(k)[key] by {
            let j = choose|j: int| 0 <= j < t.len() && t[j].0 == key;
            lemma_key_pos(t, j);
            let j0 = if j < i { j } else { j + 1 };
            assert(t[j] == s[j0]);
            lemma_key_pos(s, j0);
        }
    }
    assert(key_map(t) =~= key_map(s).remove(k));
}

/// Whether `x` occurs in `v`.
pub fn vec_contains(v: &Vec<u64>, x: u64) -> (r: bool)
    ensures
        r == v@.contains(x),
{
    let mut i: usize = 0;
    while i < v.len()
        invariant
            i <= v@.len(),
            forall|j: int| 0 <= j < i ==> v@[j] != x,
        decreases v@.len() - i,
    {
        if v[i] == x {
            return true;
        }
        i = i + 1;
    }
    false
}

} // verus!
