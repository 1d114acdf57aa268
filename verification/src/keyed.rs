//! Vectors kept in strictly ascending order of a `u32` key, read as maps from key to item.
use vstd::prelude::*;

verus! {

/// Keys strictly increase along `s`.
pub open spec fn ascending<T>(s: Seq<T>, key: spec_fn(T) -> u32) -> bool {
    forall|i: int, j: int| 0 <= i < j < s.len() ==> key(#[trigger] s[i]) < key(#[trigger] s[j])
}

pub open spec fn has<T>(s: Seq<T>, key: spec_fn(T) -> u32, k: u32) -> bool {
    exists|i: int| 0 <= i < s.len() && key(#[trigger] s[i]) == k
}

pub open spec fn index_of<T>(s: Seq<T>, key: spec_fn(T) -> u32, k: u32) -> int {
    choose|i: int| 0 <= i < s.len() && key(#[trigger] s[i]) == k
}

/// The item of each key.
pub open spec fn as_map<T>(s: Seq<T>, key: spec_fn(T) -> u32) -> Map<u32, T> {
    Map::new(|k: u32| has(s, key, k), |k: u32| s[index_of(s, key, k)])
}

/// The keys, in order.
pub open spec fn keys<T>(s: Seq<T>, key: spec_fn(T) -> u32) -> Seq<u32> {
    s.map_values(|t: T| key(t))
}

pub proof fn lemma_index_of<T>(s: Seq<T>, key: spec_fn(T) -> u32, i: int)
    requires
        ascending(s, key),
        0 <= i < s.len(),
    ensures
        has(s, key, key(s[i])),
        index_of(s, key, key(s[i])) == i,
        as_map(s, key).contains_key(key(s[i])),
        as_map(s, key)[key(s[i])] == s[i],
{
    let k = key(s[i]);
    assert(has(s, key, k));
    let j = index_of(s, key, k);
    if j < i {
        assert(key(s[j]) < key(s[i]));
    } else if j > i {
        assert(key(s[i]) < key(s[j]));
    }
}

/// Inserting an item where its key belongs.
pub proof fn lemma_insert<T>(s: Seq<T>, key: spec_fn(T) -> u32, p: int, e: T)
    requires
        ascending(s, key),
        0 <= p <= s.len(),
        forall|i: int| 0 <= i < p ==> key(#[trigger] s[i]) < key(e),
        forall|i: int| p <= i < s.len() ==> key(e) < key(#[trigger] s[i]),
    ensures
        ascending(s.insert(p, e), key),
        as_map(s.insert(p, e), key) == as_map(s, key).insert(key(e), e),
{
    let t = s.insert(p, e);
    assert forall|i: int, j: int| 0 <= i < j < t.len() implies key(#[trigger] t[i]) < key(#[trigger] t[j]) by {
        if i < p && j < p {
            assert(t[i] == s[i] && t[j] == s[j]);
        } else if i < p && j == p {
            assert(t[i] == s[i]);
        } else if i < p {
            assert(t[i] == s[i] && t[j] == s[j - 1]);
        } else if i == p {
            assert(t[j] == s[j - 1]);
        } else {
            assert(t[i] == s[i - 1] && t[j] == s[j - 1]);
        }
    }
    let m = as_map(s, key).insert(key(e), e);
    assert forall|k: u32| #[trigger] as_map(t, key).contains_key(k) == m.contains_key(k) by {
        if has(t, key, k) {
            let i = choose|i: int| 0 <= i < t.len() && key(#[trigger] t[i]) == k;
            if i < p {
                assert(t[i] == s[i]);
                assert(has(s, key, k));
            } else if i > p {
                assert(t[i] == s[i - 1]);
                assert(has(s, key, k));
            }
        }
        if has(s, key, k) {
            let i = choose|i: int| 0 <= i < s.len() && key(#[trigger] s[i]) == k;
            if i < p {
                assert(t[i] == s[i]);
            } else {
                assert(t[i + 1] == s[i]);
            }
            assert(has(t, key, k));
        }
        if k == key(e) {
            assert(t[p] == e);
            assert(has(t, key, k));
        }
    }
    assert forall|k: u32| #[trigger] m.contains_key(k) implies as_map(t, key)[k] == m[k] by {
        if k == key(e) {
            assert(t[p] == e);
            lemma_index_of(t, key, p);
        } else {
            let i = choose|i: int| 0 <= i < s.len() && key(#[trigger] s[i]) == k;
            lemma_index_of(s, key, i);
            if i < p {
                assert(t[i] == s[i]);
                lemma_index_of(t, key, i);
            } else {
                assert(t[i + 1] == s[i]);
                lemma_index_of(t, key, i + 1);
            }
        }
    }
    assert(as_map(t, key) =~= m);
}

/// Replacing an item by one with the same key.
pub proof fn lemma_update<T>(s: Seq<T>, key: spec_fn(T) -> u32, i: int, e: T)
    requires
        ascending(s, key),
        0 <= i < s.len(),
        key(e) == key(s[i]),
    ensures
        ascending(s.update(i, e), key),
        as_map(s.update(i, e), key) == as_map(s, key).insert(key(e), e),
{
    let t = s.update(i, e);
    assert forall|a: int, b: int| 0 <= a < b < t.len() implies key(#[trigger] t[a]) < key(#[trigger] t[b]) by {
        assert(key(t[a]) == key(s[a]));
        assert(key(t[b]) == key(s[b]));
    }
    let m = as_map(s, key).insert(key(e), e);
    assert forall|k: u32| #[trigger] as_map(t, key).contains_key(k) == m.contains_key(k) by {
        if has(t, key, k) {
            let j = choose|j: int| 0 <= j < t.len() && key(#[trigger] t[j]) == k;
            assert(key(s[j]) == k);
        }
        if has(s, key, k) {
            let j = choose|j: int| 0 <= j < s.len() && key(#[trigger] s[j]) == k;
            assert(key(t[j]) == k);
        }
        if k == key(e) {
            assert(key(t[i]) == k);
        }
    }
    assert forall|k: u32| #[trigger] m.contains_key(k) implies as_map(t, key)[k] == m[k] by {
        if k == key(e) {
            lemma_index_of(t, key, i);
        } else {
            let j = choose|j: int| 0 <= j < s.len() && key(#[trigger] s[j]) == k;
            lemma_index_of(s, key, j);
            lemma_index_of(t, key, j);
        }
    }
    assert(as_map(t, key) =~= m);
}

/// Removing the item at `i`.
pub proof fn lemma_remove<T>(s: Seq<T>, key: spec_fn(T) -> u32, i: int)
    requires
        ascending(s, key),
        0 <= i < s.len(),
    ensures
        ascending(s.remove(i), key),
        as_map(s.remove(i), key) == as_map(s, key).remove(key(s[i])),
{
    let t = s.remove(i);
    assert forall|a: int, b: int| 0 <= a < b < t.len() implies key(#[trigger] t[a]) < key(#[trigger] t[b]) by {
        let a2 = if a < i { a } else { a + 1 };
        let b2 = if b < i { b } else { b + 1 };
        assert(t[a] == s[a2] && t[b] == s[b2]);
    }
    let m = as_map(s, key).remove(key(s[i]));
    assert forall|k: u32| #[trigger] as_map(t, key).contains_key(k) == m.contains_key(k) by {
        if has(t, key, k) {
            let j = choose|j: int| 0 <= j < t.len() && key(#[trigger] t[j]) == k;
            let j2 = if j < i { j } else { j + 1 };
            assert(t[j] == s[j2]);
            assert(has(s, key, k));
            if j2 < i {
                assert(key(s[j2]) < key(s[i]));
            } else {
                assert(key(s[i]) < key(s[j2]));
            }
        }
        if m.contains_key(k) {
            let j = choose|j: int| 0 <= j < s.len() && key(#[trigger] s[j]) == k;
            assert(j != i);
            if j < i {
                assert(t[j] == s[j]);
            } else {
                assert(t[j - 1] == s[j]);
            }
            assert(has(t, key, k));
        }
    }
    assert forall|k: u32| #[trigger] m.contains_key(k) implies as_map(t, key)[k] == m[k] by {
        let j = choose|j: int| 0 <= j < s.len() && key(#[trigger] s[j]) == k;
        lemma_index_of(s, key, j);
        if j < i {
            assert(t[j] == s[j]);
            lemma_index_of(t, key, j);
        } else {
            assert(t[j - 1] == s[j]);
            lemma_index_of(t, key, j - 1);
        }
    }
    assert(as_map(t, key) =~= m);
}

/// An ascending sequence's map has exactly as many keys as the sequence has items.
pub proof fn lemma_map_len<T>(s: Seq<T>, key: spec_fn(T) -> u32)
    requires
        ascending(s, key),
    ensures
        as_map(s, key).dom().finite(),
        as_map(s, key).dom().len() == s.len(),
        as_map(s, key).dom() == keys(s, key).to_set(),
{
    let ks = keys(s, key);
    assert forall|i: int, j: int| 0 <= i < ks.len() && 0 <= j < ks.len() && i != j implies ks[i] != ks[j] by {
        if i < j {
            assert(key(s[i]) < key(s[j]));
        } else {
            assert(key(s[j]) < key(s[i]));
        }
    }
    assert(ks.no_duplicates());
    ks.unique_seq_to_set();
    assert forall|k: u32| #[trigger] ks.to_set().contains(k) == has(s, key, k) by {
        if ks.to_set().contains(k) {
            assert(ks.contains(k));
            let i = choose|i: int| 0 <= i < ks.len() && ks[i] == k;
            assert(key(s[i]) == k);
        }
        if has(s, key, k) {
            let i = choose|i: int| 0 <= i < s.len() && key(#[trigger] s[i]) == k;
            assert(ks[i] == k);
        }
    }
    assert(as_map(s, key).dom() =~= ks.to_set());
}

} // verus!
