//! Vectors whose items have pairwise distinct keys, read as maps from key to item.
use vstd::prelude::*;

verus! {

pub open spec fn distinct<T, K>(s: Seq<T>, key: spec_fn(T) -> K) -> bool {
    forall|i: int, j: int| 0 <= i < s.len() && 0 <= j < s.len() && i != j ==> key(#[trigger] s[i]) != key(#[trigger] s[j])
}

pub open spec fn has_key<T, K>(s: Seq<T>, key: spec_fn(T) -> K, k: K) -> bool {
    exists|i: int| 0 <= i < s.len() && key(#[trigger] s[i]) == k
}

/// The item of each key.
pub open spec fn key_map<T, K>(s: Seq<T>, key: spec_fn(T) -> K) -> Map<K, T> {
    Map::new(|k: K| has_key(s, key, k), |k: K| s[choose|i: int| 0 <= i < s.len() && key(#[trigger] s[i]) == k])
}

pub proof fn lemma_key_map_at<T, K>(s: Seq<T>, key: spec_fn(T) -> K, i: int)
    requires
        distinct(s, key),
        0 <= i < s.len(),
    ensures
        key_map(s, key).contains_key(key(s[i])),
        key_map(s, key)[key(s[i])] == s[i],
{
    assert(has_key(s, key, key(s[i])));
    let j = choose|j: int| 0 <= j < s.len() && key(#[trigger] s[j]) == key(s[i]);
    if j != i {
        assert(key(s[j]) != key(s[i]));
    }
}

/// Appending an item of a new key.
pub proof fn lemma_push<T, K>(s: Seq<T>, key: spec_fn(T) -> K, x: T)
    requires
        distinct(s, key),
        !has_key(s, key, key(x)),
    ensures
        distinct(s.push(x), key),
        key_map(s.push(x), key) == key_map(s, key).insert(key(x), x),
{
    let t = s.push(x);
    assert forall|a: int, b: int| 0 <= a < t.len() && 0 <= b < t.len() && a != b implies key(#[trigger] t[a]) != key(#[trigger] t[b]) by {
        if a < s.len() && b < s.len() {
            assert(t[a] == s[a] && t[b] == s[b]);
        } else if a < s.len() {
            assert(t[a] == s[a]);
        } else {
            assert(t[b] == s[b]);
        }
    }
    let m = key_map(s, key).insert(key(x), x);
    assert forall|k: K| #[trigger] key_map(t, key).contains_key(k) == m.contains_key(k) by {
        if has_key(t, key, k) {
            let a = choose|a: int| 0 <= a < t.len() && key(#[trigger] t[a]) == k;
            if a < s.len() {
                assert(t[a] == s[a]);
            }
        }
        if has_key(s, key, k) {
            let a = choose|a: int| 0 <= a < s.len() && key(#[trigger] s[a]) == k;
            assert(t[a] == s[a]);
        }
        if k == key(x) {
            assert(t[s.len() as int] == x);
        }
    }
    assert forall|k: K| #[trigger] m.contains_key(k) implies key_map(t, key)[k] == m[k] by {
        if k == key(x) {
            lemma_key_map_at(t, key, s.len() as int);
        } else {
            let a = choose|a: int| 0 <= a < s.len() && key(#[trigger] s[a]) == k;
            lemma_key_map_at(s, key, a);
            assert(t[a] == s[a]);
            lemma_key_map_at(t, key, a);
        }
    }
    assert(key_map(t, key) =~= m);
}

/// Replacing the item at `i` by one of the same key.
pub proof fn lemma_update<T, K>(s: Seq<T>, key: spec_fn(T) -> K, i: int, x: T)
    requires
        distinct(s, key),
        0 <= i < s.len(),
        key(x) == key(s[i]),
    ensures
        distinct(s.update(i, x), key),
        key_map(s.update(i, x), key) == key_map(s, key).insert(key(x), x),
{
    let t = s.update(i, x);
    assert forall|a: int, b: int| 0 <= a < t.len() && 0 <= b < t.len() && a != b implies key(#[trigger] t[a]) != key(#[trigger] t[b]) by {
        assert(key(t[a]) == key(s[a]) && key(t[b]) == key(s[b]));
    }
    let m = key_map(s, key).insert(key(x), x);
    assert forall|k: K| #[trigger] key_map(t, key).contains_key(k) == m.contains_key(k) by {
        if has_key(t, key, k) {
            let a = choose|a: int| 0 <= a < t.len() && key(#[trigger] t[a]) == k;
            assert(key(s[a]) == k);
        }
        if has_key(s, key, k) {
            let a = choose|a: int| 0 <= a < s.len() && key(#[trigger] s[a]) == k;
            assert(key(t[a]) == k);
        }
        if k == key(x) {
            assert(key(t[i]) == k);
        }
    }
    assert forall|k: K| #[trigger] m.contains_key(k) implies key_map(t, key)[k] == m[k] by {
        if k == key(x) {
            lemma_key_map_at(t, key, i);
        } else {
            let a = choose|a: int| 0 <= a < s.len() && key(#[trigger] s[a]) == k;
            lemma_key_map_at(s, key, a);
            lemma_key_map_at(t, key, a);
        }
    }
    assert(key_map(t, key) =~= m);
}

/// Removing the item at `i`.
pub proof fn lemma_remove<T, K>(s: Seq<T>, key: spec_fn(T) -> K, i: int)
    requires
        distinct(s, key),
        0 <= i < s.len(),
    ensures
        distinct(s.remove(i), key),
        key_map(s.remove(i), key) == key_map(s, key).remove(key(s[i])),
{
    let t = s.remove(i);
    assert forall|a: int, b: int| 0 <= a < t.len() && 0 <= b < t.len() && a != b implies key(#[trigger] t[a]) != key(#[trigger] t[b]) by {
        let a2 = if a < i { a } else { a + 1 };
        let b2 = if b < i { b } else { b + 1 };
        assert(t[a] == s[a2] && t[b] == s[b2]);
    }
    let m = key_map(s, key).remove(key(s[i]));
    assert forall|k: K| #[trigger] key_map(t, key).contains_key(k) == m.contains_key(k) by {
        if has_key(t, key, k) {
            let a = choose|a: int| 0 <= a < t.len() && key(#[trigger] t[a]) == k;
            let a2 = if a < i { a } else { a + 1 };
            assert(t[a] == s[a2]);
            assert(key(s[a2]) != key(s[i]));
        }
        if m.contains_key(k) {
            let a = choose|a: int| 0 <= a < s.len() && key(#[trigger] s[a]) == k;
            assert(a != i);
            if a < i {
                assert(t[a] == s[a]);
            } else {
                assert(t[a - 1] == s[a]);
            }
        }
    }
    assert forall|k: K| #[trigger] m.contains_key(k) implies key_map(t, key)[k] == m[k] by {
        let a = choose|a: int| 0 <= a < s.len() && key(#[trigger] s[a]) == k;
        lemma_key_map_at(s, key, a);
        if a < i {
            assert(t[a] == s[a]);
            lemma_key_map_at(t, key, a);
        } else {
            assert(t[a - 1] == s[a]);
            lemma_key_map_at(t, key, a - 1);
        }
    }
    assert(key_map(t, key) =~= m);
}

/// As many keys as items.
pub proof fn lemma_key_map_len<T, K>(s: Seq<T>, key: spec_fn(T) -> K)
    requires
        distinct(s, key),
    ensures
        key_map(s, key).dom().finite(),
        key_map(s, key).dom().len() == s.len(),
    decreases s.len(),
{
    if s.len() == 0 {
        assert(key_map(s, key).dom() =~= Set::<K>::empty());
    } else {
        let t = s.drop_last();
        let x = s.last();
        assert(t.push(x) =~= s);
        assert forall|a: int, b: int| 0 <= a < t.len() && 0 <= b < t.len() && a != b implies key(#[trigger] t[a]) != key(#[trigger] t[b]) by {
            assert(t[a] == s[a] && t[b] == s[b]);
        }
        if has_key(t, key, key(x)) {
            let a = choose|a: int| 0 <= a < t.len() && key(#[trigger] t[a]) == key(x);
            assert(t[a] == s[a]);
            assert(key(s[a]) != key(s[s.len() - 1]));
        }
        lemma_key_map_len(t, key);
        lemma_push(t, key, x);
    }
}

} // verus!
