//! Keyed row sequences.
//!
//! Every keyed collection in this crate (user rows, member rows, ignored
//! rooms, the read-message table, the token cache, the upstream room state)
//! is a vector of rows with pairwise-distinct keys, scanned front to back.
//! This module defines first-match lookup over the row sequence and proves
//! how lookup reacts to the row operations the collections use: push,
//! in-place update, and removal.

use vstd::prelude::*;

verus! {

/// Index of the first row at or after `i` whose key is `k`.
pub open spec fn find_key_from<T, K>(s: Seq<T>, kf: spec_fn(T) -> K, k: K, i: int) -> Option<int>
    decreases s.len() - i,
{
    if i < 0 || i >= s.len() {
        None
    } else if kf(s[i]) == k {
        Some(i)
    } else {
        find_key_from(s, kf, k, i + 1)
    }
}

/// Index of the first row whose key is `k`.
pub open spec fn find_key<T, K>(s: Seq<T>, kf: spec_fn(T) -> K, k: K) -> Option<int> {
    find_key_from(s, kf, k, 0)
}

/// The first row whose key is `k`.
pub open spec fn get_by_key<T, K>(s: Seq<T>, kf: spec_fn(T) -> K, k: K) -> Option<T> {
    match find_key(s, kf, k) {
        Some(i) => Some(s[i]),
        None => None,
    }
}

/// Some row carries key `k`.
pub open spec fn has_key<T, K>(s: Seq<T>, kf: spec_fn(T) -> K, k: K) -> bool {
    find_key(s, kf, k) is Some
}

/// Pairwise-distinct keys.
pub open spec fn keys_distinct<T, K>(s: Seq<T>, kf: spec_fn(T) -> K) -> bool {
    forall|i: int, j: int| 0 <= i < j < s.len() ==> kf(s[i]) != kf(s[j])
}

/// `find_key_from` returns the least hit at or after `i`, or `None` when
/// there is none.
pub proof fn lemma_find_key_from<T, K>(s: Seq<T>, kf: spec_fn(T) -> K, k: K, i: int)
    requires
        0 <= i <= s.len(),
    ensures
        match find_key_from(s, kf, k, i) {
            Some(j) => i <= j < s.len() && kf(s[j]) == k && forall|l: int|
                i <= l < j ==> kf(s[l]) != k,
            None => forall|l: int| i <= l < s.len() ==> kf(s[l]) != k,
        },
    decreases s.len() - i,
{
    if i < s.len() && kf(s[i]) != k {
        lemma_find_key_from(s, kf, k, i + 1);
    }
}

/// Convenience form of `lemma_find_key_from` at the start of the sequence.
pub proof fn lemma_find_key<T, K>(s: Seq<T>, kf: spec_fn(T) -> K, k: K)
    ensures
        match find_key(s, kf, k) {
            Some(j) => 0 <= j < s.len() && kf(s[j]) == k && forall|l: int|
                0 <= l < j ==> kf(s[l]) != k,
            None => forall|l: int| 0 <= l < s.len() ==> kf(s[l]) != k,
        },
{
    lemma_find_key_from(s, kf, k, 0);
}

/// Appending a row leaves earlier keys in place; a fresh key is found at the
/// end.
pub proof fn lemma_find_key_push<T, K>(s: Seq<T>, kf: spec_fn(T) -> K, k: K, t: T)
    ensures
        find_key(s.push(t), kf, k) == (match find_key(s, kf, k) {
            Some(i) => Some(i),
            None => if kf(t) == k {
                Some(s.len() as int)
            } else {
                None
            },
        }),
{
    lemma_find_key_from_push(s, kf, k, t, 0);
}

proof fn lemma_find_key_from_push<T, K>(s: Seq<T>, kf: spec_fn(T) -> K, k: K, t: T, i: int)
    requires
        0 <= i <= s.len(),
    ensures
        find_key_from(s.push(t), kf, k, i) == (match find_key_from(s, kf, k, i) {
            Some(j) => Some(j),
            None => if kf(t) == k {
                Some(s.len() as int)
            } else {
                None
            },
        }),
    decreases s.len() - i,
{
    if i < s.len() {
        assert(s.push(t)[i] == s[i]);
        if kf(s[i]) != k {
            lemma_find_key_from_push(s, kf, k, t, i + 1);
        }
    } else {
        assert(s.push(t)[i] == t);
        if kf(t) != k {
            assert(find_key_from(s.push(t), kf, k, i + 1) is None);
        }
    }
}

/// Replacing a row by one with the same key does not move any lookup.
pub proof fn lemma_find_key_update<T, K>(s: Seq<T>, kf: spec_fn(T) -> K, k: K, i0: int, t: T)
    requires
        0 <= i0 < s.len(),
        kf(t) == kf(s[i0]),
    ensures
        find_key(s.update(i0, t), kf, k) == find_key(s, kf, k),
{
    lemma_find_key_from_update(s, kf, k, i0, t, 0);
}

proof fn lemma_find_key_from_update<T, K>(
    s: Seq<T>,
    kf: spec_fn(T) -> K,
    k: K,
    i0: int,
    t: T,
    i: int,
)
    requires
        0 <= i0 < s.len(),
        kf(t) == kf(s[i0]),
        0 <= i <= s.len(),
    ensures
        find_key_from(s.update(i0, t), kf, k, i) == find_key_from(s, kf, k, i),
    decreases s.len() - i,
{
    if i < s.len() {
        if kf(s.update(i0, t)[i]) != k {
            lemma_find_key_from_update(s, kf, k, i0, t, i + 1);
        }
    }
}

/// With distinct keys, removing the row that carries `k` makes `k` absent and
/// leaves every other key's row unchanged.
pub proof fn lemma_get_by_key_remove<T, K>(s: Seq<T>, kf: spec_fn(T) -> K, i0: int, k: K)
    requires
        keys_distinct(s, kf),
        0 <= i0 < s.len(),
    ensures
        !has_key(s.remove(i0), kf, kf(s[i0])),
        k != kf(s[i0]) ==> get_by_key(s.remove(i0), kf, k) == get_by_key(s, kf, k),
        keys_distinct(s.remove(i0), kf),
{
    let s2 = s.remove(i0);
    assert(forall|j: int| 0 <= j < s2.len() ==> s2[j] == (if j < i0 {
        s[j]
    } else {
        s[j + 1]
    }));
    lemma_find_key(s2, kf, kf(s[i0]));
    lemma_find_key(s, kf, k);
    lemma_find_key(s2, kf, k);
    if has_key(s2, kf, kf(s[i0])) {
        let j = find_key(s2, kf, kf(s[i0])) -> 0;
        if j < i0 {
            assert(kf(s[j]) == kf(s[i0]));
        } else {
            assert(kf(s[j + 1]) == kf(s[i0]));
        }
    }
    if k != kf(s[i0]) {
        match find_key(s, kf, k) {
            Some(j) => {
                let j2: int = if j < i0 {
                    j
                } else {
                    j - 1
                };
                assert(j != i0);
                assert(s2[j2] == s[j]);
                match find_key(s2, kf, k) {
                    Some(l) => {
                        let lo: int = if l < i0 {
                            l
                        } else {
                            l + 1
                        };
                        assert(kf(s[lo]) == k);
                        assert(s2[l] == s[lo]);
                        assert(get_by_key(s2, kf, k) == get_by_key(s, kf, k));
                    },
                    None => {
                        assert(kf(s2[j2]) == k);
                        assert(false);
                    },
                }
            },
            None => {
                if has_key(s2, kf, k) {
                    let l = find_key(s2, kf, k) -> 0;
                    let lo: int = if l < i0 {
                        l
                    } else {
                        l + 1
                    };
                    assert(kf(s[lo]) == k);
                    assert(false);
                }
            },
        }
    }
}

/// Appending a row with a fresh key keeps the keys distinct.
pub proof fn lemma_push_distinct<T, K>(s: Seq<T>, kf: spec_fn(T) -> K, t: T)
    requires
        keys_distinct(s, kf),
        !has_key(s, kf, kf(t)),
    ensures
        keys_distinct(s.push(t), kf),
{
    lemma_find_key(s, kf, kf(t));
    assert(forall|i: int, j: int|
        0 <= i < j < s.push(t).len() ==> kf(s.push(t)[i]) != kf(s.push(t)[j]));
}

/// Replacing a row by one with the same key keeps the keys distinct.
pub proof fn lemma_update_distinct<T, K>(s: Seq<T>, kf: spec_fn(T) -> K, i0: int, t: T)
    requires
        keys_distinct(s, kf),
        0 <= i0 < s.len(),
        kf(t) == kf(s[i0]),
    ensures
        keys_distinct(s.update(i0, t), kf),
{
    assert(forall|i: int, j: int|
        0 <= i < j < s.len() ==> kf(s.update(i0, t)[i]) != kf(s.update(i0, t)[j]));
}

} // verus!
