//! Lookup by key in sequences of records: the first record whose key is the
//! one sought, as `Iterator::find` and `Iterator::position` report it.

use vstd::prelude::*;

verus! {

/// The index of the first element of `s` whose key is `k`.
pub open spec fn first_index<T>(s: Seq<T>, key: spec_fn(T) -> Seq<char>, k: Seq<char>) -> Option<int>
    decreases s.len(),
{
    if s.len() == 0 {
        None
    } else {
        match first_index(s.drop_last(), key, k) {
            Some(i) => Some(i),
            None => if key(s.last()) == k {
                Some(s.len() - 1)
            } else {
                None
            },
        }
    }
}

/// Some element of `s` has key `k`.
pub open spec fn has_key<T>(s: Seq<T>, key: spec_fn(T) -> Seq<char>, k: Seq<char>) -> bool {
    exists|i: int| 0 <= i < s.len() && key(s[i]) == k
}

/// No two elements of `s` share a key.
pub open spec fn unique_keys<T>(s: Seq<T>, key: spec_fn(T) -> Seq<char>) -> bool {
    forall|i: int, j: int| 0 <= i < s.len() && 0 <= j < s.len() && i != j ==> key(s[i]) != key(s[j])
}

/// What `first_index` returns is the first element with that key; `None`
/// means that no element has it.
pub proof fn lemma_first_index<T>(s: Seq<T>, key: spec_fn(T) -> Seq<char>, k: Seq<char>)
    ensures
        match first_index(s, key, k) {
            Some(i) => 0 <= i < s.len() && key(s[i]) == k && forall|j: int|
                0 <= j < i ==> key(s[j]) != k,
            None => forall|j: int| 0 <= j < s.len() ==> key(s[j]) != k,
        },
        first_index(s, key, k) is Some <==> has_key(s, key, k),
    decreases s.len(),
{
    if s.len() > 0 {
        lemma_first_index(s.drop_last(), key, k);
        match first_index(s.drop_last(), key, k) {
            Some(i) => {
                assert(s[i] == s.drop_last()[i]);
                assert forall|j: int| 0 <= j < i implies key(s[j]) != k by {
                    assert(s[j] == s.drop_last()[j]);
                }
            },
            None => {
                assert forall|j: int| 0 <= j < s.len() - 1 implies key(s[j]) != k by {
                    assert(s[j] == s.drop_last()[j]);
                }
            },
        }
    }
}

/// The first index in `s.take(i + 1)` follows from the one in `s.take(i)`.
pub proof fn lemma_first_index_step<T>(s: Seq<T>, key: spec_fn(T) -> Seq<char>, k: Seq<char>, i: int)
    requires
        0 <= i < s.len(),
    ensures
        first_index(s.take(i + 1), key, k) == match first_index(s.take(i), key, k) {
            Some(j) => Some(j),
            None => if key(s[i]) == k {
                Some(i)
            } else {
                None
            },
        },
{
    assert(s.take(i + 1).drop_last() == s.take(i));
}

/// `s` without the elements whose key is `k` (as `Vec::retain` keeps them).
pub open spec fn without_key<T>(s: Seq<T>, key: spec_fn(T) -> Seq<char>, k: Seq<char>) -> Seq<T>
    decreases s.len(),
{
    if s.len() == 0 {
        s
    } else {
        let r = without_key(s.drop_last(), key, k);
        if key(s.last()) == k {
            r
        } else {
            r.push(s.last())
        }
    }
}

/// No element left by `without_key` has the removed key, and every element
/// it keeps comes from `s`.
pub proof fn lemma_without_key_excludes<T>(s: Seq<T>, key: spec_fn(T) -> Seq<char>, k: Seq<char>)
    ensures
        forall|i: int| 0 <= i < without_key(s, key, k).len() ==> key(#[trigger] without_key(s, key, k)[i]) != k,
        !has_key(without_key(s, key, k), key, k),
        without_key(s, key, k).len() <= s.len(),
    decreases s.len(),
{
    if s.len() > 0 {
        lemma_without_key_excludes(s.drop_last(), key, k);
        let r = without_key(s.drop_last(), key, k);
        if key(s.last()) != k {
            assert forall|i: int| 0 <= i < r.push(s.last()).len() implies key(
                #[trigger] r.push(s.last())[i],
            ) != k by {
                if i < r.len() {
                    assert(r.push(s.last())[i] == r[i]);
                }
            }
        }
    }
}

/// Dropping a key that no element has changes nothing.
pub proof fn lemma_without_key_absent<T>(s: Seq<T>, key: spec_fn(T) -> Seq<char>, k: Seq<char>)
    requires
        !has_key(s, key, k),
    ensures
        without_key(s, key, k) == s,
    decreases s.len(),
{
    if s.len() > 0 {
        let p = s.drop_last();
        assert(!has_key(p, key, k)) by {
            if has_key(p, key, k) {
                let i = choose|i: int| 0 <= i < p.len() && key(p[i]) == k;
                assert(s[i] == p[i]);
            }
        }
        lemma_without_key_absent(p, key, k);
        assert(key(s[s.len() - 1]) != k);
        assert(p.push(s.last()) =~= s);
    }
}

/// Removing key `k` does not change what a lookup of another key finds.
pub proof fn lemma_without_key_lookup<T>(
    s: Seq<T>,
    key: spec_fn(T) -> Seq<char>,
    k: Seq<char>,
    j: Seq<char>,
)
    requires
        j != k,
    ensures
        match first_index(s, key, j) {
            Some(a) => first_index(without_key(s, key, k), key, j) matches Some(b) && without_key(
                s,
                key,
                k,
            )[b] == s[a],
            None => first_index(without_key(s, key, k), key, j) is None,
        },
    decreases s.len(),
{
    if s.len() > 0 {
        let p = s.drop_last();
        let x = s.last();
        let wp = without_key(p, key, k);
        lemma_without_key_lookup(p, key, k, j);
        lemma_first_index(p, key, j);
        lemma_first_index(wp, key, j);
        if key(x) != k {
            let w = wp.push(x);
            assert(w.drop_last() == wp);
            match first_index(wp, key, j) {
                Some(b) => {
                    assert(w[b] == wp[b]);
                },
                None => {},
            }
        }
        match first_index(p, key, j) {
            Some(a) => {
                assert(s[a] == p[a]);
            },
            None => {},
        }
    }
}

/// Removing a key keeps the keys unique.
pub proof fn lemma_without_key_unique<T>(s: Seq<T>, key: spec_fn(T) -> Seq<char>, k: Seq<char>)
    requires
        unique_keys(s, key),
    ensures
        unique_keys(without_key(s, key, k), key),
    decreases s.len(),
{
    if s.len() > 0 {
        let p = s.drop_last();
        assert(unique_keys(p, key)) by {
            assert forall|a: int, b: int|
                0 <= a < p.len() && 0 <= b < p.len() && a != b implies key(p[a]) != key(p[b]) by {
                assert(p[a] == s[a] && p[b] == s[b]);
            }
        }
        lemma_without_key_unique(p, key, k);
        let wp = without_key(p, key, k);
        if key(s.last()) != k {
            lemma_without_key_members(p, key, k);
            assert forall|a: int| 0 <= a < wp.len() implies key(wp[a]) != key(s.last()) by {
                let c = choose|c: int| 0 <= c < p.len() && p[c] == wp[a];
                assert(p[c] == s[c]);
            }
            let w = wp.push(s.last());
            assert forall|a: int, b: int|
                0 <= a < w.len() && 0 <= b < w.len() && a != b implies key(w[a]) != key(w[b]) by {
                if a < wp.len() && b < wp.len() {
                    assert(w[a] == wp[a] && w[b] == wp[b]);
                } else if a < wp.len() {
                    assert(w[a] == wp[a]);
                } else {
                    assert(w[b] == wp[b]);
                }
            }
        }
    }
}

/// Every element kept by `without_key` is an element of `s`.
pub proof fn lemma_without_key_members<T>(s: Seq<T>, key: spec_fn(T) -> Seq<char>, k: Seq<char>)
    ensures
        forall|a: int|
            0 <= a < without_key(s, key, k).len() ==> exists|c: int|
                0 <= c < s.len() && s[c] == #[trigger] without_key(s, key, k)[a],
    decreases s.len(),
{
    if s.len() > 0 {
        let p = s.drop_last();
        lemma_without_key_members(p, key, k);
        let wp = without_key(p, key, k);
        let w = without_key(s, key, k);
        assert forall|a: int| 0 <= a < w.len() implies exists|c: int|
            0 <= c < s.len() && s[c] == #[trigger] w[a] by {
            if a < wp.len() {
                assert(w[a] == wp[a]);
                let c = choose|c: int| 0 <= c < p.len() && p[c] == wp[a];
                assert(s[c] == p[c]);
            } else {
                assert(s[s.len() - 1] == w[a]);
            }
        }
    }
}

} // verus!
