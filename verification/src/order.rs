//! The order of strings (`Ord` on `str`: lexicographic on characters, which
//! is also the order of their UTF-8 bytes) and sorted, duplicate-free lists.

use vstd::prelude::*;

verus! {

/// `a` comes strictly before `b` lexicographically.
pub open spec fn str_lt(a: Seq<char>, b: Seq<char>) -> bool
    decreases a.len(),
{
    if b.len() == 0 {
        false
    } else if a.len() == 0 {
        true
    } else if a[0] != b[0] {
        a[0] < b[0]
    } else {
        str_lt(a.drop_first(), b.drop_first())
    }
}

/// The order is irreflexive.
pub proof fn lemma_lt_irreflexive(a: Seq<char>)
    ensures
        !str_lt(a, a),
    decreases a.len(),
{
    if a.len() > 0 {
        lemma_lt_irreflexive(a.drop_first());
    }
}

/// The order is transitive.
pub proof fn lemma_lt_transitive(a: Seq<char>, b: Seq<char>, c: Seq<char>)
    requires
        str_lt(a, b),
        str_lt(b, c),
    ensures
        str_lt(a, c),
    decreases a.len(),
{
    if a.len() > 0 && b.len() > 0 && c.len() > 0 {
        if a[0] == b[0] && b[0] == c[0] {
            lemma_lt_transitive(a.drop_first(), b.drop_first(), c.drop_first());
        }
    }
}

/// Two different strings are ordered one way or the other, never both.
pub proof fn lemma_lt_total(a: Seq<char>, b: Seq<char>)
    ensures
        a != b ==> (str_lt(a, b) || str_lt(b, a)),
        !(str_lt(a, b) && str_lt(b, a)),
    decreases a.len(),
{
    if a.len() > 0 && b.len() > 0 {
        lemma_lt_total(a.drop_first(), b.drop_first());
        if a[0] == b[0] && a != b {
            assert(a == seq![a[0]] + a.drop_first());
            assert(b == seq![b[0]] + b.drop_first());
        }
    } else if a.len() == 0 && b.len() == 0 {
        assert(a =~= b);
    }
}

/// Whether `a` comes strictly before `b`.
pub fn less_than(a: &Vec<char>, b: &Vec<char>) -> (res: bool)
    ensures
        res == str_lt(a@, b@),
{
    let n = a.len();
    let m = b.len();
    let mut i: usize = 0;
    assert(a@.skip(0) == a@);
    assert(b@.skip(0) == b@);
    while i < n && i < m
        invariant
            n == a@.len(),
            m == b@.len(),
            i <= n,
            i <= m,
            str_lt(a@, b@) == str_lt(a@.skip(i as int), b@.skip(i as int)),
        decreases n - i,
    {
        let ghost sa = a@.skip(i as int);
        let ghost sb = b@.skip(i as int);
        assert(sa[0] == a@[i as int]);
        assert(sb[0] == b@[i as int]);
        if a[i] != b[i] {
            return a[i] < b[i];
        }
        assert(sa.drop_first() == a@.skip(i + 1));
        assert(sb.drop_first() == b@.skip(i + 1));
        i = i + 1;
    }
    let ghost sa = a@.skip(i as int);
    let ghost sb = b@.skip(i as int);
    if i < m {
        assert(sa.len() == 0 && sb.len() > 0);
        true
    } else {
        assert(sb.len() == 0);
        false
    }
}

/// Strictly increasing.
pub open spec fn strictly_sorted(s: Seq<Seq<char>>) -> bool {
    forall|i: int, j: int| 0 <= i < j < s.len() ==> str_lt(s[i], s[j])
}

/// Inserts `x` into a strictly increasing list unless it is already there.
pub fn insert_sorted_unique(v: &mut Vec<Vec<char>>, x: Vec<char>)
    requires
        strictly_sorted(crate::text::pieces_view(old(v)@)),
    ensures
        strictly_sorted(crate::text::pieces_view(final(v)@)),
        forall|y: Seq<char>|
            crate::text::pieces_view(final(v)@).contains(y) <==> (crate::text::pieces_view(
                old(v)@,
            ).contains(y) || y == x@),
{
    let ghost before = crate::text::pieces_view(v@);
    let n = v.len();
    let mut i: usize = 0;
    loop
        invariant_except_break
            n == v@.len(),
            before == crate::text::pieces_view(v@),
            strictly_sorted(before),
            i <= n,
            forall|j: int| 0 <= j < i ==> str_lt(before[j], x@),
        ensures
            n == v@.len(),
            before == crate::text::pieces_view(v@),
            strictly_sorted(before),
            i <= n,
            forall|j: int| 0 <= j < i ==> str_lt(before[j], x@),
            i < n ==> str_lt(x@, before[i as int]),
        decreases n - i,
    {
        if i >= n {
            break;
        }
        assert(before[i as int] == v@[i as int]@);
        if crate::text::str_eq_chars(&v[i], &x) {
            assert(before.contains(x@));
            return;
        }
        if less_than(&x, &v[i]) {
            break;
        }
        proof {
            lemma_lt_total(before[i as int], x@);
        }
        i = i + 1;
    }
    // every element from i on comes after x
    proof {
        assert forall|j: int| i <= j < n implies str_lt(x@, before[j]) by {
            if j > i {
                lemma_lt_transitive(x@, before[i as int], before[j]);
            }
        }
    }
    let ghost xv = x@;
    v.insert(i, x);
    let ghost after = crate::text::pieces_view(v@);
    assert(after =~= before.insert(i as int, xv));
    assert forall|a: int, b: int| 0 <= a < b < after.len() implies str_lt(after[a], after[b]) by {
        if b < i {
        } else if b == i {
        } else if a < i {
            lemma_lt_transitive(after[a], xv, after[b]);
        } else if a == i {
        } else {
        }
    }
    assert forall|y: Seq<char>| after.contains(y) <==> (before.contains(y) || y == xv) by {
        if after.contains(y) {
            let k = choose|k: int| 0 <= k < after.len() && after[k] == y;
            if k < i {
                assert(before[k] == y);
            } else if k > i {
                assert(before[k - 1] == y);
            }
        }
        if before.contains(y) {
            let k = choose|k: int| 0 <= k < before.len() && before[k] == y;
            if k < i {
                assert(after[k] == y);
            } else {
                assert(after[k + 1] == y);
            }
        }
        if y == xv {
            assert(after[i as int] == y);
        }
    }
}

/// The distinct strings of `v`, in increasing order (`sort` then `dedup`).
pub fn sorted_unique(v: &Vec<Vec<char>>) -> (res: Vec<Vec<char>>)
    ensures
        strictly_sorted(crate::text::pieces_view(res@)),
        forall|y: Seq<char>|
            crate::text::pieces_view(res@).contains(y) <==> crate::text::pieces_view(v@).contains(y),
{
    let mut out: Vec<Vec<char>> = Vec::new();
    let n = v.len();
    for i in 0..n
        invariant
            n == v@.len(),
            strictly_sorted(crate::text::pieces_view(out@)),
            forall|y: Seq<char>|
                crate::text::pieces_view(out@).contains(y) <==> crate::text::pieces_view(
                    v@,
                ).take(i as int).contains(y),
    {
        let ghost pv = crate::text::pieces_view(v@);
        let ghost t0 = pv.take(i as int);
        let ghost t1 = pv.take(i + 1);
        assert(t1 =~= t0.push(v@[i as int]@));
        insert_sorted_unique(&mut out, v[i].clone());
        assert forall|y: Seq<char>| t1.contains(y) <==> (t0.contains(y) || y == v@[i as int]@) by {
            if t1.contains(y) {
                let k = choose|k: int| 0 <= k < t1.len() && t1[k] == y;
                if k < i {
                    assert(t0[k] == y);
                }
            }
            if t0.contains(y) {
                let k = choose|k: int| 0 <= k < t0.len() && t0[k] == y;
                assert(t1[k] == y);
            }
            if y == v@[i as int]@ {
                assert(t1[i as int] == y);
            }
        }
    }
    assert(crate::text::pieces_view(v@).take(n as int) == crate::text::pieces_view(v@));
    out
}

} // verus!
