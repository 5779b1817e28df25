//! Character-level text operations with exact specifications.
//!
//! Strings are handled as sequences of `char`s. Searching, splitting and
//! replacing are specified by recursive spec functions that follow the
//! corresponding `str` methods of the standard library.

use vstd::prelude::*;

verus! {

/// The characters of `s`, in order.
pub fn chars_of(s: &str) -> (res: Vec<char>)
    ensures
        res@ == s@,
{
    let mut res: Vec<char> = Vec::new();
    for c in it: s.chars()
        invariant
            res@ == it.seq().take(it.index() as int),
            it.seq() == s@,
    {
        res.push(c);
    }
    res
}

/// `String::from_iter` over a slice of characters: the string that holds
/// exactly these characters, in order.
#[verifier::external_body]
pub(crate) fn string_from_chars(chars: &[char]) -> (res: String)
    ensures
        res@ == chars@,
{
    chars.iter().collect()
}

/// A copy of `s` as an owned string.
pub fn owned(s: &str) -> (res: String)
    ensures
        res@ == s@,
{
    let v = chars_of(s);
    string_from_chars(v.as_slice())
}

/// Appends all characters of `b` to `a`.
pub fn extend_chars(a: &mut Vec<char>, b: &[char])
    ensures
        final(a)@ == old(a)@ + b@,
{
    let n = b.len();
    for i in 0..n
        invariant
            n == b@.len(),
            a@ == old(a)@ + b@.take(i as int),
    {
        assert(b@.take(i + 1) == b@.take(i as int).push(b@[i as int]));
        a.push(b[i]);
    }
    assert(b@.take(n as int) == b@);
}

/// The characters of `v` from index `from` up to (not including) `to`.
pub fn slice_chars(v: &Vec<char>, from: usize, to: usize) -> (res: Vec<char>)
    requires
        from <= to <= v@.len(),
    ensures
        res@ == v@.subrange(from as int, to as int),
{
    let mut out: Vec<char> = Vec::new();
    for i in from..to
        invariant
            from <= to <= v@.len(),
            out@ == v@.subrange(from as int, i as int),
    {
        out.push(v[i]);
        assert(out@ == v@.subrange(from as int, i + 1));
    }
    out
}

/// `n` occurs in `h` starting at index `i`.
pub open spec fn occurs_at(h: Seq<char>, n: Seq<char>, i: int) -> bool {
    0 <= i && i + n.len() <= h.len() && h.subrange(i, i + n.len()) == n
}

/// The first index at or after `from` where `n` occurs in `h`, as
/// `str::find` reports it on `h[from..]` (shifted by `from`).
pub open spec fn find_spec(h: Seq<char>, n: Seq<char>, from: int) -> Option<int>
    decreases h.len() + 1 - from,
{
    if from < 0 || from + n.len() > h.len() {
        None
    } else if occurs_at(h, n, from) {
        Some(from)
    } else {
        find_spec(h, n, from + 1)
    }
}

/// `n` occurs somewhere in `h`.
pub open spec fn contains_spec(h: Seq<char>, n: Seq<char>) -> bool {
    exists|i: int| occurs_at(h, n, i)
}

/// What `find_spec` returns is an occurrence, and no occurrence lies between
/// `from` and it; when it returns `None` there is no occurrence from `from` on.
pub proof fn lemma_find_spec(h: Seq<char>, n: Seq<char>, from: int)
    requires
        0 <= from,
    ensures
        match find_spec(h, n, from) {
            Some(i) => from <= i && occurs_at(h, n, i) && forall|j: int|
                from <= j < i ==> !occurs_at(h, n, j),
            None => forall|j: int| from <= j ==> !occurs_at(h, n, j),
        },
    decreases h.len() + 1 - from,
{
    if from + n.len() > h.len() {
    } else if occurs_at(h, n, from) {
    } else {
        lemma_find_spec(h, n, from + 1);
    }
}

/// An occurrence with none before it, from `from` on, is what `find_spec`
/// reports.
pub proof fn lemma_find_spec_at(h: Seq<char>, n: Seq<char>, from: int, p: int)
    requires
        0 <= from <= p,
        occurs_at(h, n, p),
        forall|j: int| from <= j < p ==> !occurs_at(h, n, j),
    ensures
        find_spec(h, n, from) == Some(p),
    decreases p - from,
{
    if from < p {
        lemma_find_spec_at(h, n, from + 1, p);
    }
}

/// Whether `n` occurs in `h` at index `i` (which must leave room for it).
fn matches_at(h: &Vec<char>, n: &Vec<char>, i: usize) -> (res: bool)
    requires
        i + n@.len() <= h@.len(),
    ensures
        res == occurs_at(h@, n@, i as int),
{
    let m = n.len();
    let hl = h.len();
    let mut k: usize = 0;
    while k < m
        invariant
            m == n@.len(),
            hl == h@.len(),
            i + m <= hl,
            k <= m,
            forall|t: int| 0 <= t < k ==> h@[i + t] == n@[t],
        decreases m - k,
    {
        if h[i + k] != n[k] {
            assert(h@.subrange(i as int, i + m)[k as int] != n@[k as int]);
            return false;
        }
        k = k + 1;
    }
    assert(h@.subrange(i as int, i + m) =~= n@);
    true
}

/// The first occurrence of `n` in `h` at or after `from` (`str::find` on the
/// suffix `h[from..]`, reported as an absolute index).
pub fn find_from(h: &Vec<char>, n: &Vec<char>, from: usize) -> (res: Option<usize>)
    ensures
        res matches Some(i) ==> find_spec(h@, n@, from as int) == Some(i as int),
        res is None ==> find_spec(h@, n@, from as int) is None,
{
    if from > h.len() || n.len() > h.len() - from {
        return None;
    }
    let last = h.len() - n.len();
    let mut i = from;
    loop
        invariant
            from <= i <= last,
            last + n@.len() == h@.len(),
            find_spec(h@, n@, from as int) == find_spec(h@, n@, i as int),
        decreases last - i,
    {
        if matches_at(h, n, i) {
            return Some(i);
        }
        if i == last {
            assert(find_spec(h@, n@, i + 1) is None);
            return None;
        }
        i = i + 1;
    }
}

/// `str::contains`: whether `n` occurs in `h`.
pub fn contains(h: &str, n: &str) -> (res: bool)
    ensures
        res == contains_spec(h@, n@),
{
    let hv = chars_of(h);
    let nv = chars_of(n);
    let r = find_from(&hv, &nv, 0);
    proof {
        lemma_find_spec(h@, n@, 0);
    }
    match r {
        Some(i) => true,
        None => {
            assert forall|j: int| !occurs_at(h@, n@, j) by {
                if j >= 0 {
                }
            }
            false
        },
    }
}

/// `==` on string slices: the same characters in the same order.
pub fn str_eq(a: &str, b: &str) -> (res: bool)
    ensures
        res == (a@ == b@),
{
    let av = chars_of(a);
    let bv = chars_of(b);
    if av.len() != bv.len() {
        return false;
    }
    let r = matches_at(&av, &bv, 0);
    assert(av@.subrange(0, bv@.len() as int) == av@);
    r
}

/// Equality of two character vectors.
pub fn str_eq_chars(a: &Vec<char>, b: &Vec<char>) -> (res: bool)
    ensures
        res == (a@ == b@),
{
    if a.len() != b.len() {
        return false;
    }
    let r = matches_at(a, b, 0);
    assert(a@.subrange(0, b@.len() as int) == a@);
    r
}

/// `str::starts_with` for a string prefix.
pub fn starts_with(s: &str, p: &str) -> (res: bool)
    ensures
        res == p@.is_prefix_of(s@),
{
    let sv = chars_of(s);
    let pv = chars_of(p);
    if pv.len() > sv.len() {
        return false;
    }
    let r = matches_at(&sv, &pv, 0);
    assert(r == (sv@.subrange(0, pv@.len() as int) == pv@));
    r
}

/// `s` with every non-overlapping occurrence of the non-empty pattern `p`,
/// scanned from the left, replaced by `t` (as `str::replace` does).
pub open spec fn replace_spec(s: Seq<char>, p: Seq<char>, t: Seq<char>) -> Seq<char>
    decreases s.len(),
{
    if s.len() == 0 || p.len() == 0 || s.len() < p.len() {
        s
    } else if s.take(p.len() as int) == p {
        t + replace_spec(s.skip(p.len() as int), p, t)
    } else {
        seq![s[0]] + replace_spec(s.skip(1), p, t)
    }
}

/// Replacing a pattern that does not occur in `s` changes nothing.
pub proof fn lemma_replace_no_occurrence(s: Seq<char>, p: Seq<char>, t: Seq<char>)
    requires
        p.len() > 0,
        forall|i: int| !occurs_at(s, p, i),
    ensures
        replace_spec(s, p, t) == s,
    decreases s.len(),
{
    if s.len() == 0 || s.len() < p.len() {
    } else {
        assert(!occurs_at(s, p, 0));
        assert(s.take(p.len() as int) != p) by {
            assert(s.subrange(0, p.len() as int) =~= s.take(p.len() as int));
        }
        let rest = s.skip(1);
        assert forall|i: int| !occurs_at(rest, p, i) by {
            if occurs_at(rest, p, i) {
                assert(s.subrange(i + 1, i + 1 + p.len()) =~= rest.subrange(i, i + p.len()));
                assert(occurs_at(s, p, i + 1));
            }
        }
        lemma_replace_no_occurrence(rest, p, t);
        assert(seq![s[0]] + rest =~= s);
    }
}

/// `str::replace` with a non-empty pattern.
pub fn replace_all(s: &Vec<char>, p: &Vec<char>, t: &Vec<char>) -> (res: Vec<char>)
    requires
        p@.len() > 0,
    ensures
        res@ == replace_spec(s@, p@, t@),
{
    let mut out: Vec<char> = Vec::new();
    let n = s.len();
    let m = p.len();
    let mut i: usize = 0;
    assert(s@.skip(0) == s@);
    while i < n
        invariant
            n == s@.len(),
            m == p@.len(),
            m > 0,
            i <= n,
            out@ + replace_spec(s@.skip(i as int), p@, t@) == replace_spec(s@, p@, t@),
        decreases n - i,
    {
        let ghost rest = s@.skip(i as int);
        if m <= n - i && matches_at(s, p, i) {
            assert(rest.take(m as int) == s@.subrange(i as int, i + m));
            assert(rest.skip(m as int) == s@.skip(i + m));
            extend_chars(&mut out, t.as_slice());
            assert(out@ + replace_spec(s@.skip(i + m), p@, t@) == replace_spec(s@, p@, t@));
            i = i + m;
        } else {
            if m <= n - i {
                assert(rest.take(m as int) == s@.subrange(i as int, i + m));
            }
            assert(rest.skip(1) == s@.skip(i + 1));
            assert(rest[0] == s@[i as int]);
            out.push(s[i]);
            assert(out@ + replace_spec(s@.skip(i + 1), p@, t@) == replace_spec(s@, p@, t@));
            i = i + 1;
        }
    }
    assert(s@.skip(n as int).len() == 0);
    assert(out@ + s@.skip(n as int) == out@);
    out
}

/// The pieces of `s` between occurrences of `sep` (as `str::split` with a
/// `char` pattern): there is always at least one piece.
pub open spec fn split_spec(s: Seq<char>, sep: char) -> Seq<Seq<char>>
    decreases s.len(),
{
    if s.len() == 0 {
        seq![Seq::<char>::empty()]
    } else {
        let rest = split_spec(s.drop_last(), sep);
        if s.last() == sep {
            rest.push(Seq::<char>::empty())
        } else {
            rest.update(rest.len() - 1, rest.last().push(s.last()))
        }
    }
}

/// `split_spec` is never empty.
pub proof fn lemma_split_nonempty(s: Seq<char>, sep: char)
    ensures
        split_spec(s, sep).len() >= 1,
    decreases s.len(),
{
    if s.len() > 0 {
        lemma_split_nonempty(s.drop_last(), sep);
    }
}

/// The deep view of a vector of character vectors.
pub open spec fn pieces_view(v: Seq<Vec<char>>) -> Seq<Seq<char>> {
    v.map_values(|x: Vec<char>| x@)
}

/// `str::split` with a `char` separator.
pub fn split_char(s: &Vec<char>, sep: char) -> (res: Vec<Vec<char>>)
    ensures
        pieces_view(res@) == split_spec(s@, sep),
{
    let mut done: Vec<Vec<char>> = Vec::new();
    let mut cur: Vec<char> = Vec::new();
    let n = s.len();
    assert(s@.take(0) == Seq::<char>::empty());
    assert(pieces_view(done@).push(cur@) == split_spec(s@.take(0), sep));
    for i in 0..n
        invariant
            n == s@.len(),
            pieces_view(done@).push(cur@) == split_spec(s@.take(i as int), sep),
    {
        let c = s[i];
        let ghost prev = s@.take(i as int);
        assert(s@.take(i + 1).drop_last() == prev);
        assert(s@.take(i + 1).last() == c);
        if c == sep {
            let old_cur = cur;
            done.push(old_cur);
            cur = Vec::new();
            assert(pieces_view(done@) == pieces_view(done@.drop_last()).push(old_cur@));
            assert(pieces_view(done@).push(cur@) == split_spec(s@.take(i + 1), sep));
        } else {
            cur.push(c);
            assert(pieces_view(done@).push(cur@) =~= split_spec(s@.take(i + 1), sep));
        }
    }
    assert(s@.take(n as int) == s@);
    done.push(cur);
    assert(pieces_view(done@) =~= split_spec(s@, sep));
    done
}

/// `l` with one trailing carriage return removed, if it has one.
pub open spec fn strip_cr(l: Seq<char>) -> Seq<char> {
    if l.len() > 0 && l.last() == '\r' {
        l.drop_last()
    } else {
        l
    }
}

/// The lines of `s` as `str::lines` yields them: split at `\n`, a `\r`
/// right before a `\n` removed, and no empty last line after a final `\n`.
pub open spec fn lines_spec(s: Seq<char>) -> Seq<Seq<char>> {
    let parts = split_spec(s, '\n');
    let terminated = parts.drop_last().map_values(|l: Seq<char>| strip_cr(l));
    if parts.last().len() == 0 {
        terminated
    } else {
        terminated.push(parts.last())
    }
}

/// `str::lines`.
pub fn lines(s: &Vec<char>) -> (res: Vec<Vec<char>>)
    ensures
        pieces_view(res@) == lines_spec(s@),
{
    let parts = split_char(s, '\n');
    proof {
        lemma_split_nonempty(s@, '\n');
    }
    let k = parts.len();
    let mut out: Vec<Vec<char>> = Vec::new();
    let ghost pv = split_spec(s@, '\n');
    for i in 0..k - 1
        invariant
            k == parts@.len(),
            k >= 1,
            pieces_view(parts@) == pv,
            pv == split_spec(s@, '\n'),
            pieces_view(out@) == pv.drop_last().take(i as int).map_values(
                |l: Seq<char>| strip_cr(l),
            ),
    {
        let p = &parts[i];
        assert(p@ == pv[i as int]);
        let m = p.len();
        let mut line: Vec<char> = Vec::new();
        let stop = if m > 0 && p[m - 1] == '\r' { m - 1 } else { m };
        for j in 0..stop
            invariant
                stop <= m,
                m == p@.len(),
                line@ == p@.take(j as int),
        {
            line.push(p[j]);
        }
        assert(line@ == strip_cr(p@));
        let ghost before = pieces_view(out@);
        out.push(line);
        assert(pieces_view(out@) =~= before.push(strip_cr(pv[i as int])));
        assert(pv.drop_last().take(i + 1) =~= pv.drop_last().take(i as int).push(pv[i as int]));
        assert(pieces_view(out@) =~= pv.drop_last().take(i + 1).map_values(
            |l: Seq<char>| strip_cr(l),
        ));
    }
    assert(pv.drop_last().take(k - 1) == pv.drop_last());
    let last = &parts[k - 1];
    assert(last@ == pv.last());
    if last.len() > 0 {
        out.push(last.clone());
        assert(pieces_view(out@) =~= lines_spec(s@));
    } else {
        assert(pieces_view(out@) =~= lines_spec(s@));
    }
    out
}

/// The pieces joined with `sep` between consecutive pieces.
pub open spec fn join_spec(parts: Seq<Seq<char>>, sep: Seq<char>) -> Seq<char>
    decreases parts.len(),
{
    if parts.len() == 0 {
        Seq::empty()
    } else if parts.len() == 1 {
        parts[0]
    } else {
        join_spec(parts.drop_last(), sep) + sep + parts.last()
    }
}

/// `[String]::join`.
pub fn join(parts: &Vec<Vec<char>>, sep: &Vec<char>) -> (res: Vec<char>)
    ensures
        res@ == join_spec(pieces_view(parts@), sep@),
{
    let mut out: Vec<char> = Vec::new();
    let k = parts.len();
    for i in 0..k
        invariant
            k == parts@.len(),
            out@ == join_spec(pieces_view(parts@).take(i as int), sep@),
    {
        let ghost pre = pieces_view(parts@).take(i as int);
        assert(pieces_view(parts@).take(i + 1).drop_last() == pre);
        assert(pieces_view(parts@).take(i + 1).last() == parts@[i as int]@);
        if i > 0 {
            extend_chars(&mut out, sep.as_slice());
        }
        extend_chars(&mut out, parts[i].as_slice());
        assert(out@ == join_spec(pieces_view(parts@).take(i + 1), sep@));
    }
    assert(pieces_view(parts@).take(k as int) == pieces_view(parts@));
    out
}

} // verus!
