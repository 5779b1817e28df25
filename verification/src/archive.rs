//! Where the entries of a downloaded repository tarball land: the archive's
//! root directory is dropped and, for a template in a subdirectory, only the
//! entries under it are kept, relative to it.

use vstd::prelude::*;

use crate::text::{chars_of, join, join_spec, pieces_view, split_char, split_spec, str_eq_chars, string_from_chars};

verus! {

/// The body components of the `/`-separated parts: empty parts and `.`
/// are skipped (as `Path::components` skips them after the start).
pub open spec fn body_components(parts: Seq<Seq<char>>) -> Seq<Seq<char>>
    decreases parts.len(),
{
    if parts.len() == 0 {
        Seq::empty()
    } else {
        let rest = body_components(parts.drop_last());
        let p = parts.last();
        if p.len() == 0 || p == seq!['.'] {
            rest
        } else {
            rest.push(p)
        }
    }
}

/// The components of a Unix path, each as its text (`Path::components`
/// with `as_os_str`): a leading `/` for the root, a leading `.` when the
/// path starts with a `.` part, then the non-empty parts other than `.`.
pub open spec fn components_spec(path: Seq<char>) -> Seq<Seq<char>> {
    let parts = split_spec(path, '/');
    let head = if path.len() > 0 && path[0] == '/' {
        seq![seq!['/']]
    } else if parts[0] == seq!['.'] {
        seq![seq!['.']]
    } else {
        Seq::empty()
    };
    head + body_components(parts)
}

/// The entry's path relative to the extraction root, if it is kept: the
/// first component is dropped, then the components of `subdir` (when given)
/// must come next and are dropped too; an empty remainder is not kept. The
/// result is the remaining components joined by `/` (the same `Path`,
/// component by component, as the one `Path::strip_prefix` gives).
pub open spec fn strip_spec(raw: Seq<char>, subdir: Option<Seq<char>>) -> Option<Seq<char>> {
    let c = components_spec(raw);
    let rest = if c.len() > 0 {
        c.skip(1)
    } else {
        c
    };
    let rel = match subdir {
        None => Some(rest),
        Some(d) => {
            let dc = components_spec(d);
            if dc.is_prefix_of(rest) {
                Some(rest.skip(dc.len() as int))
            } else {
                None
            }
        },
    };
    match rel {
        Some(r) => if r.len() > 0 {
            Some(join_spec(r, seq!['/']))
        } else {
            None
        },
        None => None,
    }
}

/// No piece of a split holds the separator.
proof fn lemma_split_pieces(s: Seq<char>, sep: char)
    ensures
        forall|i: int, j: int|
            0 <= i < split_spec(s, sep).len() && 0 <= j < split_spec(s, sep)[i].len() ==> split_spec(s, sep)[i][j]
                != sep,
    decreases s.len(),
{
    if s.len() > 0 {
        let init = s.drop_last();
        lemma_split_pieces(init, sep);
        crate::text::lemma_split_nonempty(init, sep);
        let rest = split_spec(init, sep);
        if s.last() == sep {
            let r = rest.push(Seq::<char>::empty());
            assert(split_spec(s, sep) == r);
            assert forall|i: int, j: int| 0 <= i < r.len() && 0 <= j < r[i].len() implies r[i][j] != sep by {
                if i < rest.len() {
                    assert(r[i] == rest[i]);
                }
            }
        } else {
            let last = rest.last().push(s.last());
            let r = rest.update(rest.len() - 1, last);
            assert(split_spec(s, sep) == r);
            assert forall|i: int, j: int| 0 <= i < r.len() && 0 <= j < r[i].len() implies r[i][j] != sep by {
                if i < rest.len() - 1 {
                    assert(r[i] == rest[i]);
                } else {
                    assert(r[i] == last);
                    if j < rest.last().len() {
                        assert(last[j] == rest[rest.len() - 1][j]);
                    }
                }
            }
        }
    }
}

/// Every body component is a non-empty part.
proof fn lemma_body_components(parts: Seq<Seq<char>>)
    ensures
        forall|i: int|
            #![trigger body_components(parts)[i]]
            0 <= i < body_components(parts).len() ==> body_components(parts)[i].len() > 0 && parts.contains(
                body_components(parts)[i],
            ),
    decreases parts.len(),
{
    if parts.len() > 0 {
        let init = parts.drop_last();
        lemma_body_components(init);
        let rest = body_components(init);
        assert forall|i: int| 0 <= i < rest.len() implies parts.contains(#[trigger] rest[i]) by {
            assert(init.contains(rest[i]));
            let k = choose|k: int| 0 <= k < init.len() && init[k] == rest[i];
            assert(parts[k] == init[k]);
        }
        let p = parts.last();
        if !(p.len() == 0 || p == seq!['.']) {
            let r = rest.push(p);
            assert forall|i: int| #![trigger r[i]] 0 <= i < r.len() implies r[i].len() > 0 && parts.contains(r[i]) by {
                if i < rest.len() {
                    assert(r[i] == rest[i]);
                } else {
                    assert(parts[parts.len() - 1] == p);
                }
            }
        }
    }
}

/// The text of joined pieces starts with the first piece.
proof fn lemma_join_starts_with_first(parts: Seq<Seq<char>>, sep: Seq<char>)
    requires
        parts.len() > 0,
    ensures
        parts[0].is_prefix_of(join_spec(parts, sep)),
    decreases parts.len(),
{
    if parts.len() > 1 {
        let init = parts.drop_last();
        lemma_join_starts_with_first(init, sep);
        assert(init[0] == parts[0]);
        let j = join_spec(parts, sep);
        assert(j == join_spec(init, sep) + sep + parts.last());
        assert(j.subrange(0, parts[0].len() as int) =~= join_spec(init, sep).subrange(0, parts[0].len() as int));
    }
}

/// Where an archive entry lands is always a relative path: it is never
/// empty and never starts with `/`, so joining it to the destination
/// directory never replaces that directory.
pub proof fn law_stripped_path_is_relative(raw: Seq<char>, subdir: Option<Seq<char>>)
    ensures
        strip_spec(raw, subdir) matches Some(r) ==> r.len() > 0 && r[0] != '/',
{
    let parts = split_spec(raw, '/');
    crate::text::lemma_split_nonempty(raw, '/');
    lemma_split_pieces(raw, '/');
    lemma_body_components(parts);
    let body = body_components(parts);
    let c = components_spec(raw);
    let rest = if c.len() > 0 {
        c.skip(1)
    } else {
        c
    };
    // every remaining component is a non-empty part, so it holds no `/`
    assert forall|i: int| 0 <= i < rest.len() implies #[trigger] rest[i].len() > 0 && rest[i][0] != '/' by {
        let head = if raw.len() > 0 && raw[0] == '/' {
            seq![seq!['/']]
        } else if parts[0] == seq!['.'] {
            seq![seq!['.']]
        } else {
            Seq::<Seq<char>>::empty()
        };
        assert(c == head + body);
        let b = if head.len() == 1 { i } else { i + 1 };
        assert(rest[i] == body[b]);
        let k = choose|k: int| 0 <= k < parts.len() && parts[k] == body[b];
        assert(parts[k][0] != '/');
    }
    match strip_spec(raw, subdir) {
        None => {},
        Some(r) => {
            let rel = match subdir {
                None => rest,
                Some(d) => rest.skip(components_spec(d).len() as int),
            };
            assert(rel.len() > 0);
            assert(r == join_spec(rel, seq!['/']));
            let first = match subdir {
                None => 0,
                Some(d) => components_spec(d).len() as int,
            };
            assert(rel[0] == rest[first]);
            lemma_join_starts_with_first(rel, seq!['/']);
            assert(r[0] == rel[0][0]);
        },
    }
}

/// `Path::components` of a path held as text, each component as its text.
pub fn path_components(path: &Vec<char>) -> (res: Vec<Vec<char>>)
    ensures
        pieces_view(res@) == components_spec(path@),
{
    let parts = split_char(path, '/');
    proof {
        crate::text::lemma_split_nonempty(path@, '/');
    }
    let ghost pv = pieces_view(parts@);
    let mut out: Vec<Vec<char>> = Vec::new();
    let mut dot: Vec<char> = Vec::new();
    dot.push('.');
    assert(dot@ == seq!['.']);
    if path.len() > 0 && path[0] == '/' {
        let mut root: Vec<char> = Vec::new();
        root.push('/');
        out.push(root);
    } else if str_eq_chars(&parts[0], &dot) {
        assert(parts@[0]@ == pv[0]);
        out.push(dot.clone());
    } else {
        assert(parts@[0]@ == pv[0]);
    }
    let ghost head = pieces_view(out@);
    assert(head + body_components(pv.take(0)) =~= head);
    let n = parts.len();
    for i in 0..n
        invariant
            n == parts@.len(),
            pv == pieces_view(parts@),
            dot@ == seq!['.'],
            pieces_view(out@) == head + body_components(pv.take(i as int)),
    {
        let p = &parts[i];
        assert(p@ == pv[i as int]);
        assert(pv.take(i + 1).drop_last() == pv.take(i as int));
        assert(pv.take(i + 1).last() == p@);
        if p.len() == 0 || str_eq_chars(p, &dot) {
        } else {
            let ghost before = pieces_view(out@);
            out.push(p.clone());
            assert(pieces_view(out@) =~= before.push(p@));
        }
    }
    assert(pv.take(n as int) == pv);
    out
}

/// Where an archive entry lands: its path relative to the extraction root,
/// or `None` when it is skipped (outside `subdir`, or nothing remains).
pub fn strip_archive_path_for_tests(raw_path: &str, subdir: Option<&str>) -> (res: Option<String>)
    ensures
        match strip_spec(
            raw_path@,
            match subdir {
                Some(d) => Some(d@),
                None => None,
            },
        ) {
            Some(r) => res matches Some(s) && s@ == r,
            None => res is None,
        },
{
    let comps = path_components(&chars_of(raw_path));
    let ghost c = pieces_view(comps@);
    let mut rest: Vec<Vec<char>> = Vec::new();
    let n = comps.len();
    let start: usize = if n > 0 { 1 } else { 0 };
    for i in start..n
        invariant
            n == comps@.len(),
            start <= n,
            c == pieces_view(comps@),
            pieces_view(rest@) == c.subrange(start as int, i as int),
    {
        let ghost before = pieces_view(rest@);
        rest.push(comps[i].clone());
        assert(pieces_view(rest@) =~= before.push(c[i as int]));
        assert(c.subrange(start as int, i + 1) =~= c.subrange(start as int, i as int).push(c[i as int]));
    }
    let ghost rest_v = if c.len() > 0 { c.skip(1) } else { c };
    assert(pieces_view(rest@) =~= rest_v);
    let rel: Vec<Vec<char>> = match subdir {
        None => rest,
        Some(d) => {
            let dc = path_components(&chars_of(d));
            let dn = dc.len();
            assert(!pieces_view(dc@).is_prefix_of(rest_v) ==> strip_spec(raw_path@, Some(d@)) is None);
            if dn > rest.len() {
                assert(!pieces_view(dc@).is_prefix_of(rest_v));
                return None;
            }
            let mut k: usize = 0;
            while k < dn
                invariant
                    dn == dc@.len(),
                    dn <= rest@.len(),
                    k <= dn,
                    pieces_view(rest@) == rest_v,
                    subdir == Some(d),
                    !pieces_view(dc@).is_prefix_of(rest_v) ==> strip_spec(raw_path@, Some(d@)) is None,
                    forall|j: int| 0 <= j < k ==> dc@[j]@ == rest@[j]@,
                decreases dn - k,
            {
                if !str_eq_chars(&dc[k], &rest[k]) {
                    assert(pieces_view(dc@)[k as int] != rest_v[k as int]);
                    assert(!pieces_view(dc@).is_prefix_of(rest_v));
                    return None;
                }
                k = k + 1;
            }
            assert(pieces_view(dc@).is_prefix_of(rest_v)) by {
                assert forall|j: int| 0 <= j < dn implies pieces_view(dc@)[j] == rest_v[j] by {
                    assert(dc@[j]@ == rest@[j]@);
                }
                assert(pieces_view(dc@) =~= rest_v.subrange(0, dn as int));
            }
            let mut out: Vec<Vec<char>> = Vec::new();
            let rn = rest.len();
            for i in dn..rn
                invariant
                    rn == rest@.len(),
                    dn <= rn,
                    pieces_view(out@) == pieces_view(rest@).subrange(dn as int, i as int),
            {
                let ghost before = pieces_view(out@);
                out.push(rest[i].clone());
                assert(pieces_view(out@) =~= before.push(pieces_view(rest@)[i as int]));
                assert(pieces_view(rest@).subrange(dn as int, i + 1) =~= pieces_view(rest@).subrange(
                    dn as int,
                    i as int,
                ).push(pieces_view(rest@)[i as int]));
            }
            assert(pieces_view(out@) =~= rest_v.skip(dn as int));
            out
        },
    };
    if rel.len() == 0 {
        return None;
    }
    let mut sep: Vec<char> = Vec::new();
    sep.push('/');
    assert(sep@ == seq!['/']);
    let text = join(&rel, &sep);
    Some(string_from_chars(text.as_slice()))
}

} // verus!
