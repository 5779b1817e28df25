//! Which directories are tidied away after a template's directory is
//! deleted: its parents, nearest first, up to (not including) the templates
//! directory. The caller removes each while it is empty and stops at the
//! first that cannot be removed.

use vstd::prelude::*;

use crate::archive::{components_spec, path_components};
use crate::paths::{join_path, join_spec};
use crate::text::{join, join_spec as join_texts, pieces_view, str_eq_chars, string_from_chars};

verus! {

/// `Path::parent` on a path given by its components: none for the empty
/// path and for the root directory alone.
pub open spec fn parent_components(c: Seq<Seq<char>>) -> Option<Seq<Seq<char>>> {
    if c.len() == 0 || (c.len() == 1 && c[0] == seq!['/']) {
        None
    } else {
        Some(c.drop_last())
    }
}

/// The parents of `c`, nearest first, stopping before `root` or at a path
/// that has no parent.
pub open spec fn prune_chain(c: Seq<Seq<char>>, root: Seq<Seq<char>>) -> Seq<Seq<Seq<char>>>
    decreases c.len(),
{
    match parent_components(c) {
        None => Seq::empty(),
        Some(p) => if p == root {
            Seq::empty()
        } else {
            seq![p] + prune_chain(p, root)
        },
    }
}

/// The text of a path given by its components.
pub open spec fn components_text(c: Seq<Seq<char>>) -> Seq<char> {
    if c.len() > 0 && c[0] == seq!['/'] {
        seq!['/'] + join_texts(c.skip(1), seq!['/'])
    } else {
        join_texts(c, seq!['/'])
    }
}

/// The directories to try to remove, as text, after `root.join(entry)` is
/// deleted.
pub open spec fn prune_spec(root: Seq<char>, entry: Seq<char>) -> Seq<Seq<char>> {
    prune_chain(components_spec(join_spec(root, entry)), components_spec(root)).map_values(
        |c: Seq<Seq<char>>| components_text(c),
    )
}

/// The text of the first `k` components of `c`.
fn prefix_text(c: &Vec<Vec<char>>, k: usize) -> (res: Vec<char>)
    requires
        k <= c@.len(),
    ensures
        res@ == components_text(pieces_view(c@).take(k as int)),
{
    let ghost cv = pieces_view(c@).take(k as int);
    let rooted = k > 0 && str_eq_chars(&c[0], &slash());
    let start: usize = if rooted { 1 } else { 0 };
    let mut parts: Vec<Vec<char>> = Vec::new();
    for i in start..k
        invariant
            start <= k,
            k <= c@.len(),
            cv == pieces_view(c@).take(k as int),
            pieces_view(parts@) == cv.subrange(start as int, i as int),
    {
        let ghost b = pieces_view(parts@);
        parts.push(c[i].clone());
        assert(pieces_view(parts@) =~= b.push(cv[i as int]));
        assert(cv.subrange(start as int, i + 1) =~= cv.subrange(start as int, i as int).push(cv[i as int]));
    }
    let body = join(&parts, &slash());
    if rooted {
        assert(cv[0] == c@[0]@);
        assert(cv.subrange(1, k as int) == cv.skip(1));
        let mut out = slash();
        crate::text::extend_chars(&mut out, body.as_slice());
        out
    } else {
        assert(k > 0 ==> cv[0] == c@[0]@);
        assert(cv.subrange(0, k as int) == cv);
        body
    }
}

/// A one-character `/`.
fn slash() -> (res: Vec<char>)
    ensures
        res@ == seq!['/'],
{
    let mut v: Vec<char> = Vec::new();
    v.push('/');
    v
}

/// Whether the first `k` components of `c` are those of `root`.
fn same_prefix(c: &Vec<Vec<char>>, k: usize, root: &Vec<Vec<char>>) -> (res: bool)
    requires
        k <= c@.len(),
    ensures
        res == (pieces_view(c@).take(k as int) == pieces_view(root@)),
{
    if k != root.len() {
        assert(pieces_view(c@).take(k as int).len() != pieces_view(root@).len());
        return false;
    }
    for i in 0..k
        invariant
            k <= c@.len(),
            k == root@.len(),
            forall|j: int| 0 <= j < i ==> c@[j]@ == root@[j]@,
    {
        if !str_eq_chars(&c[i], &root[i]) {
            assert(pieces_view(c@).take(k as int)[i as int] != pieces_view(root@)[i as int]);
            return false;
        }
    }
    assert(pieces_view(c@).take(k as int) =~= pieces_view(root@));
    true
}

/// The directories to try to remove after the directory `entry_path` under
/// `root` is deleted, nearest first.
pub fn prune_candidates(root: &str, entry_path: &str) -> (res: Vec<String>)
    ensures
        res@.map_values(|s: String| s@) == prune_spec(root@, entry_path@),
{
    let full = join_path(root, entry_path);
    let c = path_components(&crate::text::chars_of(full.as_str()));
    let r = path_components(&crate::text::chars_of(root));
    let ghost cv = pieces_view(c@);
    let ghost rv = pieces_view(r@);
    let ghost mut acc: Seq<Seq<Seq<char>>> = Seq::empty();
    let mut out: Vec<String> = Vec::new();
    let mut k = c.len();
    assert(cv.take(k as int) == cv);
    loop
        invariant
            k <= c@.len(),
            cv == pieces_view(c@),
            rv == pieces_view(r@),
            acc + prune_chain(cv.take(k as int), rv) == prune_chain(cv, rv),
            out@.map_values(|s: String| s@) == acc.map_values(|x: Seq<Seq<char>>| components_text(x)),
        ensures
            acc == prune_chain(cv, rv),
            out@.map_values(|s: String| s@) == acc.map_values(|x: Seq<Seq<char>>| components_text(x)),
        decreases k,
    {
        let ghost cur = cv.take(k as int);
        if k == 0 {
            assert(prune_chain(cur, rv) == Seq::<Seq<Seq<char>>>::empty());
            assert(acc =~= prune_chain(cv, rv));
            break;
        }
        if k == 1 && str_eq_chars(&c[0], &slash()) {
            assert(cur[0] == c@[0]@);
            assert(prune_chain(cur, rv) == Seq::<Seq<Seq<char>>>::empty());
            assert(acc =~= prune_chain(cv, rv));
            break;
        }
        assert(k == 1 ==> cur[0] == c@[0]@);
        assert(cur.drop_last() =~= cv.take(k - 1));
        if same_prefix(&c, k - 1, &r) {
            assert(prune_chain(cur, rv) == Seq::<Seq<Seq<char>>>::empty());
            assert(acc =~= prune_chain(cv, rv));
            break;
        }
        let text = prefix_text(&c, k - 1);
        let ghost b = out@.map_values(|s: String| s@);
        out.push(string_from_chars(text.as_slice()));
        proof {
            let p = cv.take(k - 1);
            assert(prune_chain(cur, rv) == seq![p] + prune_chain(p, rv));
            assert(acc.push(p) + prune_chain(p, rv) =~= acc + (seq![p] + prune_chain(p, rv)));
            acc = acc.push(p);
            assert(out@.map_values(|s: String| s@) =~= b.push(components_text(p)));
            assert(acc.map_values(|x: Seq<Seq<char>>| components_text(x)) =~= b.push(components_text(p)));
        }
        k = k - 1;
    }
    out
}

} // verus!
