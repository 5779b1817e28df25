//! Managed blocks in shell configuration files: a block delimited by a
//! start and an end marker line that the CLI inserts once and replaces on
//! later runs.

use vstd::prelude::*;

use crate::text::{
    chars_of, contains_spec, extend_chars, find_from, find_spec, lemma_find_spec, lemma_find_spec_at,
    occurs_at, replace_all, replace_spec, slice_chars, string_from_chars,
};

verus! {

/// `\r\n`.
pub open spec fn crlf() -> Seq<char> {
    seq!['\r', '\n']
}

/// `\n`.
pub open spec fn lf() -> Seq<char> {
    seq!['\n']
}

/// The content with the block appended: a blank line separates it from
/// non-empty content, whose last line is terminated first.
pub open spec fn append_block(c: Seq<char>, b: Seq<char>) -> Seq<char> {
    if c.len() == 0 {
        b
    } else if c.last() != '\n' {
        c + lf() + lf() + b
    } else {
        c + lf() + b
    }
}

/// The result of upserting `block` between `start` and `end` markers into
/// `content`: line endings are normalised to `\n`; when the start marker
/// occurs and the end marker occurs after it, everything from the start
/// marker to the end of the end marker's line is replaced by the block
/// (with a final newline); otherwise the block is appended.
pub open spec fn managed_spec(content: Seq<char>, block: Seq<char>, start: Seq<char>, end: Seq<char>) -> Seq<char> {
    let c = replace_spec(content, crlf(), lf());
    let b = block + lf();
    match find_spec(c, start, 0) {
        Some(st) => match find_spec(c, end, st) {
            Some(ep) => {
                let marker_end = ep + end.len();
                let block_end = match find_spec(c, lf(), marker_end) {
                    Some(k) => k + 1,
                    None => c.len() as int,
                };
                c.take(st) + b + c.skip(block_end)
            },
            None => append_block(c, b),
        },
        None => append_block(c, b),
    }
}

/// Inserts `block` into `content` between the markers, or replaces the
/// existing managed block.
pub fn upsert_managed_block(content: &str, block: &str, start_marker: &str, end_marker: &str) -> (res:
    String)
    ensures
        res@ == managed_spec(content@, block@, start_marker@, end_marker@),
{
    let raw = chars_of(content);
    let mut pat: Vec<char> = Vec::new();
    pat.push('\r');
    pat.push('\n');
    let mut nl: Vec<char> = Vec::new();
    nl.push('\n');
    assert(pat@ == crlf());
    assert(nl@ == lf());
    let c = replace_all(&raw, &pat, &nl);
    let mut b = chars_of(block);
    b.push('\n');
    let s = chars_of(start_marker);
    let e = chars_of(end_marker);
    if let Some(st) = find_from(&c, &s, 0) {
        if let Some(ep) = find_from(&c, &e, st) {
            proof {
                lemma_find_spec(c@, e@, st as int);
            }
            let cl = c.len();
            assert(ep + e@.len() <= cl);
            let marker_end = ep + e.len();
            let block_end = match find_from(&c, &nl, marker_end) {
                Some(k) => {
                    proof {
                        lemma_find_spec(c@, nl@, marker_end as int);
                    }
                    assert(k + 1 <= cl);
                    k + 1
                },
                None => c.len(),
            };
            let mut out = slice_chars(&c, 0, st);
            extend_chars(&mut out, b.as_slice());
            let tail = slice_chars(&c, block_end, c.len());
            extend_chars(&mut out, tail.as_slice());
            assert(out@ == managed_spec(content@, block@, start_marker@, end_marker@));
            return string_from_chars(out.as_slice());
        }
    }
    let mut out = c.clone();
    if c.len() > 0 && c[c.len() - 1] != '\n' {
        out.push('\n');
    }
    if c.len() > 0 {
        out.push('\n');
    }
    extend_chars(&mut out, b.as_slice());
    assert(out@ == managed_spec(content@, block@, start_marker@, end_marker@));
    string_from_chars(out.as_slice())
}

/// No character of `x` is a newline.
pub open spec fn no_lf(x: Seq<char>) -> bool {
    forall|i: int| 0 <= i < x.len() ==> x[i] != '\n'
}

/// The new text of a configuration file after upserting the block, or
/// `None` when it would not change (the file is then not written).
pub fn managed_update(existing: &str, block: &str, start_marker: &str, end_marker: &str) -> (res: Option<
    String,
>)
    ensures
        managed_spec(existing@, block@, start_marker@, end_marker@) == existing@ ==> res is None,
        managed_spec(existing@, block@, start_marker@, end_marker@) != existing@ ==> (res matches Some(u)
            && u@ == managed_spec(existing@, block@, start_marker@, end_marker@)),
{
    let updated = upsert_managed_block(existing, block, start_marker, end_marker);
    if crate::text::str_eq(updated.as_str(), existing) {
        None
    } else {
        Some(updated)
    }
}

/// A carriage return directly followed by a newline at index `i` of `x`.
pub open spec fn crlf_at(x: Seq<char>, i: int) -> bool {
    x[i] == '\r' && x[i + 1] == '\n'
}

/// No carriage return is directly followed by a newline in `x`.
pub open spec fn no_crlf(x: Seq<char>) -> bool {
    forall|i: int| 0 <= i && i + 1 < x.len() ==> !#[trigger] crlf_at(x, i)
}

/// The conditions under which upserting is idempotent: once `\r\n` line
/// endings are normalised the content holds no `\r\n` (a lone `\r` is
/// fine) and, when the block is to be appended, does not end in `\r`; the
/// block holds no `\r\n`, does not end in `\r`, begins with the start
/// marker and has its first end marker at its very end; the start marker
/// holds no newline; and the content's first start marker (if any) is
/// followed by an end marker.
pub open spec fn well_formed_block(content: Seq<char>, block: Seq<char>, start: Seq<char>, end: Seq<char>) -> bool {
    let c = replace_spec(content, crlf(), lf());
    &&& no_crlf(c)
    &&& (c.len() > 0 && c.last() == '\r' ==> find_spec(c, start, 0) is Some)
    &&& no_crlf(block)
    &&& (block.len() > 0 ==> block.last() != '\r')
    &&& start.is_prefix_of(block)
    &&& no_lf(start)
    &&& block.len() >= end.len()
    &&& find_spec(block, end, 0) == Some(block.len() - end.len())
    &&& (find_spec(c, start, 0) matches Some(st) ==> find_spec(c, end, st) is Some)
}

/// An upsert under the conditions above leaves no `\r\n` behind, so a
/// second upsert sees its result unchanged by the normalisation.
proof fn lemma_result_no_crlf(content: Seq<char>, block: Seq<char>, start: Seq<char>, end: Seq<char>)
    requires
        well_formed_block(content, block, start, end),
    ensures
        no_crlf(managed_spec(content, block, start, end)),
{
    let c = replace_spec(content, crlf(), lf());
    let b = block + lf();
    let big_l = block.len() as int;
    let r = managed_spec(content, block, start, end);
    lemma_find_spec(c, start, 0);
    if start.len() == 0 {
        assert(c.subrange(0, 0) =~= start);
        assert(occurs_at(c, start, 0));
    }
    // r == pre + b + post
    let (pre, post) = match find_spec(c, start, 0) {
        Some(st) => {
            lemma_find_spec(c, end, st);
            let ep = find_spec(c, end, st)->0;
            let marker_end = ep + end.len();
            let block_end = match find_spec(c, lf(), marker_end) {
                Some(k) => k + 1,
                None => c.len() as int,
            };
            if let Some(k) = find_spec(c, lf(), marker_end) {
                lemma_find_spec(c, lf(), marker_end);
            }
            (c.take(st), c.skip(block_end))
        },
        None => {
            let sep = if c.len() == 0 {
                Seq::<char>::empty()
            } else if c.last() != '\n' {
                lf() + lf()
            } else {
                lf()
            };
            assert(append_block(c, b) == c + sep + b);
            (c + sep, Seq::<char>::empty())
        },
    };
    let p = pre.len() as int;
    let q = p + b.len();
    assert(r == pre + b + post);
    assert(b[big_l] == '\n');
    assert forall|i: int| 0 <= i && i + 1 < r.len() implies !crlf_at(r, i) by {
        if i + 1 < p {
            assert(r[i] == pre[i] && r[i + 1] == pre[i + 1]);
            if let Some(st) = find_spec(c, start, 0) {
                assert(pre[i] == c[i] && pre[i + 1] == c[i + 1]);
                assert(!crlf_at(c, i));
            } else {
                if i + 1 < c.len() {
                    assert(pre[i] == c[i] && pre[i + 1] == c[i + 1]);
                    assert(!crlf_at(c, i));
                } else if i < c.len() {
                    assert(pre[i] == c.last());
                } else {
                    assert(pre[i] == '\n');
                }
            }
        } else if i + 1 == p {
            // the character after `pre` begins the block, with the start marker
            assert(r[i + 1] == b[0]);
            assert(start.len() > 0) by {
                if start.len() == 0 {
                    assert(find_spec(c, start, 0) == Some(0int));
                }
            }
            assert(b[0] == block[0]);
            assert(block[0] == start[0]);
        } else if i + 1 < q {
            assert(r[i] == b[i - p] && r[i + 1] == b[i + 1 - p]);
            if i + 1 - p < big_l {
                assert(b[i - p] == block[i - p] && b[i + 1 - p] == block[i + 1 - p]);
                assert(!crlf_at(block, i - p));
            } else {
                assert(b[i - p] == block[big_l - 1]);
            }
        } else if i + 1 == q {
            assert(r[i] == b[big_l]);
        } else {
            assert(r[i] == post[i - q] && r[i + 1] == post[i + 1 - q]);
            if let Some(st) = find_spec(c, start, 0) {
                assert(post[i - q] == c[c.len() - post.len() + (i - q)]);
                assert(post[i + 1 - q] == c[c.len() - post.len() + (i + 1 - q)]);
                assert(!crlf_at(c, c.len() - post.len() + (i - q)));
            }
        }
    }
}

/// Upserting the same managed block a second time leaves the result as it
/// is: the block is inserted once and then found and replaced in place.
pub proof fn law_upsert_idempotent(content: Seq<char>, block: Seq<char>, start: Seq<char>, end: Seq<char>)
    requires
        well_formed_block(content, block, start, end),
    ensures
        managed_spec(managed_spec(content, block, start, end), block, start, end) == managed_spec(
            content,
            block,
            start,
            end,
        ),
{
    law_upsert_replaces(content, block, block, start, end);
}

/// Upserting a new block over an upserted one gives what upserting the new
/// block alone gives: the old block is replaced in place, and nothing of it
/// is left.
#[verifier::rlimit(60)]
pub proof fn law_upsert_replaces(
    content: Seq<char>,
    block: Seq<char>,
    next: Seq<char>,
    start: Seq<char>,
    end: Seq<char>,
)
    requires
        well_formed_block(content, block, start, end),
    ensures
        managed_spec(managed_spec(content, block, start, end), next, start, end) == managed_spec(
            content,
            next,
            start,
            end,
        ),
{
    let c = replace_spec(content, crlf(), lf());
    let b = block + lf();
    let big_l = block.len() as int;
    let r = managed_spec(content, block, start, end);
    lemma_find_spec(block, end, 0);
    lemma_find_spec(c, start, 0);
    // r == pre + b + post, with the block at index `p`
    let (pre, post) = match find_spec(c, start, 0) {
        Some(st) => {
            lemma_find_spec(c, end, st);
            let ep = find_spec(c, end, st)->0;
            let marker_end = ep + end.len();
            let block_end = match find_spec(c, lf(), marker_end) {
                Some(k) => k + 1,
                None => c.len() as int,
            };
            if let Some(k) = find_spec(c, lf(), marker_end) {
                lemma_find_spec(c, lf(), marker_end);
            }
            assert(managed_spec(content, next, start, end) == c.take(st) + (next + lf()) + c.skip(
                block_end,
            ));
            (c.take(st), c.skip(block_end))
        },
        None => {
            let sep = if c.len() == 0 {
                Seq::<char>::empty()
            } else if c.last() != '\n' {
                lf() + lf()
            } else {
                lf()
            };
            assert(append_block(c, b) == c + sep + b);
            assert(append_block(c, next + lf()) == c + sep + (next + lf()));
            (c + sep, Seq::<char>::empty())
        },
    };
    let p = pre.len() as int;
    assert(r == pre + b + post);
    lemma_result_no_crlf(content, block, start, end);
    assert forall|i: int| !occurs_at(r, crlf(), i) by {
        if occurs_at(r, crlf(), i) {
            assert(r.subrange(i, i + 2)[0] == '\r' && r.subrange(i, i + 2)[1] == '\n');
            assert(crlf_at(r, i));
        }
    }
    crate::text::lemma_replace_no_occurrence(r, crlf(), lf());
    // the block as seen inside r
    assert forall|k: int| 0 <= k < big_l implies r[p + k] == block[k] by {
        assert(r[p + k] == b[k]);
    }
    assert(r[p + big_l] == '\n') by {
        assert(r[p + big_l] == b[big_l]);
    }
    // (1) the first start marker of r is at p
    assert(occurs_at(r, start, p)) by {
        assert(r.subrange(p, p + start.len()) =~= start) by {
            assert forall|k: int| 0 <= k < start.len() implies r.subrange(p, p + start.len())[k]
                == start[k] by {
                assert(block[k] == start[k]);
            }
        }
    }
    assert forall|j: int| 0 <= j < p implies !occurs_at(r, start, j) by {
        if occurs_at(r, start, j) {
            match find_spec(c, start, 0) {
                Some(st) => {
                    // r and c agree below st + |start|
                    assert forall|k: int| 0 <= k < start.len() implies c[j + k] == start[k] by {
                        let idx = j + k;
                        assert(r.subrange(j, j + start.len())[k] == start[k]);
                        if idx < st {
                            assert(r[idx] == c[idx]);
                        } else {
                            assert(r[idx] == block[idx - st]);
                            assert(block[idx - st] == start[idx - st]);
                            assert(c.subrange(st, st + start.len())[idx - st] == start[idx - st]);
                        }
                    }
                    assert(c.subrange(j, j + start.len()) =~= start);
                    assert(occurs_at(c, start, j));
                },
                None => {
                    if j + start.len() <= c.len() {
                        assert forall|k: int| 0 <= k < start.len() implies c[j + k] == start[k] by {
                            assert(r.subrange(j, j + start.len())[k] == start[k]);
                            assert(r[j + k] == c[j + k]);
                        }
                        assert(c.subrange(j, j + start.len()) =~= start);
                        assert(occurs_at(c, start, j));
                    } else {
                        // the occurrence covers a separator newline
                        assert(start.len() > 0) by {
                            if start.len() == 0 {
                                assert(c.subrange(0, 0) =~= start);
                            }
                        }
                        let idx = if j <= c.len() { c.len() as int } else { j };
                        assert(r[idx] == '\n');
                        assert(r.subrange(j, j + start.len())[idx - j] == start[idx - j]);
                    }
                },
            }
        }
    }
    lemma_find_spec_at(r, start, 0, p);
    // (2) the first end marker from p is at the end of the block
    let q = p + big_l - end.len();
    assert(occurs_at(r, end, q)) by {
        let e0 = big_l - end.len();
        assert forall|k: int| 0 <= k < end.len() implies r.subrange(q, q + end.len())[k] == end[k] by {
            assert(block.subrange(e0, e0 + end.len())[k] == end[k]);
        }
        assert(r.subrange(q, q + end.len()) =~= end);
    }
    assert forall|j: int| p <= j < q implies !occurs_at(r, end, j) by {
        if occurs_at(r, end, j) {
            assert forall|k: int| 0 <= k < end.len() implies block[j - p + k] == end[k] by {
                assert(r.subrange(j, j + end.len())[k] == end[k]);
                assert(r[p + (j - p + k)] == block[j - p + k]);
            }
            assert(block.subrange(j - p, j - p + end.len()) =~= end);
            assert(occurs_at(block, end, j - p));
        }
    }
    lemma_find_spec_at(r, end, p, q);
    // (3) the end marker's line ends right after the block
    assert(occurs_at(r, lf(), p + big_l)) by {
        assert(r.subrange(p + big_l, p + big_l + 1) =~= lf());
    }
    lemma_find_spec_at(r, lf(), p + big_l, p + big_l);
    // (4) the replacement puts the new block between the same parts
    assert(r.take(p) =~= pre);
    assert(r.skip(p + big_l + 1) =~= post);
    assert(managed_spec(content, next, start, end) =~= pre + (next + lf()) + post);
    assert(managed_spec(r, next, start, end) =~= r.take(p) + (next + lf()) + r.skip(p + big_l + 1));
}

/// Upserting into content without the start marker appends the block, and
/// the start marker then occurs exactly once: where the block begins (when
/// the block holds it only there).
pub proof fn law_append_marker_once(content: Seq<char>, block: Seq<char>, start: Seq<char>, end: Seq<char>)
    requires
        well_formed_block(content, block, start, end),
        start.len() > 0,
        find_spec(replace_spec(content, crlf(), lf()), start, 0) is None,
        forall|j: int| 0 < j ==> !occurs_at(block, start, j),
    ensures
        exists|p: int|
            occurs_at(managed_spec(content, block, start, end), start, p) && forall|j: int|
                occurs_at(managed_spec(content, block, start, end), start, j) ==> j == p,
{
    let c = replace_spec(content, crlf(), lf());
    let b = block + lf();
    let big_l = block.len() as int;
    let n = start.len() as int;
    let r = managed_spec(content, block, start, end);
    lemma_find_spec(c, start, 0);
    let sep = if c.len() == 0 {
        Seq::<char>::empty()
    } else if c.last() != '\n' {
        lf() + lf()
    } else {
        lf()
    };
    assert(append_block(c, b) == c + sep + b);
    assert(r == c + sep + b);
    let p = (c.len() + sep.len()) as int;
    assert(b[big_l] == '\n');
    assert(occurs_at(r, start, p)) by {
        assert(r.subrange(p, p + n) =~= start) by {
            assert forall|k: int| 0 <= k < n implies r.subrange(p, p + n)[k] == start[k] by {
                assert(r[p + k] == b[k]);
                assert(b[k] == block[k]);
            }
        }
    }
    assert forall|j: int| occurs_at(r, start, j) implies j == p by {
        let w = r.subrange(j, j + n);
        assert(w == start);
        if j + n <= c.len() {
            assert(c.subrange(j, j + n) =~= w);
            assert(occurs_at(c, start, j));
        } else if j < p {
            // the window covers a separator newline
            let k = if j < c.len() { c.len() as int } else { j };
            assert(r[k] == '\n');
            assert(w[k - j] == r[k]);
        } else if j > p {
            if j + n <= p + big_l {
                assert(block.subrange(j - p, j - p + n) =~= w) by {
                    assert forall|k: int| 0 <= k < n implies block.subrange(j - p, j - p + n)[k] == w[k] by {
                        assert(r[j + k] == b[j - p + k]);
                    }
                }
                assert(occurs_at(block, start, j - p));
            } else {
                assert(r[p + big_l] == '\n');
                assert(w[p + big_l - j] == r[p + big_l]);
            }
        }
    }
}

/// `w` occurs at most once in `x`.
pub open spec fn at_most_once(x: Seq<char>, w: Seq<char>) -> bool {
    forall|i: int, j: int| occurs_at(x, w, i) && occurs_at(x, w, j) ==> i == j
}

/// `w` occurs exactly once in `x`.
pub open spec fn exactly_once(x: Seq<char>, w: Seq<char>) -> bool {
    exists|p: int| occurs_at(x, w, p) && forall|j: int| occurs_at(x, w, j) ==> j == p
}

/// Replacing the one managed block of content that holds the start marker
/// only there leaves the start marker exactly once, where the new block
/// begins (when the block holds it only there).
#[verifier::rlimit(40)]
proof fn lemma_replace_marker_once(content: Seq<char>, block: Seq<char>, start: Seq<char>, end: Seq<char>)
    requires
        well_formed_block(content, block, start, end),
        start.len() > 0,
        end.len() > 0,
        find_spec(replace_spec(content, crlf(), lf()), start, 0) is Some,
        at_most_once(replace_spec(content, crlf(), lf()), start),
        forall|j: int| 0 < j ==> !occurs_at(block, start, j),
    ensures
        exactly_once(managed_spec(content, block, start, end), start),
{
    let c = replace_spec(content, crlf(), lf());
    let b = block + lf();
    let big_l = block.len() as int;
    let n = start.len() as int;
    let r = managed_spec(content, block, start, end);
    lemma_find_spec(c, start, 0);
    let st = find_spec(c, start, 0)->0;
    lemma_find_spec(c, end, st);
    let ep = find_spec(c, end, st)->0;
    let marker_end = ep + end.len();
    let block_end = match find_spec(c, lf(), marker_end) {
        Some(k) => k + 1,
        None => c.len() as int,
    };
    if let Some(k) = find_spec(c, lf(), marker_end) {
        lemma_find_spec(c, lf(), marker_end);
    }
    let post = c.skip(block_end);
    assert(r == c.take(st) + b + post);
    assert(block_end > st);
    assert(b[big_l] == '\n');
    assert(c.subrange(st, st + n) == start);
    assert forall|k: int| 0 <= k < n implies #[trigger] block[k] == start[k] by {
        assert(block.subrange(0, n)[k] == start[k]);
    }
    assert(occurs_at(r, start, st)) by {
        assert(r.subrange(st, st + n) =~= start) by {
            assert forall|k: int| 0 <= k < n implies r.subrange(st, st + n)[k] == start[k] by {
                assert(r[st + k] == b[k]);
                assert(b[k] == block[k]);
            }
        }
    }
    assert forall|j: int| occurs_at(r, start, j) implies j == st by {
        let w = r.subrange(j, j + n);
        assert(w == start);
        if j < st {
            assert forall|k: int| 0 <= k < n implies c[j + k] == start[k] by {
                assert(w[k] == r[j + k]);
                let idx = j + k;
                if idx < st {
                    assert(r[idx] == c[idx]);
                } else {
                    assert(r[idx] == b[idx - st]);
                    assert(b[idx - st] == block[idx - st]);
                    assert(c.subrange(st, st + n)[idx - st] == c[idx]);
                }
            }
            assert(c.subrange(j, j + n) =~= start);
            assert(occurs_at(c, start, j));
        } else if j > st {
            if j + n <= st + big_l {
                assert(block.subrange(j - st, j - st + n) =~= w) by {
                    assert forall|k: int| 0 <= k < n implies block.subrange(j - st, j - st + n)[k] == w[k] by {
                        assert(r[j + k] == b[j - st + k]);
                    }
                }
                assert(occurs_at(block, start, j - st));
            } else if j <= st + big_l {
                assert(r[st + big_l] == b[big_l]);
                assert(w[st + big_l - j] == r[st + big_l]);
            } else {
                let o = j - st - big_l - 1;
                assert forall|k: int| 0 <= k < n implies c[block_end + o + k] == start[k] by {
                    assert(w[k] == r[j + k]);
                    assert(r[j + k] == post[o + k]);
                }
                assert(c.subrange(block_end + o, block_end + o + n) =~= start);
                assert(occurs_at(c, start, block_end + o));
            }
        }
    }
}

/// A managed block made of the start marker line, a body and the end
/// marker line.
pub open spec fn marked_block(start: Seq<char>, body: Seq<char>, end: Seq<char>) -> Seq<char> {
    start + lf() + body + lf() + end
}

/// No character of `x` is a carriage return.
pub open spec fn no_cr(x: Seq<char>) -> bool {
    forall|i: int| 0 <= i < x.len() ==> x[i] != '\r'
}

/// What the content must satisfy for upserting to be idempotent: after
/// `\r\n` is normalised it holds no `\r\n`, ends in `\r` only when the
/// block is to be replaced, and its first start marker (if any) is
/// followed by an end marker.
pub open spec fn content_fits(content: Seq<char>, start: Seq<char>, end: Seq<char>) -> bool {
    let c = replace_spec(content, crlf(), lf());
    &&& no_crlf(c)
    &&& (c.len() > 0 && c.last() == '\r' ==> find_spec(c, start, 0) is Some)
    &&& (find_spec(c, start, 0) matches Some(st) ==> find_spec(c, end, st) is Some)
}

/// Markers and a body that make a sound managed block: both markers are
/// non-empty single lines without `\r`, neither occurs in the other or in
/// the body, and the body holds no `\r\n` and does not end in `\r`.
pub open spec fn fits_markers(start: Seq<char>, body: Seq<char>, end: Seq<char>) -> bool {
    &&& start.len() > 0
    &&& end.len() > 0
    &&& no_cr(start) && no_lf(start)
    &&& no_cr(end) && no_lf(end)
    &&& !contains_spec(start, end)
    &&& !contains_spec(end, start)
    &&& !contains_spec(body, start)
    &&& !contains_spec(body, end)
    &&& no_crlf(body)
    &&& (body.len() > 0 ==> body.last() != '\r')
}

/// A single-line pattern found in a marked block lies wholly inside the
/// start marker, the body or the end marker.
proof fn lemma_marked_parts(start: Seq<char>, body: Seq<char>, end: Seq<char>, w: Seq<char>, j: int)
    requires
        w.len() > 0,
        no_lf(w),
        occurs_at(marked_block(start, body, end), w, j),
    ensures
        occurs_at(start, w, j) || occurs_at(body, w, j - start.len() - 1) || occurs_at(
            end,
            w,
            j - start.len() - body.len() - 2,
        ),
{
    let x = marked_block(start, body, end);
    let a = start.len() as int;
    let m = body.len() as int;
    let n = w.len() as int;
    assert(x.subrange(j, j + n) == w);
    assert(x[a] == '\n');
    assert(x[a + 1 + m] == '\n');
    if j + n <= a {
        assert(start.subrange(j, j + n) =~= w) by {
            assert forall|k: int| 0 <= k < n implies start.subrange(j, j + n)[k] == w[k] by {
                assert(x[j + k] == start[j + k]);
                assert(x.subrange(j, j + n)[k] == x[j + k]);
            }
        }
    } else if j <= a {
        assert(x.subrange(j, j + n)[a - j] == x[a]);
        assert(w[a - j] != '\n');
    } else if j + n <= a + 1 + m {
        let o = j - a - 1;
        assert(body.subrange(o, o + n) =~= w) by {
            assert forall|k: int| 0 <= k < n implies body.subrange(o, o + n)[k] == w[k] by {
                assert(x[j + k] == body[o + k]);
                assert(x.subrange(j, j + n)[k] == x[j + k]);
            }
        }
    } else if j <= a + 1 + m {
        assert(x.subrange(j, j + n)[a + 1 + m - j] == x[a + 1 + m]);
        assert(w[a + 1 + m - j] != '\n');
    } else {
        let o = j - a - m - 2;
        assert(end.subrange(o, o + n) =~= w) by {
            assert forall|k: int| 0 <= k < n implies end.subrange(o, o + n)[k] == w[k] by {
                assert(x[j + k] == end[o + k]);
                assert(x.subrange(j, j + n)[k] == x[j + k]);
            }
        }
    }
}

/// A marked block built from fitting markers and body, upserted into
/// fitting content, meets the conditions of the laws above, and holds the
/// start marker only where it begins.
proof fn lemma_marked_block_well_formed(content: Seq<char>, start: Seq<char>, body: Seq<char>, end: Seq<char>)
    requires
        content_fits(content, start, end),
        fits_markers(start, body, end),
    ensures
        well_formed_block(content, marked_block(start, body, end), start, end),
        forall|j: int| 0 < j ==> !occurs_at(marked_block(start, body, end), start, j),
{
    let x = marked_block(start, body, end);
    let a = start.len() as int;
    let m = body.len() as int;
    let big_l = x.len() as int;
    assert(x[a] == '\n');
    assert(x[a + 1 + m] == '\n');
    assert(start.is_prefix_of(x)) by {
        assert forall|k: int| 0 <= k < a implies x[k] == start[k] by {}
        assert(x.subrange(0, a) =~= start);
    }
    // the end marker occurs first at the very end
    let q = big_l - end.len();
    assert(occurs_at(x, end, q)) by {
        assert(x.subrange(q, big_l) =~= end);
    }
    assert forall|j: int| 0 <= j < q implies !occurs_at(x, end, j) by {
        if occurs_at(x, end, j) {
            lemma_marked_parts(start, body, end, end, j);
            if occurs_at(start, end, j) {
                assert(contains_spec(start, end));
            } else if occurs_at(body, end, j - a - 1) {
                assert(contains_spec(body, end));
            }
        }
    }
    lemma_find_spec_at(x, end, 0, q);
    // the start marker occurs only at the beginning
    assert forall|j: int| 0 < j implies !occurs_at(x, start, j) by {
        if occurs_at(x, start, j) {
            lemma_marked_parts(start, body, end, start, j);
            if occurs_at(body, start, j - a - 1) {
                assert(contains_spec(body, start));
            } else if occurs_at(end, start, j - a - m - 2) {
                assert(contains_spec(end, start));
            }
        }
    }
    // no `\r\n` inside the block
    assert forall|i: int| 0 <= i && i + 1 < big_l implies !#[trigger] crlf_at(x, i) by {
        if i + 1 < a {
            assert(x[i] == start[i]);
        } else if i + 1 == a {
            assert(x[i] == start[i]);
        } else if i == a {
        } else if i + 1 < a + 1 + m {
            assert(x[i] == body[i - a - 1] && x[i + 1] == body[i - a]);
            assert(!crlf_at(body, i - a - 1));
        } else if i + 1 == a + 1 + m {
            assert(x[i] == body[m - 1]);
        } else if i == a + 1 + m {
        } else {
            assert(x[i] == end[i - a - m - 2]);
        }
    }
    assert(x.last() == end[end.len() - 1]);
}

/// Upserting a managed block made of a start marker line, a body and an
/// end marker line a second time changes nothing, so a second update of the
/// file writes nothing; and when the content held the start marker at most
/// once (no block, or one block), it holds it exactly once afterwards.
pub proof fn law_marked_block_upsert(content: Seq<char>, start: Seq<char>, body: Seq<char>, end: Seq<char>)
    requires
        content_fits(content, start, end),
        fits_markers(start, body, end),
    ensures
        managed_spec(managed_spec(content, marked_block(start, body, end), start, end), marked_block(start, body, end), start, end)
            == managed_spec(content, marked_block(start, body, end), start, end),
        at_most_once(replace_spec(content, crlf(), lf()), start) ==> exactly_once(
            managed_spec(content, marked_block(start, body, end), start, end),
            start,
        ),
{
    let x = marked_block(start, body, end);
    lemma_marked_block_well_formed(content, start, body, end);
    law_upsert_idempotent(content, x, start, end);
    if at_most_once(replace_spec(content, crlf(), lf()), start) {
        if find_spec(replace_spec(content, crlf(), lf()), start, 0) is None {
            law_append_marker_once(content, x, start, end);
        } else {
            lemma_replace_marker_once(content, x, start, end);
        }
    }
}

} // verus!
