//! What the steps of an addon command do to the project's files: the text
//! an append or an inject step writes, and the decisions of the copy,
//! create, rename and move steps.

use vstd::prelude::*;

use crate::manifest::{IfExists, IfNotFound};
use crate::text::{
    chars_of, contains_spec, join, join_spec, lines, lines_spec, pieces_view, string_from_chars,
};

verus! {

/// How a step's change is undone.
#[derive(Debug)]
pub enum Rollback {
    /// Write the file's former bytes back.
    RestoreFile { path: String, original: Vec<u8> },
    /// Delete a file that the step created.
    DeleteCreatedFile { path: String },
    /// Rename `from` back to `to`.
    RenameFile { from: String, to: String },
}

/// The view of a list of lines.
pub open spec fn lines_view(v: Seq<String>) -> Seq<Seq<char>> {
    v.map_values(|s: String| s@)
}

/// The text a step writes for its content: the rendered lines joined by `\n`.
pub open spec fn rendered_text(rendered: Seq<Seq<char>>) -> Seq<char> {
    join_spec(rendered, seq!['\n'])
}

/// A file's text after an append step: a newline is added first when the
/// file is not empty and does not end with one, then the rendered content.
pub open spec fn appended_spec(original: Seq<char>, rendered: Seq<Seq<char>>) -> Seq<char> {
    let base = if original.len() > 0 && original.last() != '\n' {
        original.push('\n')
    } else {
        original
    };
    base + rendered_text(rendered)
}

/// The index of the first line that contains `marker`.
pub open spec fn first_containing(lines: Seq<Seq<char>>, marker: Seq<char>) -> Option<int>
    decreases lines.len(),
{
    if lines.len() == 0 {
        None
    } else {
        match first_containing(lines.drop_last(), marker) {
            Some(i) => Some(i),
            None => if contains_spec(lines.last(), marker) {
                Some(lines.len() - 1)
            } else {
                None
            },
        }
    }
}

/// The lines of a file after an inject step, or `None` when the marker is
/// not found: the rendered lines go after the first line containing the
/// `after` marker, or before the first one containing the `before` marker
/// (`after` wins when both are given), or at the top when there is no marker.
pub open spec fn injected_spec(
    file_lines: Seq<Seq<char>>,
    rendered: Seq<Seq<char>>,
    after: Option<Seq<char>>,
    before: Option<Seq<char>>,
) -> Option<Seq<Seq<char>>> {
    let marker = match after {
        Some(a) => Some(a),
        None => before,
    };
    match marker {
        None => Some(rendered + file_lines),
        Some(m) => match first_containing(file_lines, m) {
            None => None,
            Some(idx) => {
                let at = if after is Some {
                    idx + 1
                } else {
                    idx
                };
                Some(file_lines.take(at) + rendered + file_lines.skip(at))
            },
        },
    }
}

/// What `first_containing` returns is the first line that contains the marker.
pub proof fn lemma_first_containing(lines: Seq<Seq<char>>, marker: Seq<char>)
    ensures
        match first_containing(lines, marker) {
            Some(i) => 0 <= i < lines.len() && contains_spec(lines[i], marker) && forall|j: int|
                0 <= j < i ==> !contains_spec(#[trigger] lines[j], marker),
            None => forall|j: int| 0 <= j < lines.len() ==> !contains_spec(#[trigger] lines[j], marker),
        },
    decreases lines.len(),
{
    if lines.len() > 0 {
        let init = lines.drop_last();
        lemma_first_containing(init, marker);
        assert forall|j: int| 0 <= j < init.len() implies init[j] == lines[j] by {}
    }
}

/// Where an inject step puts its lines: below the first line containing
/// the `after` marker, above the first one containing the `before` marker,
/// or at the top when there is no marker.
pub open spec fn insert_index(file_lines: Seq<Seq<char>>, after: Option<Seq<char>>, before: Option<Seq<char>>) -> int {
    let marker = match after {
        Some(a) => Some(a),
        None => before,
    };
    match marker {
        None => 0,
        Some(m) => match first_containing(file_lines, m) {
            None => 0,
            Some(idx) => if after is Some {
                idx + 1
            } else {
                idx
            },
        },
    }
}

/// An append step keeps the file's text: it is a prefix of what is written.
pub proof fn law_append_keeps_original(original: Seq<char>, rendered: Seq<Seq<char>>)
    ensures
        original.is_prefix_of(appended_spec(original, rendered)),
{
    let r = appended_spec(original, rendered);
    assert(r.subrange(0, original.len() as int) =~= original);
}

/// An inject step keeps every line of the file, in order, and inserts the
/// rendered lines as one block: removing that block gives the file back.
pub proof fn law_inject_keeps_lines(
    file_lines: Seq<Seq<char>>,
    rendered: Seq<Seq<char>>,
    after: Option<Seq<char>>,
    before: Option<Seq<char>>,
)
    ensures
        injected_spec(file_lines, rendered, after, before) matches Some(r) ==> {
            let at = insert_index(file_lines, after, before);
            &&& 0 <= at <= file_lines.len()
            &&& r.subrange(at, at + rendered.len()) == rendered
            &&& r.take(at) + r.skip(at + rendered.len()) == file_lines
        },
{
    let marker = match after {
        Some(a) => Some(a),
        None => before,
    };
    match marker {
        None => {
            let r = rendered + file_lines;
            let at: int = 0;
            assert(r.subrange(at, at + rendered.len()) =~= rendered);
            assert(r.take(at) + r.skip(at + rendered.len()) =~= file_lines);
            assert(injected_spec(file_lines, rendered, after, before) == Some(r));
        },
        Some(m) => {
            lemma_first_containing(file_lines, m);
            match first_containing(file_lines, m) {
                None => {},
                Some(idx) => {
                    let at = if after is Some {
                        idx + 1
                    } else {
                        idx
                    };
                    let r = file_lines.take(at) + rendered + file_lines.skip(at);
                    assert(r.subrange(at, at + rendered.len()) =~= rendered);
                    assert(r.take(at) + r.skip(at + rendered.len()) =~= file_lines);
                },
            }
        },
    }
}

/// The lines of a step's content, as they are handed to rendering.
pub fn content_lines(content: &str) -> (res: Vec<String>)
    ensures
        lines_view(res@) == lines_spec(content@),
{
    let parts = lines(&chars_of(content));
    let mut out: Vec<String> = Vec::new();
    let n = parts.len();
    for i in 0..n
        invariant
            n == parts@.len(),
            lines_view(out@) == pieces_view(parts@).take(i as int),
    {
        let ghost before = lines_view(out@);
        out.push(string_from_chars(parts[i].as_slice()));
        assert(lines_view(out@) =~= before.push(parts@[i as int]@));
        assert(pieces_view(parts@).take(i + 1) =~= pieces_view(parts@).take(i as int).push(
            parts@[i as int]@,
        ));
    }
    assert(pieces_view(parts@).take(n as int) == pieces_view(parts@));
    out
}

/// The characters of each line.
fn line_chars(v: &Vec<String>) -> (res: Vec<Vec<char>>)
    ensures
        pieces_view(res@) == lines_view(v@),
{
    let mut out: Vec<Vec<char>> = Vec::new();
    let n = v.len();
    for i in 0..n
        invariant
            n == v@.len(),
            pieces_view(out@) == lines_view(v@).take(i as int),
    {
        let ghost before = pieces_view(out@);
        out.push(chars_of(v[i].as_str()));
        assert(pieces_view(out@) =~= before.push(v@[i as int]@));
        assert(lines_view(v@).take(i + 1) =~= lines_view(v@).take(i as int).push(v@[i as int]@));
    }
    assert(lines_view(v@).take(n as int) == lines_view(v@));
    out
}

/// The rendered lines as one text, joined by `\n`.
pub fn render_text(rendered: &Vec<String>) -> (res: String)
    ensures
        res@ == rendered_text(lines_view(rendered@)),
{
    let mut nl: Vec<char> = Vec::new();
    nl.push('\n');
    assert(nl@ == seq!['\n']);
    let joined = join(&line_chars(rendered), &nl);
    string_from_chars(joined.as_slice())
}

/// The text an append step writes to a file whose text is `original`.
pub fn append_text(original: &str, rendered: &Vec<String>) -> (res: String)
    ensures
        res@ == appended_spec(original@, lines_view(rendered@)),
{
    let mut out = chars_of(original);
    let n = out.len();
    if n > 0 && out[n - 1] != '\n' {
        out.push('\n');
    }
    let tail = chars_of(render_text(rendered).as_str());
    crate::text::extend_chars(&mut out, tail.as_slice());
    string_from_chars(out.as_slice())
}

/// The index of the first line containing `marker`.
fn find_marker_line(file_lines: &Vec<Vec<char>>, marker: &Vec<char>) -> (res: Option<usize>)
    ensures
        match first_containing(pieces_view(file_lines@), marker@) {
            Some(i) => res == Some(i as usize),
            None => res is None,
        },
{
    let ghost ls = pieces_view(file_lines@);
    proof {
        lemma_first_containing(ls, marker@);
    }
    let n = file_lines.len();
    for i in 0..n
        invariant
            n == file_lines@.len(),
            ls == pieces_view(file_lines@),
            first_containing(ls.take(i as int), marker@) is None,
            match first_containing(ls, marker@) {
                Some(k) => 0 <= k < ls.len() && contains_spec(ls[k], marker@) && forall|j: int|
                    0 <= j < k ==> !contains_spec(#[trigger] ls[j], marker@),
                None => forall|j: int| 0 <= j < ls.len() ==> !contains_spec(#[trigger] ls[j], marker@),
            },
    {
        assert(ls.take(i + 1).drop_last() == ls.take(i as int));
        assert(ls.take(i + 1).last() == ls[i as int]);
        assert(file_lines@[i as int]@ == ls[i as int]);
        if crate::text::find_from(&file_lines[i], marker, 0).is_some() {
            proof {
                crate::text::lemma_find_spec(ls[i as int], marker@, 0);
                lemma_first_containing(ls.take(i + 1), marker@);
                assert(first_containing(ls.take(i + 1), marker@) == Some(i as int));
                match first_containing(ls, marker@) {
                    Some(k) => {
                        if k < i {
                            lemma_first_containing(ls.take(i as int), marker@);
                            assert(ls.take(i as int)[k] == ls[k]);
                        }
                        if k > i {
                            assert(!contains_spec(ls[i as int], marker@));
                        }
                    },
                    None => {
                        assert(!contains_spec(ls[i as int], marker@));
                    },
                }
            }
            return Some(i);
        } else {
            proof {
                crate::text::lemma_find_spec(ls[i as int], marker@, 0);
                assert(!contains_spec(ls[i as int], marker@)) by {
                    if contains_spec(ls[i as int], marker@) {
                        let w = choose|w: int| crate::text::occurs_at(ls[i as int], marker@, w);
                        assert(0 <= w);
                    }
                }
            }
        }
    }
    proof {
        assert(ls.take(n as int) == ls);
    }
    None
}

/// The text an inject step writes to a file whose text is `original`, or
/// `None` when its marker is not found there (the step's `if_not_found`
/// then decides).
pub fn inject_text(original: &str, rendered: &Vec<String>, after: Option<&str>, before: Option<&str>) -> (res: Option<String>)
    ensures
        match injected_spec(
            lines_spec(original@),
            lines_view(rendered@),
            match after {
                Some(a) => Some(a@),
                None => None,
            },
            match before {
                Some(b) => Some(b@),
                None => None,
            },
        ) {
            Some(ls) => res matches Some(s) && s@ == join_spec(ls, seq!['\n']),
            None => res is None,
        },
{
    let file_lines = lines(&chars_of(original));
    let new_lines = line_chars(rendered);
    let ghost fl = pieces_view(file_lines@);
    let ghost nl = pieces_view(new_lines@);
    let ghost av = match after {
        Some(a) => Some(a@),
        None => None,
    };
    let ghost bv = match before {
        Some(b) => Some(b@),
        None => None,
    };
    let ghost expected = injected_spec(fl, nl, av, bv);
    let marker: Option<&str> = match after {
        Some(a) => Some(a),
        None => before,
    };
    let mut out: Vec<Vec<char>> = Vec::new();
    match marker {
        None => {
            let k = new_lines.len();
            for i in 0..k
                invariant
                    k == new_lines@.len(),
                    pieces_view(out@) == nl.take(i as int),
                    nl == pieces_view(new_lines@),
            {
                let ghost b = pieces_view(out@);
                out.push(new_lines[i].clone());
                assert(pieces_view(out@) =~= b.push(nl[i as int]));
                assert(nl.take(i + 1) =~= nl.take(i as int).push(nl[i as int]));
            }
            let m = file_lines.len();
            for i in 0..m
                invariant
                    m == file_lines@.len(),
                    pieces_view(out@) == nl + fl.take(i as int),
                    fl == pieces_view(file_lines@),
            {
                let ghost b = pieces_view(out@);
                out.push(file_lines[i].clone());
                assert(pieces_view(out@) =~= b.push(fl[i as int]));
                assert(fl.take(i + 1) =~= fl.take(i as int).push(fl[i as int]));
            }
            assert(nl.take(k as int) == nl);
            assert(fl.take(m as int) == fl);
            assert(expected == Some(pieces_view(out@)));
        },
        Some(mk) => {
            let ghost mv = mk@;
            assert(av is Some ==> mv == av->0);
            assert(av is None ==> bv == Some(mv));
            proof {
                lemma_first_containing(fl, mv);
            }
            let idx = match find_marker_line(&file_lines, &chars_of(mk)) {
                Some(i) => i,
                None => {
                    return None;
                },
            };
            let m = file_lines.len();
            assert(idx < m);
            let at: usize = if after.is_some() {
                idx + 1
            } else {
                idx
            };
            for i in 0..at
                invariant
                    at <= m,
                    m == file_lines@.len(),
                    pieces_view(out@) == fl.take(i as int),
                    fl == pieces_view(file_lines@),
            {
                let ghost b = pieces_view(out@);
                out.push(file_lines[i].clone());
                assert(pieces_view(out@) =~= b.push(fl[i as int]));
                assert(fl.take(i + 1) =~= fl.take(i as int).push(fl[i as int]));
            }
            let k = new_lines.len();
            for i in 0..k
                invariant
                    k == new_lines@.len(),
                    pieces_view(out@) == fl.take(at as int) + nl.take(i as int),
                    nl == pieces_view(new_lines@),
            {
                let ghost b = pieces_view(out@);
                out.push(new_lines[i].clone());
                assert(pieces_view(out@) =~= b.push(nl[i as int]));
                assert(nl.take(i + 1) =~= nl.take(i as int).push(nl[i as int]));
            }
            assert(nl.take(k as int) == nl);
            for i in at..m
                invariant
                    at <= m,
                    m == file_lines@.len(),
                    pieces_view(out@) == fl.take(at as int) + nl + fl.subrange(at as int, i as int),
                    fl == pieces_view(file_lines@),
            {
                let ghost b = pieces_view(out@);
                out.push(file_lines[i].clone());
                assert(pieces_view(out@) =~= b.push(fl[i as int]));
                assert(fl.subrange(at as int, i + 1) =~= fl.subrange(at as int, i as int).push(
                    fl[i as int],
                ));
            }
            assert(fl.subrange(at as int, m as int) == fl.skip(at as int));
            assert(expected == Some(pieces_view(out@)));
        },
    }
    let mut sep: Vec<char> = Vec::new();
    sep.push('\n');
    assert(sep@ == seq!['\n']);
    let text = join(&out, &sep);
    Some(string_from_chars(text.as_slice()))
}

/// Why an inject step stops.
#[derive(Debug, Clone, Copy, PartialEq, Eq, Structural)]
pub enum InjectFailure {
    /// The marker is not in the file and the step says to fail.
    MarkerNotFound,
    /// The user chose to abort when asked about a missing marker.
    Aborted,
    /// The question about a missing marker got no answer: the prompt
    /// itself failed.
    Unanswered,
}

/// What an inject step does with one of its files.
#[derive(Debug)]
pub enum InjectAction {
    /// Keep the file's bytes to roll back, then write this text.
    Write(String),
    /// Leave the file as it is and go on with the next one.
    Skip,
    /// Warn that the marker is missing and ask whether to go on.
    Ask,
    /// Stop the step with this failure.
    Fail(InjectFailure),
}

/// What an inject step does with a file whose text is `original`: write
/// the injected text; or, when the marker is not found, what `if_not_found`
/// says: skip the file, fail, or ask.
pub fn inject_action(
    original: &str,
    rendered: &Vec<String>,
    after: Option<&str>,
    before: Option<&str>,
    if_not_found: IfNotFound,
) -> (res: InjectAction)
    ensures
        match injected_spec(
            lines_spec(original@),
            lines_view(rendered@),
            match after {
                Some(a) => Some(a@),
                None => None,
            },
            match before {
                Some(b) => Some(b@),
                None => None,
            },
        ) {
            Some(ls) => res matches InjectAction::Write(s) && s@ == join_spec(ls, seq!['\n']),
            None => match if_not_found {
                IfNotFound::Skip => res is Skip,
                IfNotFound::Error => res matches InjectAction::Fail(f) && f == InjectFailure::MarkerNotFound,
                IfNotFound::WarnAndAsk => res is Ask,
            },
        },
{
    match inject_text(original, rendered, after, before) {
        Some(s) => InjectAction::Write(s),
        None => match if_not_found {
            IfNotFound::Skip => InjectAction::Skip,
            IfNotFound::Error => InjectAction::Fail(InjectFailure::MarkerNotFound),
            IfNotFound::WarnAndAsk => InjectAction::Ask,
        },
    }
}

/// What follows the question about a missing marker: going on skips the
/// file, choosing to abort aborts the step, and a prompt that gave no
/// answer (`None`) stops the step with that failure.
pub fn after_missing_marker_answer(answer: Option<bool>) -> (res: InjectAction)
    ensures
        answer == Some(true) ==> res is Skip,
        answer == Some(false) ==> (res matches InjectAction::Fail(f) && f == InjectFailure::Aborted),
        answer is None ==> (res matches InjectAction::Fail(f) && f == InjectFailure::Unanswered),
{
    match answer {
        Some(true) => InjectAction::Skip,
        Some(false) => InjectAction::Fail(InjectFailure::Aborted),
        None => InjectAction::Fail(InjectFailure::Unanswered),
    }
}

/// The message of a failed inject step: `marker_debug` is the marker as
/// `Debug` renders it (quoted and escaped), `path` the file, and
/// `prompt_error` what the failed prompt reported.
pub fn inject_failure_message(failure: InjectFailure, marker_debug: &str, path: &str, prompt_error: &str) -> (res:
    String)
    ensures
        res@ == match failure {
            InjectFailure::MarkerNotFound => "Marker "@ + marker_debug@ + " not found in "@ + path@,
            InjectFailure::Aborted => "Aborted by user"@,
            InjectFailure::Unanswered => prompt_error@,
        },
{
    match failure {
        InjectFailure::MarkerNotFound => {
            let mut s = String::from_str("Marker ");
            s.append(marker_debug);
            s.append(" not found in ");
            s.append(path);
            s
        },
        InjectFailure::Aborted => String::from_str("Aborted by user"),
        InjectFailure::Unanswered => String::from_str(prompt_error),
    }
}

/// The rollbacks an inject step gathers over its first `n` files, each
/// (path, former bytes) for a file it wrote, or the failure that stopped it
/// (the rollbacks gathered until then are not returned with the failure).
/// A file whose question about a missing marker is still open stops the
/// step as unanswered.
pub open spec fn inject_outcome_spec(
    paths: Seq<String>,
    originals: Seq<Vec<u8>>,
    actions: Seq<InjectAction>,
    n: int,
) -> Result<Seq<(Seq<char>, Seq<u8>)>, InjectFailure>
    decreases n,
{
    if n <= 0 {
        Ok(Seq::empty())
    } else {
        match inject_outcome_spec(paths, originals, actions, n - 1) {
            Err(f) => Err(f),
            Ok(rs) => match actions[n - 1] {
                InjectAction::Write(_) => Ok(rs.push((paths[n - 1]@, originals[n - 1]@))),
                InjectAction::Fail(f) => Err(f),
                InjectAction::Ask => Err(InjectFailure::Unanswered),
                InjectAction::Skip => Ok(rs),
            },
        }
    }
}

/// Once the step has failed, it stays failed with the same failure.
proof fn lemma_outcome_err_persists(
    paths: Seq<String>,
    originals: Seq<Vec<u8>>,
    actions: Seq<InjectAction>,
    m: int,
    n: int,
    f: InjectFailure,
)
    requires
        0 <= m <= n,
        inject_outcome_spec(paths, originals, actions, m) == Err::<Seq<(Seq<char>, Seq<u8>)>, InjectFailure>(f),
    ensures
        inject_outcome_spec(paths, originals, actions, n) == Err::<Seq<(Seq<char>, Seq<u8>)>, InjectFailure>(f),
    decreases n - m,
{
    if m < n {
        lemma_outcome_err_persists(paths, originals, actions, m, n - 1, f);
    }
}

/// The path and former bytes a rollback restores, if it restores a file.
pub open spec fn restore_view(r: Rollback) -> (Seq<char>, Seq<u8>) {
    match r {
        Rollback::RestoreFile { path, original } => (path@, original@),
        _ => (Seq::empty(), Seq::empty()),
    }
}

/// The result of an inject step over its files, given what it does with
/// each (in order): the rollbacks restoring the files it wrote, or the
/// first failure.
pub fn inject_step_outcome(paths: &Vec<String>, originals: Vec<Vec<u8>>, actions: &Vec<InjectAction>) -> (res: Result<
    Vec<Rollback>,
    InjectFailure,
>)
    requires
        paths@.len() == originals@.len(),
        paths@.len() == actions@.len(),
    ensures
        match inject_outcome_spec(paths@, originals@, actions@, paths@.len() as int) {
            Ok(rs) => res matches Ok(v) && v@.len() == rs.len() && forall|i: int|
                0 <= i < rs.len() ==> (#[trigger] v@[i] is RestoreFile && restore_view(v@[i]) == rs[i]),
            Err(f) => res == Err::<Vec<Rollback>, InjectFailure>(f),
        },
{
    let ghost orig = originals@;
    let mut rest = originals;
    let mut out: Vec<Rollback> = Vec::new();
    let n = paths.len();
    let mut i: usize = 0;
    while i < n
        invariant
            n == paths@.len(),
            n == actions@.len(),
            orig.len() == n,
            orig == originals@,
            i <= n,
            rest@ == orig.skip(i as int),
            inject_outcome_spec(paths@, orig, actions@, i as int) matches Ok(rs) && out@.len() == rs.len()
                && forall|k: int| 0 <= k < rs.len() ==> (#[trigger] out@[k] is RestoreFile && restore_view(out@[k]) == rs[k]),
        decreases n - i,
    {
        let ghost before = out@;
        let original = rest.remove(0);
        assert(original == orig[i as int]);
        match &actions[i] {
            InjectAction::Write(_) => {
                out.push(Rollback::RestoreFile { path: paths[i].clone(), original });
                proof {
                    let rs = inject_outcome_spec(paths@, orig, actions@, i as int)->Ok_0;
                    assert forall|k: int| 0 <= k < rs.len() + 1 implies (#[trigger] out@[k] is RestoreFile
                        && restore_view(out@[k]) == rs.push((paths@[i as int]@, orig[i as int]@))[k]) by {
                        if k < rs.len() {
                            assert(out@[k] == before[k]);
                        }
                    }
                }
            },
            InjectAction::Fail(f) => {
                proof {
                    assert(actions@[i as int] == InjectAction::Fail(*f));
                    assert(inject_outcome_spec(paths@, orig, actions@, i + 1) == Err::<
                        Seq<(Seq<char>, Seq<u8>)>,
                        InjectFailure,
                    >(*f));
                    lemma_outcome_err_persists(paths@, orig, actions@, i + 1, n as int, *f);
                    assert(orig == originals@);
                }
                return Err(*f);
            },
            InjectAction::Ask => {
                proof {
                    assert(inject_outcome_spec(paths@, orig, actions@, i + 1) == Err::<
                        Seq<(Seq<char>, Seq<u8>)>,
                        InjectFailure,
                    >(InjectFailure::Unanswered));
                    lemma_outcome_err_persists(paths@, orig, actions@, i + 1, n as int, InjectFailure::Unanswered);
                    assert(orig == originals@);
                }
                return Err(InjectFailure::Unanswered);
            },
            InjectAction::Skip => {},
        }
        assert(rest@ =~= orig.skip(i + 1));
        i = i + 1;
    }
    Ok(out)
}

/// What a copy or create step does about its destination.
#[derive(Debug, Clone, Copy, PartialEq, Eq, Structural)]
pub enum WritePlan {
    /// The destination is new: write it, and delete it to roll back.
    CreateNew,
    /// The destination exists: keep its bytes to roll back, then write it.
    Overwrite,
    /// The destination exists: leave it, and write nothing.
    Skip,
    /// The destination exists: ask whether to overwrite it.
    Ask,
}

/// What a copy or create step does, given whether its destination exists.
pub fn write_plan(dest_exists: bool, if_exists: IfExists) -> (res: WritePlan)
    ensures
        !dest_exists ==> res == WritePlan::CreateNew,
        dest_exists ==> res == match if_exists {
            IfExists::Overwrite => WritePlan::Overwrite,
            IfExists::Skip => WritePlan::Skip,
            IfExists::Ask => WritePlan::Ask,
        },
{
    if !dest_exists {
        WritePlan::CreateNew
    } else {
        match if_exists {
            IfExists::Overwrite => WritePlan::Overwrite,
            IfExists::Skip => WritePlan::Skip,
            IfExists::Ask => WritePlan::Ask,
        }
    }
}

/// The plan once the user has answered the overwrite question.
pub fn after_answer(overwrite: bool) -> (res: WritePlan)
    ensures
        res == if overwrite {
            WritePlan::Overwrite
        } else {
            WritePlan::Skip
        },
{
    if overwrite {
        WritePlan::Overwrite
    } else {
        WritePlan::Skip
    }
}

/// What a copy or create step records to undo its write, once its plan is
/// settled: a new file is deleted again, an overwritten file gets its
/// former bytes back, and a step that writes nothing records nothing.
pub fn write_rollback(plan: WritePlan, path: &str, original: Vec<u8>) -> (res: Option<Rollback>)
    ensures
        plan == WritePlan::CreateNew ==> (res matches Some(Rollback::DeleteCreatedFile { path: p })
            && p@ == path@),
        plan == WritePlan::Overwrite ==> (res matches Some(Rollback::RestoreFile { path: p, original: o })
            && p@ == path@ && o@ == original@),
        plan == WritePlan::Skip || plan == WritePlan::Ask ==> res is None,
{
    match plan {
        WritePlan::CreateNew => Some(Rollback::DeleteCreatedFile { path: String::from_str(path) }),
        WritePlan::Overwrite => Some(Rollback::RestoreFile { path: String::from_str(path), original }),
        WritePlan::Skip => None,
        WritePlan::Ask => None,
    }
}

/// Why a rename or move step refuses to run.
#[derive(Debug, Clone, Copy, PartialEq, Eq, Structural)]
pub enum RelocateError {
    /// The source does not exist.
    SourceMissing,
    /// The destination already exists.
    DestinationExists,
}

/// The message of a refused rename or move.
pub fn relocate_error_message(err: RelocateError, from: &str, to: &str) -> (res: String)
    ensures
        res@ == match err {
            RelocateError::SourceMissing => from@ + " does not exist"@,
            RelocateError::DestinationExists => to@ + " already exists"@,
        },
{
    match err {
        RelocateError::SourceMissing => {
            let mut s = String::from_str(from);
            s.append(" does not exist");
            s
        },
        RelocateError::DestinationExists => {
            let mut s = String::from_str(to);
            s.append(" already exists");
            s
        },
    }
}

/// A rename or move of `from` to `to`: refused when `from` does not exist,
/// or else when `to` exists; otherwise undone by renaming `to` back to `from`.
pub fn relocate_plan(from: &str, to: &str, from_exists: bool, to_exists: bool) -> (res: Result<Rollback, RelocateError>)
    ensures
        !from_exists ==> res == Err::<Rollback, RelocateError>(RelocateError::SourceMissing),
        from_exists && to_exists ==> res == Err::<Rollback, RelocateError>(RelocateError::DestinationExists),
        from_exists && !to_exists ==> (res matches Ok(Rollback::RenameFile { from: f, to: t }) && f@ == to@ && t@ == from@),
{
    if !from_exists {
        return Err(RelocateError::SourceMissing);
    }
    if to_exists {
        return Err(RelocateError::DestinationExists);
    }
    Ok(Rollback::RenameFile { from: String::from_str(to), to: String::from_str(from) })
}

} // verus!
