//! Shell completion support: the shells, the snippets written into shell
//! configuration files, and the completion candidates offered for cached
//! templates and addons.

use vstd::prelude::*;
use vstd::string::*;

use crate::managed_block::{
    at_most_once, content_fits, exactly_once, crlf, crlf_at, law_marked_block_upsert, lf, managed_spec, marked_block, no_cr, no_crlf,
    no_lf,
};
use crate::manifest::AddonManifest;
use crate::order::{less_than, lemma_lt_total, lemma_lt_transitive, sorted_unique, str_lt, strictly_sorted};
use crate::paths::{join_path, join_spec};
use crate::template_cache::TemplatesCache;
use crate::text::{chars_of, contains_spec, occurs_at, pieces_view, replace_all, replace_spec, str_eq_chars, string_from_chars};

verus! {

/// The shells that completions can be installed for.
#[derive(Clone, Copy, Debug, Eq, PartialEq, Structural)]
pub enum CompletionShell {
    Bash,
    Zsh,
    Fish,
    PowerShell,
}

/// The name of a shell as the completion engine expects it.
pub open spec fn shell_env_name(s: CompletionShell) -> Seq<char> {
    match s {
        CompletionShell::Bash => "bash"@,
        CompletionShell::Zsh => "zsh"@,
        CompletionShell::Fish => "fish"@,
        CompletionShell::PowerShell => "powershell"@,
    }
}

impl CompletionShell {
    /// The name of this shell as the completion engine expects it.
    pub fn env_name(self) -> (res: &'static str)
        ensures
            res@ == shell_env_name(self),
    {
        match self {
            CompletionShell::Bash => "bash",
            CompletionShell::Zsh => "zsh",
            CompletionShell::Fish => "fish",
            CompletionShell::PowerShell => "powershell",
        }
    }
}

/// The environment variable that switches the binary into completion mode.
pub fn complete_env_var() -> (res: &'static str)
    ensures
        res@ == "COMPLETE"@,
{
    "COMPLETE"
}

/// The line that opens the managed completions block.
pub fn completions_start_marker() -> (res: &'static str)
    ensures
        res@ == start_marker_spec(),
{
    "# oxide completions start"
}

/// The line that closes the managed completions block.
pub fn completions_end_marker() -> (res: &'static str)
    ensures
        res@ == end_marker_spec(),
{
    "# oxide completions end"
}

/// The start marker, as text.
pub open spec fn start_marker_spec() -> Seq<char> {
    "# oxide completions start"@
}

/// The end marker, as text.
pub open spec fn end_marker_spec() -> Seq<char> {
    "# oxide completions end"@
}

/// The body of the zsh block: add a directory to `fpath` and start
/// completion.
pub open spec fn zsh_body_spec(dir: Seq<char>) -> Seq<char> {
    "fpath=("@ + dir + " $fpath)\nautoload -Uz compinit && compinit"@
}

/// The zsh block: the start marker line, the body and the end marker line.
pub open spec fn zsh_snippet_spec(dir: Seq<char>) -> Seq<char> {
    marked_block(start_marker_spec(), zsh_body_spec(dir), end_marker_spec())
}

/// The completion markers are single lines without `\r`, and neither
/// occurs in the other.
proof fn lemma_markers_apart()
    ensures
        no_cr(start_marker_spec()),
        no_lf(start_marker_spec()),
        no_cr(end_marker_spec()),
        no_lf(end_marker_spec()),
        start_marker_spec().len() > 0,
        end_marker_spec().len() > 0,
        !contains_spec(start_marker_spec(), end_marker_spec()),
        !contains_spec(end_marker_spec(), start_marker_spec()),
{
    reveal_strlit("# oxide completions start");
    reveal_strlit("# oxide completions end");
    let st = start_marker_spec();
    let en = end_marker_spec();
    assert forall|i: int| !occurs_at(st, en, i) by {
        if occurs_at(st, en, i) {
            assert(st.subrange(i, i + 23)[0] == en[0]);
            assert(st.subrange(i, i + 23)[20] == en[20]);
        }
    }
    assert(!contains_spec(en, st));
}

/// The zsh body holds no `\r\n` when the directory holds none, and ends
/// in `compinit`.
proof fn lemma_zsh_body_lines(dir: Seq<char>)
    requires
        no_crlf(dir),
    ensures
        no_crlf(zsh_body_spec(dir)),
        zsh_body_spec(dir).last() != '\r',
{
    reveal_strlit("fpath=(");
    reveal_strlit(" $fpath)\nautoload -Uz compinit && compinit");
    let pre = "fpath=("@;
    let post = " $fpath)\nautoload -Uz compinit && compinit"@;
    let body = zsh_body_spec(dir);
    let d = dir.len() as int;
    assert(no_cr(pre));
    assert(no_cr(post));
    assert forall|i: int| 0 <= i && i + 1 < body.len() implies !#[trigger] crlf_at(body, i) by {
        if i < 7 {
            assert(body[i] == pre[i]);
        } else if i + 1 < 7 + d {
            assert(body[i] == dir[i - 7] && body[i + 1] == dir[i - 6]);
            assert(!crlf_at(dir, i - 7));
        } else if i < 7 + d {
            assert(body[i + 1] == post[0]);
        } else {
            assert(body[i] == post[i - 7 - d]);
        }
    }
    assert(body.last() == post[post.len() - 1]);
}

/// Updating a zsh configuration twice with the same completions directory
/// writes nothing the second time: the second upsert gives back its input,
/// so `managed_update` returns `None`. After an update of content that held
/// the start marker at most once (no block yet, or one block), the start
/// marker occurs exactly once.
pub proof fn law_zsh_config_update_idempotent(content: Seq<char>, dir: Seq<char>)
    requires
        content_fits(content, start_marker_spec(), end_marker_spec()),
        no_crlf(dir),
        !contains_spec(zsh_body_spec(dir), start_marker_spec()),
        !contains_spec(zsh_body_spec(dir), end_marker_spec()),
    ensures
        managed_spec(
            managed_spec(content, zsh_snippet_spec(dir), start_marker_spec(), end_marker_spec()),
            zsh_snippet_spec(dir),
            start_marker_spec(),
            end_marker_spec(),
        ) == managed_spec(content, zsh_snippet_spec(dir), start_marker_spec(), end_marker_spec()),
        at_most_once(replace_spec(content, crlf(), lf()), start_marker_spec()) ==> exactly_once(
            managed_spec(content, zsh_snippet_spec(dir), start_marker_spec(), end_marker_spec()),
            start_marker_spec(),
        ),
{
    lemma_markers_apart();
    lemma_zsh_body_lines(dir);
    law_marked_block_upsert(content, start_marker_spec(), zsh_body_spec(dir), end_marker_spec());
}

/// The zsh block for `fpath_dir`.
pub fn zsh_fpath_snippet(fpath_dir: &str) -> (res: String)
    ensures
        res@ == zsh_snippet_spec(fpath_dir@),
{
    let mut s = String::from_str(completions_start_marker());
    s.append("\n");
    s.append("fpath=(");
    s.append(fpath_dir);
    s.append(" $fpath)\nautoload -Uz compinit && compinit");
    s.append("\n");
    s.append(completions_end_marker());
    proof {
        reveal_strlit("\n");
    }
    assert(s@ =~= zsh_snippet_spec(fpath_dir@));
    s
}

/// A path inside PowerShell single quotes: each `'` doubled.
pub open spec fn single_quoted_spec(path: Seq<char>) -> Seq<char> {
    replace_spec(path, seq!['\''], seq!['\'', '\''])
}

/// Escapes a path for a PowerShell single-quoted string.
pub fn powershell_single_quote(path: &str) -> (res: String)
    ensures
        res@ == single_quoted_spec(path@),
{
    let v = chars_of(path);
    let mut q: Vec<char> = Vec::new();
    q.push('\'');
    let mut qq: Vec<char> = Vec::new();
    qq.push('\'');
    qq.push('\'');
    assert(q@ == seq!['\'']);
    assert(qq@ == seq!['\'', '\'']);
    let r = replace_all(&v, &q, &qq);
    string_from_chars(r.as_slice())
}

/// The PowerShell profile block that loads the completion script.
pub open spec fn powershell_snippet_spec(script_path: Seq<char>) -> Seq<char> {
    start_marker_spec() + "\n$oxideCompletionScript = '"@ + single_quoted_spec(script_path)
        + "'\nif (Test-Path $oxideCompletionScript) {\n. $oxideCompletionScript\n}\n"@
        + end_marker_spec()
}

/// The PowerShell profile block for `script_path`.
pub fn powershell_profile_snippet(script_path: &str) -> (res: String)
    ensures
        res@ == powershell_snippet_spec(script_path@),
{
    let quoted = powershell_single_quote(script_path);
    let mut s = String::from_str(completions_start_marker());
    s.append("\n$oxideCompletionScript = '");
    s.append(quoted.as_str());
    s.append("'\nif (Test-Path $oxideCompletionScript) {\n. $oxideCompletionScript\n}\n");
    s.append(completions_end_marker());
    s
}

/// The two PowerShell profiles under a Documents directory: PowerShell 7
/// first, then Windows PowerShell.
pub fn powershell_profile_paths_in(documents_dir: &str) -> (res: Vec<String>)
    ensures
        res@.len() == 2,
        res@[0]@ == join_spec(join_spec(documents_dir@, "PowerShell"@), "Microsoft.PowerShell_profile.ps1"@),
        res@[1]@ == join_spec(
            join_spec(documents_dir@, "WindowsPowerShell"@),
            "Microsoft.PowerShell_profile.ps1"@,
        ),
{
    let core = join_path(documents_dir, "PowerShell");
    let desktop = join_path(documents_dir, "WindowsPowerShell");
    let mut v: Vec<String> = Vec::new();
    v.push(join_path(core.as_str(), "Microsoft.PowerShell_profile.ps1"));
    v.push(join_path(desktop.as_str(), "Microsoft.PowerShell_profile.ps1"));
    v
}

/// The text of each string.
pub open spec fn texts(v: Seq<String>) -> Seq<Seq<char>> {
    v.map_values(|s: String| s@)
}

/// The names of the cached templates, without duplicates, in increasing order.
pub fn installed_template_names(cache: &TemplatesCache) -> (res: Vec<String>)
    ensures
        strictly_sorted(texts(res@)),
        forall|y: Seq<char>|
            texts(res@).contains(y) <==> exists|i: int|
                0 <= i < cache@.len() && cache@[i].name == y,
{
    let mut names: Vec<Vec<char>> = Vec::new();
    let n = cache.templates.len();
    for i in 0..n
        invariant
            n == cache.templates@.len(),
            pieces_view(names@) == cache@.take(i as int).map_values(
                |t: crate::template_cache::TemplateModel| t.name,
            ),
    {
        assert(cache@[i as int] == cache.templates@[i as int]@);
        let ghost prev = pieces_view(names@);
        let nm = chars_of(cache.templates[i].name.as_str());
        assert(nm@ == cache@[i as int].name);
        names.push(nm);
        assert(pieces_view(names@) =~= prev.push(cache@[i as int].name));
        assert(cache@.take(i + 1) =~= cache@.take(i as int).push(cache@[i as int]));
        assert(pieces_view(names@) =~= cache@.take(i + 1).map_values(
            |t: crate::template_cache::TemplateModel| t.name,
        ));
    }
    assert(cache@.take(n as int) == cache@);
    let sorted = sorted_unique(&names);
    let mut out: Vec<String> = Vec::new();
    let m = sorted.len();
    for i in 0..m
        invariant
            m == sorted@.len(),
            texts(out@) == pieces_view(sorted@).take(i as int),
    {
        let ghost prev = texts(out@);
        let t = string_from_chars(sorted[i].as_slice());
        assert(t@ == pieces_view(sorted@)[i as int]);
        out.push(t);
        assert(texts(out@) =~= prev.push(pieces_view(sorted@)[i as int]));
        assert(pieces_view(sorted@).take(i + 1) =~= pieces_view(sorted@).take(i as int).push(
            pieces_view(sorted@)[i as int],
        ));
    }
    assert(pieces_view(sorted@).take(m as int) == pieces_view(sorted@));
    proof {
        let names_v = cache@.map_values(|t: crate::template_cache::TemplateModel| t.name);
        assert forall|y: Seq<char>| texts(out@).contains(y) <==> exists|i: int|
            0 <= i < cache@.len() && cache@[i].name == y by {
            if names_v.contains(y) {
                let k = choose|k: int| 0 <= k < names_v.len() && names_v[k] == y;
                assert(cache@[k].name == y);
            }
            if exists|i: int| 0 <= i < cache@.len() && cache@[i].name == y {
                let k = choose|k: int| 0 <= k < cache@.len() && cache@[k].name == y;
                assert(names_v[k] == y);
            }
        }
    }
    out
}

/// The (name, description) of each command.
pub open spec fn manifest_command_pairs(cs: Seq<crate::manifest::AddonCommand>) -> Seq<(Seq<char>, Seq<char>)> {
    cs.map_values(|c: crate::manifest::AddonCommand| (c.name@, c.description@))
}

/// The (name, description) of every command of every variant, in order.
pub open spec fn variant_commands(vs: Seq<crate::manifest::Variant>) -> Seq<(Seq<char>, Seq<char>)>
    decreases vs.len(),
{
    if vs.len() == 0 {
        Seq::empty()
    } else {
        variant_commands(vs.drop_last()) + manifest_command_pairs(vs.last().commands@)
    }
}

/// The description kept for `name`: the first non-empty description among
/// the commands with that name, or empty when they all are.
pub open spec fn merged_description(cmds: Seq<(Seq<char>, Seq<char>)>, name: Seq<char>) -> Seq<char>
    decreases cmds.len(),
{
    if cmds.len() == 0 {
        Seq::empty()
    } else {
        let earlier = merged_description(cmds.drop_last(), name);
        if earlier.len() == 0 && cmds.last().0 == name {
            cmds.last().1
        } else {
            earlier
        }
    }
}

/// The names of a list of (name, description) pairs.
pub open spec fn names_of(l: Seq<(Seq<char>, Seq<char>)>) -> Seq<Seq<char>> {
    l.map_values(|p: (Seq<char>, Seq<char>)| p.0)
}

/// The key of a pair: its name.
pub open spec fn pair_name() -> spec_fn((Seq<char>, Seq<char>)) -> Seq<char> {
    |p: (Seq<char>, Seq<char>)| p.0
}

/// `p` inserted before the first element whose name comes after its name.
pub open spec fn sorted_insert(l: Seq<(Seq<char>, Seq<char>)>, p: (Seq<char>, Seq<char>)) -> Seq<(Seq<char>, Seq<char>)>
    decreases l.len(),
{
    if l.len() == 0 {
        seq![p]
    } else if str_lt(p.0, l[0].0) {
        seq![p] + l
    } else {
        seq![l[0]] + sorted_insert(l.drop_first(), p)
    }
}

/// One command merged into the list (as `BTreeMap::entry` with
/// `and_modify`/`or_insert` does): a new name is added in order; an existing
/// entry with an empty description takes a non-empty one; otherwise the
/// list is unchanged.
pub open spec fn merge_step(l: Seq<(Seq<char>, Seq<char>)>, p: (Seq<char>, Seq<char>)) -> Seq<(Seq<char>, Seq<char>)> {
    match crate::keyed::first_index(l, pair_name(), p.0) {
        Some(i) => if l[i].1.len() == 0 && p.1.len() > 0 {
            l.update(i, p)
        } else {
            l
        },
        None => sorted_insert(l, p),
    }
}

/// All commands merged, in order.
pub open spec fn merge_spec(cmds: Seq<(Seq<char>, Seq<char>)>) -> Seq<(Seq<char>, Seq<char>)>
    decreases cmds.len(),
{
    if cmds.len() == 0 {
        Seq::empty()
    } else {
        merge_step(merge_spec(cmds.drop_last()), cmds.last())
    }
}

/// A command of an installed addon, as offered for completion.
#[derive(Clone, Debug, PartialEq, Eq)]
pub struct InstalledAddonCommand {
    pub name: String,
    pub description: String,
}

/// An installed addon, as offered for completion.
#[derive(Clone, Debug, PartialEq, Eq)]
pub struct InstalledAddonCompletion {
    pub id: String,
    pub name: String,
    pub version: String,
    pub commands: Vec<InstalledAddonCommand>,
}

/// The (name, description) pairs of a list of commands.
pub open spec fn command_pairs(v: Seq<InstalledAddonCommand>) -> Seq<(Seq<char>, Seq<char>)> {
    v.map_values(|c: InstalledAddonCommand| (c.name@, c.description@))
}

/// Inserting at a position between smaller and larger names is `sorted_insert`.
proof fn lemma_sorted_insert_at(l: Seq<(Seq<char>, Seq<char>)>, p: (Seq<char>, Seq<char>), i: int)
    requires
        0 <= i <= l.len(),
        forall|j: int| 0 <= j < i ==> !str_lt(p.0, #[trigger] l[j].0),
        i < l.len() ==> str_lt(p.0, l[i].0),
    ensures
        sorted_insert(l, p) == l.insert(i, p),
    decreases l.len(),
{
    if l.len() == 0 {
        assert(l.insert(i, p) =~= seq![p]);
    } else if i == 0 {
        assert(l.insert(0, p) =~= seq![p] + l);
    } else {
        assert(!str_lt(p.0, l[0].0));
        let t = l.drop_first();
        assert forall|j: int| 0 <= j < i - 1 implies !str_lt(p.0, #[trigger] t[j].0) by {
            assert(t[j] == l[j + 1]);
        }
        if i - 1 < t.len() {
            assert(t[i - 1] == l[i]);
        }
        lemma_sorted_insert_at(t, p, i - 1);
        assert(seq![l[0]] + t.insert(i - 1, p) =~= l.insert(i, p));
    }
}

/// Merging keeps the names strictly sorted.
proof fn lemma_merge_sorted(
    r: Seq<(Seq<char>, Seq<char>)>,
    l: Seq<(Seq<char>, Seq<char>)>,
    p: (Seq<char>, Seq<char>),
)
    requires
        r == merge_step(merge_spec(l), p),
        strictly_sorted(names_of(merge_spec(l))),
    ensures
        strictly_sorted(names_of(r)),
{
    let m = merge_spec(l);
    crate::keyed::lemma_first_index(m, pair_name(), p.0);
    match crate::keyed::first_index(m, pair_name(), p.0) {
        Some(i) => {
            if m[i].1.len() == 0 && p.1.len() > 0 {
                assert(names_of(r) =~= names_of(m));
            }
        },
        None => {
            lemma_sorted_insert_sorted(m, p);
        },
    }
}

/// Inserting a new name keeps the names strictly sorted.
proof fn lemma_sorted_insert_sorted(l: Seq<(Seq<char>, Seq<char>)>, p: (Seq<char>, Seq<char>))
    requires
        strictly_sorted(names_of(l)),
        forall|j: int| 0 <= j < l.len() ==> l[j].0 != p.0,
    ensures
        strictly_sorted(names_of(sorted_insert(l, p))),
        sorted_insert(l, p).len() == l.len() + 1,
        forall|j: int|
            0 <= j < sorted_insert(l, p).len() ==> (sorted_insert(l, p)[j] == p || exists|k: int|
                0 <= k < l.len() && l[k] == #[trigger] sorted_insert(l, p)[j]),
        sorted_insert(l, p).contains(p),
        forall|k: int| 0 <= k < l.len() ==> sorted_insert(l, p).contains(#[trigger] l[k]),
    decreases l.len(),
{
    if l.len() == 0 {
        assert(sorted_insert(l, p)[0] == p);
    } else if str_lt(p.0, l[0].0) {
        let r = seq![p] + l;
        assert forall|a: int, b: int| 0 <= a < b < r.len() implies str_lt(names_of(r)[a], names_of(r)[b]) by {
            if a == 0 {
                if b > 1 {
                    assert(names_of(l)[0] == l[0].0);
                    assert(names_of(l)[b - 1] == l[b - 1].0);
                    lemma_lt_transitive(p.0, l[0].0, l[b - 1].0);
                }
            } else {
                assert(names_of(l)[a - 1] == l[a - 1].0);
                assert(names_of(l)[b - 1] == l[b - 1].0);
            }
        }
        assert forall|j: int| 0 <= j < r.len() implies (r[j] == p || exists|k: int|
            0 <= k < l.len() && l[k] == #[trigger] r[j]) by {
            if j > 0 {
                assert(l[j - 1] == r[j]);
            }
        }
        assert(r[0] == p);
        assert forall|k: int| 0 <= k < l.len() implies r.contains(#[trigger] l[k]) by {
            assert(r[k + 1] == l[k]);
        }
    } else {
        let t = l.drop_first();
        assert(strictly_sorted(names_of(t))) by {
            assert forall|a: int, b: int| 0 <= a < b < t.len() implies str_lt(names_of(t)[a], names_of(t)[b]) by {
                assert(names_of(l)[a + 1] == names_of(t)[a]);
                assert(names_of(l)[b + 1] == names_of(t)[b]);
            }
        }
        assert forall|j: int| 0 <= j < t.len() implies t[j].0 != p.0 by {
            assert(t[j] == l[j + 1]);
        }
        lemma_sorted_insert_sorted(t, p);
        let it = sorted_insert(t, p);
        let r = seq![l[0]] + it;
        lemma_lt_total(l[0].0, p.0);
        assert forall|a: int, b: int| 0 <= a < b < r.len() implies str_lt(names_of(r)[a], names_of(r)[b]) by {
            if a == 0 {
                let x = it[b - 1];
                if x == p {
                } else {
                    let k = choose|k: int| 0 <= k < t.len() && t[k] == x;
                    assert(names_of(l)[0] == l[0].0);
                    assert(names_of(l)[k + 1] == t[k].0);
                }
            } else {
                assert(names_of(it)[a - 1] == names_of(r)[a]);
                assert(names_of(it)[b - 1] == names_of(r)[b]);
            }
        }
        assert forall|j: int| 0 <= j < r.len() implies (r[j] == p || exists|k: int|
            0 <= k < l.len() && l[k] == #[trigger] r[j]) by {
            if j == 0 {
                assert(l[0] == r[0]);
            } else {
                let x = it[j - 1];
                assert(r[j] == x);
                if x != p {
                    let k = choose|k: int| 0 <= k < t.len() && t[k] == x;
                    assert(l[k + 1] == x);
                }
            }
        }
        let jp = choose|j: int| 0 <= j < it.len() && it[j] == p;
        assert(r[jp + 1] == p);
        assert(r[0] == l[0]);
        assert forall|k: int| 0 <= k < l.len() implies r.contains(#[trigger] l[k]) by {
            if k > 0 {
                assert(t[k - 1] == l[k]);
                assert(it.contains(t[k - 1]));
                let j = choose|j: int| 0 <= j < it.len() && it[j] == t[k - 1];
                assert(r[j + 1] == l[k]);
            }
        }
    }
}

/// A name that no command has gets no description.
proof fn lemma_merged_description_absent(cmds: Seq<(Seq<char>, Seq<char>)>, name: Seq<char>)
    requires
        forall|k: int| 0 <= k < cmds.len() ==> cmds[k].0 != name,
    ensures
        merged_description(cmds, name).len() == 0,
    decreases cmds.len(),
{
    if cmds.len() > 0 {
        assert forall|k: int| 0 <= k < cmds.drop_last().len() implies cmds.drop_last()[k].0 != name by {
            assert(cmds.drop_last()[k] == cmds[k]);
        }
        lemma_merged_description_absent(cmds.drop_last(), name);
    }
}

/// What the merged commands are, directly: strictly sorted by name, one
/// entry for each name that some command has, and for each name the first
/// non-empty description among its commands (empty when there is none).
pub proof fn law_merged_commands(cmds: Seq<(Seq<char>, Seq<char>)>)
    ensures
        strictly_sorted(names_of(merge_spec(cmds))),
        forall|y: Seq<char>| names_of(merge_spec(cmds)).contains(y) <==> names_of(cmds).contains(y),
        forall|i: int|
            0 <= i < merge_spec(cmds).len() ==> #[trigger] merge_spec(cmds)[i].1 == merged_description(
                cmds,
                merge_spec(cmds)[i].0,
            ),
    decreases cmds.len(),
{
    if cmds.len() > 0 {
        let c0 = cmds.drop_last();
        let p = cmds.last();
        law_merged_commands(c0);
        let m = merge_spec(c0);
        let r = merge_spec(cmds);
        lemma_merge_sorted(r, c0, p);
        crate::keyed::lemma_first_index(m, pair_name(), p.0);
        assert(names_of(cmds) =~= names_of(c0).push(p.0));
        match crate::keyed::first_index(m, pair_name(), p.0) {
            Some(i) => {
                assert forall|j: int| 0 <= j < r.len() implies r[j].0 == m[j].0 by {}
                assert(names_of(r) =~= names_of(m));
                assert(names_of(m)[i] == p.0);
                assert forall|y: Seq<char>| names_of(r).contains(y) <==> names_of(cmds).contains(y) by {
                    if names_of(m).contains(y) {
                        assert(names_of(c0).contains(y));
                        let k2 = choose|k2: int| 0 <= k2 < names_of(c0).len() && names_of(c0)[k2] == y;
                        assert(names_of(cmds)[k2] == y);
                    }
                    if names_of(cmds).contains(y) {
                        let k = choose|k: int| 0 <= k < names_of(cmds).len() && names_of(cmds)[k] == y;
                        if k < c0.len() {
                            assert(names_of(c0)[k] == y);
                            assert(names_of(c0).contains(y));
                        }
                    }
                }
                assert forall|j: int| 0 <= j < r.len() implies #[trigger] r[j].1 == merged_description(
                    cmds,
                    r[j].0,
                ) by {
                    assert(m[j].1 == merged_description(c0, m[j].0));
                    if j != i {
                        assert(r[j] == m[j]);
                        assert(names_of(m)[j] == m[j].0);
                        assert(names_of(m)[i] == m[i].0);
                        crate::order::lemma_lt_irreflexive(m[i].0);
                        if j < i {
                            assert(str_lt(names_of(m)[j], names_of(m)[i]));
                        } else {
                            assert(str_lt(names_of(m)[i], names_of(m)[j]));
                        }
                        assert(m[j].0 != p.0);
                    } else {
                        if m[i].1.len() == 0 && p.1.len() == 0 {
                            assert(m[i].1 =~= p.1);
                        }
                    }
                }
            },
            None => {
                assert forall|k: int| 0 <= k < c0.len() implies c0[k].0 != p.0 by {
                    if c0[k].0 == p.0 {
                        assert(names_of(c0)[k] == p.0);
                        assert(names_of(c0).contains(p.0));
                        assert(names_of(m).contains(p.0));
                        let j = choose|j: int| 0 <= j < names_of(m).len() && names_of(m)[j] == p.0;
                        assert(m[j].0 == p.0);
                    }
                }
                lemma_merged_description_absent(c0, p.0);
                assert forall|k: int| 0 <= k < m.len() implies m[k].0 != p.0 by {}
                lemma_sorted_insert_sorted(m, p);
                assert(r == sorted_insert(m, p));
                assert forall|y: Seq<char>| names_of(r).contains(y) <==> names_of(cmds).contains(y) by {
                    if names_of(r).contains(y) {
                        let j = choose|j: int| 0 <= j < names_of(r).len() && names_of(r)[j] == y;
                        if r[j] != p {
                            let k = choose|k: int| 0 <= k < m.len() && m[k] == r[j];
                            assert(names_of(m)[k] == y);
                            assert(names_of(m).contains(y));
                            assert(names_of(c0).contains(y));
                            let k2 = choose|k2: int| 0 <= k2 < names_of(c0).len() && names_of(c0)[k2] == y;
                            assert(names_of(cmds)[k2] == y);
                        } else {
                            assert(names_of(cmds)[c0.len() as int] == y);
                        }
                    }
                    if names_of(cmds).contains(y) {
                        let k = choose|k: int| 0 <= k < names_of(cmds).len() && names_of(cmds)[k] == y;
                        if k < c0.len() {
                            assert(names_of(c0)[k] == y);
                            assert(names_of(c0).contains(y));
                            assert(names_of(m).contains(y));
                            let j = choose|j: int| 0 <= j < names_of(m).len() && names_of(m)[j] == y;
                            assert(r.contains(m[j]));
                            let q = choose|q: int| 0 <= q < r.len() && r[q] == m[j];
                            assert(names_of(r)[q] == y);
                        } else {
                            let q = choose|q: int| 0 <= q < r.len() && r[q] == p;
                            assert(names_of(r)[q] == y);
                        }
                    }
                }
                assert forall|j: int| 0 <= j < r.len() implies #[trigger] r[j].1 == merged_description(
                    cmds,
                    r[j].0,
                ) by {
                    if r[j] != p {
                        let k = choose|k: int| 0 <= k < m.len() && m[k] == r[j];
                        assert(m[k].1 == merged_description(c0, m[k].0));
                    }
                }
            },
        }
    }
}

/// Merges one command into a list sorted by name.
fn merge_one(out: &mut Vec<InstalledAddonCommand>, name: &String, description: &String)
    requires
        strictly_sorted(names_of(command_pairs(old(out)@))),
    ensures
        command_pairs(final(out)@) == merge_step(command_pairs(old(out)@), (name@, description@)),
{
    let ghost before = command_pairs(out@);
    let ghost bn = names_of(before);
    let key = chars_of(name.as_str());
    let n = out.len();
    let mut i: usize = 0;
    loop
        invariant_except_break
            n == out@.len(),
            before == command_pairs(out@),
            before == command_pairs(old(out)@),
            bn == names_of(before),
            strictly_sorted(bn),
            key@ == name@,
            i <= n,
            forall|j: int| 0 <= j < i ==> str_lt(bn[j], key@),
        ensures
            n == out@.len(),
            before == command_pairs(out@),
            before == command_pairs(old(out)@),
            bn == names_of(before),
            strictly_sorted(bn),
            key@ == name@,
            i <= n,
            forall|j: int| 0 <= j < i ==> str_lt(bn[j], key@),
            i < n ==> str_lt(key@, bn[i as int]),
        decreases n - i,
    {
        if i >= n {
            break;
        }
        let cur = chars_of(out[i].name.as_str());
        assert(bn[i as int] == out@[i as int].name@);
        if str_eq_chars(&cur, &key) {
            proof {
                crate::keyed::lemma_first_index(before, pair_name(), name@);
                assert forall|j: int| 0 <= j < i implies before[j].0 != name@ by {
                    assert(bn[j] == before[j].0);
                    crate::order::lemma_lt_irreflexive(name@);
                }
                assert(crate::keyed::first_index(before, pair_name(), name@) == Some(i as int));
            }
            assert(before[i as int] == (out@[i as int].name@, out@[i as int].description@));
            if out[i].description.as_str().is_empty() && !description.as_str().is_empty() {
                let updated = InstalledAddonCommand { name: name.clone(), description: description.clone() };
                out.set(i, updated);
                assert(command_pairs(out@) =~= before.update(i as int, (name@, description@)));
                assert(command_pairs(out@) == merge_step(before, (name@, description@)));
            } else {
                assert(command_pairs(out@) == merge_step(before, (name@, description@)));
            }
            return;
        }
        if less_than(&key, &cur) {
            break;
        }
        proof {
            lemma_lt_total(bn[i as int], key@);
        }
        i = i + 1;
    }
    proof {
        crate::keyed::lemma_first_index(before, pair_name(), name@);
        assert forall|j: int| 0 <= j < before.len() implies before[j].0 != name@ by {
            assert(bn[j] == before[j].0);
            crate::order::lemma_lt_irreflexive(name@);
            if j > i {
                lemma_lt_transitive(key@, bn[i as int], bn[j]);
            }
        }
        assert forall|j: int| 0 <= j < i implies !str_lt(name@, #[trigger] before[j].0) by {
            assert(bn[j] == before[j].0);
            crate::order::lemma_lt_total(bn[j], key@);
        }
        if i < n {
            assert(bn[i as int] == before[i as int].0);
        }
        lemma_sorted_insert_at(before, (name@, description@), i as int);
    }
    out.insert(i, InstalledAddonCommand { name: name.clone(), description: description.clone() });
    assert(command_pairs(out@) =~= before.insert(i as int, (name@, description@)));
}

/// The help shown next to a cached template name.
pub fn installed_template_help() -> (res: &'static str)
    ensures
        res@ == "Installed template"@,
{
    "Installed template"
}

/// The help shown next to an installed addon: its name and version.
pub fn addon_help(name: &str, version: &str) -> (res: String)
    ensures
        res@ == "Installed addon: "@ + name@ + " v"@ + version@,
{
    let mut s = String::from_str("Installed addon: ");
    s.append(name);
    s.append(" v");
    s.append(version);
    s
}

/// The help shown next to an addon command: its description, or a generic
/// text when it has none.
pub fn command_about(description: &str) -> (res: String)
    ensures
        description@.len() == 0 ==> res@ == "Installed addon command"@,
        description@.len() > 0 ==> res@ == description@,
{
    if description.is_empty() {
        String::from_str("Installed addon command")
    } else {
        String::from_str(description)
    }
}

/// Ordered by id, ties kept in any order.
pub open spec fn sorted_by_id(s: Seq<InstalledAddonCompletion>) -> bool {
    forall|i: int, j: int| 0 <= i < j < s.len() ==> !str_lt(s[j].id@, s[i].id@)
}

/// The index before which `x` goes in `l`: that of the first addon whose id
/// is larger than `x`'s, so that `x` follows the addons with equal ids.
pub open spec fn first_greater(l: Seq<InstalledAddonCompletion>, x: InstalledAddonCompletion) -> int
    decreases l.len(),
{
    if l.len() == 0 {
        0
    } else if str_lt(x.id@, l[0].id@) {
        0
    } else {
        1 + first_greater(l.drop_first(), x)
    }
}

/// A stable sort by id: each addon in turn is inserted after the addons
/// already placed whose ids are not larger (what `sort_by` on the ids gives:
/// equal ids keep their order).
pub open spec fn stable_sort_by_id(s: Seq<InstalledAddonCompletion>) -> Seq<InstalledAddonCompletion>
    decreases s.len(),
{
    if s.len() == 0 {
        s
    } else {
        let l = stable_sort_by_id(s.drop_last());
        l.insert(first_greater(l, s.last()), s.last())
    }
}

/// The first larger id is where the scan stops.
proof fn lemma_first_greater(l: Seq<InstalledAddonCompletion>, x: InstalledAddonCompletion, i: int)
    requires
        0 <= i <= l.len(),
        forall|j: int| 0 <= j < i ==> !str_lt(x.id@, #[trigger] l[j].id@),
        i < l.len() ==> str_lt(x.id@, l[i].id@),
    ensures
        first_greater(l, x) == i,
    decreases i,
{
    if i > 0 {
        let t = l.drop_first();
        assert forall|j: int| 0 <= j < i - 1 implies !str_lt(x.id@, #[trigger] t[j].id@) by {
            assert(t[j] == l[j + 1]);
        }
        if i - 1 < t.len() {
            assert(t[i - 1] == l[i]);
        }
        lemma_first_greater(t, x, i - 1);
        assert(!str_lt(x.id@, l[0].id@));
    }
}

/// The id of an addon is taken: it names one of the `use` command's
/// subcommands (`existing`), or an addon kept before it.
pub open spec fn id_taken(existing: Seq<Seq<char>>, kept: Seq<InstalledAddonCompletion>, id: Seq<char>) -> bool {
    existing.contains(id) || exists|k: int| 0 <= k < kept.len() && #[trigger] kept[k].id@ == id
}

/// The addons whose commands join the `use` command, in order: each addon
/// whose id is not taken yet.
pub open spec fn use_additions(existing: Seq<Seq<char>>, addons: Seq<InstalledAddonCompletion>) -> Seq<
    InstalledAddonCompletion,
>
    decreases addons.len(),
{
    if addons.len() == 0 {
        Seq::empty()
    } else {
        let kept = use_additions(existing, addons.drop_last());
        if id_taken(existing, kept, addons.last().id@) {
            kept
        } else {
            kept.push(addons.last())
        }
    }
}

/// The addons to add as subcommands of `use`: an addon whose id already
/// names a subcommand of it (`existing`, names and aliases), or the id of
/// an addon added before, is left out.
pub fn addons_for_use(existing: &Vec<String>, addons: Vec<InstalledAddonCompletion>) -> (res: Vec<
    InstalledAddonCompletion,
>)
    ensures
        res@ == use_additions(texts(existing@), addons@),
{
    let ghost original = addons@;
    let ghost names = texts(existing@);
    let mut rest = addons;
    let mut out: Vec<InstalledAddonCompletion> = Vec::new();
    let ghost mut k: int = 0;
    assert(original.take(0) =~= Seq::<InstalledAddonCompletion>::empty());
    assert(original.skip(0) =~= original);
    while rest.len() > 0
        invariant
            0 <= k <= original.len(),
            rest@ == original.skip(k),
            out@ == use_additions(names, original.take(k)),
            names == texts(existing@),
        decreases rest@.len(),
    {
        let ghost rest_before = rest@;
        let x = rest.remove(0);
        assert(rest_before[0] == x);
        let mut taken = false;
        let mut i: usize = 0;
        while i < existing.len()
            invariant
                i <= existing@.len(),
                names == texts(existing@),
                taken <==> exists|j: int| 0 <= j < i && names[j] == x.id@,
            decreases existing@.len() - i,
        {
            if crate::text::str_eq(existing[i].as_str(), x.id.as_str()) {
                taken = true;
            }
            assert(names[i as int] == existing@[i as int]@);
            i = i + 1;
        }
        let mut j: usize = 0;
        while j < out.len()
            invariant
                j <= out@.len(),
                names == texts(existing@),
                taken <==> (exists|m: int| 0 <= m < existing@.len() && names[m] == x.id@) || exists|m: int|
                    0 <= m < j && #[trigger] out@[m].id@ == x.id@,
            decreases out@.len() - j,
        {
            if crate::text::str_eq(out[j].id.as_str(), x.id.as_str()) {
                taken = true;
            }
            j = j + 1;
        }
        proof {
            let t = original.take(k + 1);
            assert(t.drop_last() =~= original.take(k));
            assert(t.last() == x);
            assert(names.contains(x.id@) <==> exists|m: int| 0 <= m < existing@.len() && names[m] == x.id@);
            assert(taken == id_taken(names, out@, x.id@));
        }
        if !taken {
            out.push(x);
        }
        proof {
            k = k + 1;
            assert(rest@ =~= original.skip(k));
        }
    }
    assert(original.take(k) =~= original);
    out
}

/// The installed addons ordered by id (`sort_by` on the ids, which is
/// stable): the same addons, each one after every addon with a smaller id,
/// and addons with equal ids in their original order.
pub fn sort_addons_by_id(addons: Vec<InstalledAddonCompletion>) -> (res: Vec<InstalledAddonCompletion>)
    ensures
        res@ == stable_sort_by_id(addons@),
        sorted_by_id(res@),
        res@.to_multiset() == addons@.to_multiset(),
{
    broadcast use vstd::seq_lib::group_to_multiset_ensures;
    let ghost original = addons@;
    let mut rest = addons;
    let mut out: Vec<InstalledAddonCompletion> = Vec::new();
    let ghost mut k: int = 0;
    assert(original.take(0) =~= Seq::<InstalledAddonCompletion>::empty());
    assert(original.skip(0) =~= original);
    while rest.len() > 0
        invariant
            0 <= k <= original.len(),
            rest@ == original.skip(k),
            out@ == stable_sort_by_id(original.take(k)),
            sorted_by_id(out@),
            out@.to_multiset().add(rest@.to_multiset()) == original.to_multiset(),
        decreases rest@.len(),
    {
        let ghost rest_before = rest@;
        let x = rest.remove(0);
        proof {
            vstd::seq_lib::to_multiset_remove(rest_before, 0);
            assert(rest@ == rest_before.remove(0));
            assert(rest_before[0] == x);
        }
        let ghost out_start = out@;
        let key = chars_of(x.id.as_str());
        let n = out.len();
        let mut i: usize = 0;
        loop
            invariant_except_break
                n == out@.len(),
                i <= n,
                key@ == x.id@,
                forall|j: int| 0 <= j < i ==> !str_lt(key@, #[trigger] out@[j].id@),
            ensures
                n == out@.len(),
                i <= n,
                key@ == x.id@,
                forall|j: int| 0 <= j < i ==> !str_lt(key@, #[trigger] out@[j].id@),
                i < n ==> str_lt(key@, out@[i as int].id@),
            decreases n - i,
        {
            if i >= n {
                break;
            }
            let cur = chars_of(out[i].id.as_str());
            if less_than(&key, &cur) {
                break;
            }
            i = i + 1;
        }
        let ghost before = out@;
        let ghost xv = x;
        out.insert(i, x);
        proof {
            lemma_first_greater(before, xv, i as int);
            assert(original.take(k + 1).drop_last() =~= original.take(k));
            assert(original.take(k + 1).last() == xv);
            assert(rest@ =~= original.skip(k + 1));
            k = k + 1;
            broadcast use vstd::multiset::group_multiset_axioms;
            vstd::seq_lib::to_multiset_insert(before, i as int, xv);
            assert(out@ == before.insert(i as int, xv));
            assert(rest_before.contains(xv));
            rest_before.to_multiset_ensures();
            assert(rest_before.to_multiset().count(xv) > 0);
            assert(out@.to_multiset().add(rest@.to_multiset()) =~= out_start.to_multiset().add(
                rest_before.to_multiset(),
            ));
            assert forall|a: int, b: int| 0 <= a < b < out@.len() implies !str_lt(
                out@[b].id@,
                out@[a].id@,
            ) by {
                if b < i {
                    assert(out@[a] == before[a] && out@[b] == before[b]);
                } else if b == i {
                    assert(out@[a] == before[a]);
                    lemma_lt_total(before[a].id@, xv.id@);
                } else if a < i {
                    assert(out@[a] == before[a] && out@[b] == before[b - 1]);
                    lemma_lt_total(before[a].id@, xv.id@);
                    if str_lt(before[b - 1].id@, before[a].id@) {
                        // before[a] <= x < before[i] <= before[b - 1]
                        if b - 1 > i {
                            lemma_lt_total(before[i as int].id@, before[b - 1].id@);
                            if str_lt(before[b - 1].id@, before[i as int].id@) {
                            }
                        }
                        assert(str_lt(xv.id@, before[i as int].id@));
                        if str_lt(before[a].id@, xv.id@) {
                            lemma_lt_transitive(before[a].id@, xv.id@, before[i as int].id@);
                        }
                    }
                } else if a == i {
                    assert(out@[b] == before[b - 1]);
                    assert(str_lt(xv.id@, before[i as int].id@));
                    if b - 1 > i {
                        lemma_lt_total(before[i as int].id@, before[b - 1].id@);
                        if str_lt(before[b - 1].id@, xv.id@) {
                            lemma_lt_transitive(before[b - 1].id@, xv.id@, before[i as int].id@);
                        }
                    } else {
                        lemma_lt_total(xv.id@, before[i as int].id@);
                    }
                } else {
                    assert(out@[a] == before[a - 1] && out@[b] == before[b - 1]);
                }
            }
        }
    }
    assert(rest@.to_multiset() =~= vstd::multiset::Multiset::empty());
    assert(original.take(k) =~= original);
    out
}

/// The commands that an addon offers for completion: the commands of all
/// its variants merged by name, in name order.
pub fn addon_commands(manifest: &AddonManifest) -> (res: Vec<InstalledAddonCommand>)
    ensures
        command_pairs(res@) == merge_spec(variant_commands(manifest.variants@)),
        strictly_sorted(names_of(command_pairs(res@))),
{
    let mut out: Vec<InstalledAddonCommand> = Vec::new();
    let nv = manifest.variants.len();
    for vi in 0..nv
        invariant
            nv == manifest.variants@.len(),
            command_pairs(out@) == merge_spec(variant_commands(manifest.variants@.take(vi as int))),
            strictly_sorted(names_of(command_pairs(out@))),
    {
        let variant = &manifest.variants[vi];
        let ghost base = variant_commands(manifest.variants@.take(vi as int));
        let nc = variant.commands.len();
        for ci in 0..nc
            invariant
                nc == variant.commands@.len(),
                command_pairs(out@) == merge_spec(
                    base + manifest_command_pairs(variant.commands@).take(ci as int),
                ),
                strictly_sorted(names_of(command_pairs(out@))),
        {
            let c = &variant.commands[ci];
            let ghost pre = base + manifest_command_pairs(variant.commands@).take(ci as int);
            let ghost post = base + manifest_command_pairs(variant.commands@).take(ci + 1);
            assert(post =~= pre.push((c.name@, c.description@)));
            assert(post.drop_last() == pre);
            merge_one(&mut out, &c.name, &c.description);
            proof {
                lemma_merge_sorted(command_pairs(out@), pre, (c.name@, c.description@));
            }
        }
        assert(manifest_command_pairs(variant.commands@).take(nc as int) == manifest_command_pairs(
            variant.commands@,
        ));
        assert(manifest.variants@.take(vi + 1).drop_last() == manifest.variants@.take(vi as int));
        assert(manifest.variants@.take(vi + 1).last() == *variant);
    }
    assert(manifest.variants@.take(nv as int) == manifest.variants@);
    out
}

} // verus!
