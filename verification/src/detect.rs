//! Which variant of an addon fits a project: the first detection block whose
//! rules hold of the project's files.
//!
//! What is read of the project (whether a rule's file exists, and its text)
//! comes in as a `FileRead` per rule. The text is parsed here, in the rule's
//! format, and the parsed document is walked here too.

use vstd::prelude::*;

use crate::manifest::{DetectBlock, DetectRule, MatchMode};
use crate::text::{chars_of, contains, contains_spec, pieces_view, split_char, split_spec, str_eq};

verus! {

/// A parsed configuration document (JSON, TOML or YAML), as the rules read it.
#[derive(Debug)]
pub struct DocNode {
    /// The entries of a mapping, in the order the parser's map keeps them
    /// (key order for JSON and TOML, document order for YAML), each under
    /// its key when the key is text (`None` for a key of another kind); empty for a value
    /// that is not a mapping.
    pub entries: Vec<(Option<String>, DocNode)>,
    /// The text of a string value.
    pub text: Option<String>,
    /// How the document's format renders the value: what a rule's expected
    /// value is compared with when the value is not a string.
    pub rendered: String,
}

/// The mathematical content of a `DocNode`.
pub ghost struct DocModel {
    pub entries: Seq<(Option<Seq<char>>, DocModel)>,
    pub text: Option<Seq<char>>,
    pub rendered: Seq<char>,
}

/// The view of an optional text.
pub open spec fn opt_text(o: Option<String>) -> Option<Seq<char>> {
    match o {
        Some(s) => Some(s@),
        None => None,
    }
}

/// The model of a document node.
pub open spec fn doc_model(n: DocNode) -> DocModel
    decreases n, n.entries@.len() + 1,
{
    DocModel {
        entries: entries_model(n, n.entries@.len() as int),
        text: opt_text(n.text),
        rendered: n.rendered@,
    }
}

/// The models of the first `k` entries of a node.
pub open spec fn entries_model(n: DocNode, k: int) -> Seq<(Option<Seq<char>>, DocModel)>
    decreases n, k,
{
    if k <= 0 || k > n.entries@.len() {
        Seq::empty()
    } else {
        proof {
            broadcast use vstd::std_specs::vec::axiom_vec_index_decreases;

            assert(decreases_to!(n.entries => n.entries[k - 1]));
        }
        entries_model(n, k - 1).push((opt_text(n.entries@[k - 1].0), doc_model(n.entries@[k - 1].1)))
    }
}

impl View for DocNode {
    type V = DocModel;

    open spec fn view(&self) -> DocModel {
        doc_model(*self)
    }
}

/// The model of an optional document.
pub open spec fn opt_doc_view(o: Option<DocNode>) -> Option<DocModel> {
    match o {
        Some(d) => Some(d@),
        None => None,
    }
}

/// Each entry of the model is the model of the entry.
pub proof fn lemma_entries_model(n: DocNode, k: int)
    requires
        0 <= k <= n.entries@.len(),
    ensures
        entries_model(n, k).len() == k,
        forall|i: int|
            #![trigger entries_model(n, k)[i]]
            0 <= i < k ==> entries_model(n, k)[i] == (opt_text(n.entries@[i].0), n.entries@[i].1@),
    decreases k,
{
    if k > 0 {
        lemma_entries_model(n, k - 1);
        assert forall|i: int| #![trigger entries_model(n, k)[i]] 0 <= i < k implies entries_model(n, k)[i] == (
            opt_text(n.entries@[i].0),
            n.entries@[i].1@,
        ) by {
            if i < k - 1 {
                assert(entries_model(n, k)[i] == entries_model(n, k - 1)[i]);
            }
        }
    }
}

/// The document a text parses to as JSON (`serde_json::from_str` into a
/// `serde_json::Value`), if it is valid JSON.
pub uninterp spec fn json_document(text: Seq<char>) -> Option<DocModel>;

/// The document a text parses to as TOML (`toml::from_str` into a
/// `toml::Value`), if it is valid TOML.
pub uninterp spec fn toml_document(text: Seq<char>) -> Option<DocModel>;

/// The document a text parses to as YAML (`serde_yaml::from_str` into a
/// `serde_yaml::Value`), if it is valid YAML.
pub uninterp spec fn yaml_document(text: Seq<char>) -> Option<DocModel>;

#[verifier::external_type_specification]
#[verifier::external_body]
pub struct ExJsonValue(serde_json::Value);

#[verifier::external_type_specification]
#[verifier::external_body]
pub struct ExTomlValue(toml::Value);

#[verifier::external_type_specification]
#[verifier::external_body]
pub struct ExYamlValue(serde_yaml::Value);

/// A `serde_json::Value` as a document node: an object's members become the
/// entries, a string its text, and `Value::to_string` the rendering.
/// Nothing is stated of it here; `parse_json_document` states its result.
#[verifier::external_body]
fn json_node(v: &serde_json::Value) -> DocNode {
    let entries = match v {
        serde_json::Value::Object(m) => m.iter().map(|(k, c)| (Some(k.clone()), json_node(c))).collect(),
        _ => Vec::new(),
    };
    let text = match v {
        serde_json::Value::String(s) => Some(s.clone()),
        _ => None,
    };
    DocNode { entries, text, rendered: v.to_string() }
}

/// A `toml::Value` as a document node: a table's entries become the
/// entries, a string its text, and `Value::to_string` the rendering.
/// Nothing is stated of it here; `parse_toml_document` states its result.
#[verifier::external_body]
fn toml_node(v: &toml::Value) -> DocNode {
    let entries = match v {
        toml::Value::Table(t) => t.iter().map(|(k, c)| (Some(k.clone()), toml_node(c))).collect(),
        _ => Vec::new(),
    };
    let text = match v {
        toml::Value::String(s) => Some(s.clone()),
        _ => None,
    };
    DocNode { entries, text, rendered: v.to_string() }
}

/// A `serde_yaml::Value` as a document node: a mapping's entries (through
/// tags) become the entries, under their key when it is a plain string
/// (`Value::get` matches no tagged key); a string gives its text, and the
/// `Debug` rendering is the rendering.
/// Nothing is stated of it here; `parse_yaml_document` states its result.
#[verifier::external_body]
fn yaml_node(v: &serde_yaml::Value) -> DocNode {
    let entries = match v {
        serde_yaml::Value::Mapping(m) => m.iter().map(|(k, c)| (if let serde_yaml::Value::String(s) = k { Some(s.clone()) } else { None }, yaml_node(c))).collect(),
        serde_yaml::Value::Tagged(t) => yaml_node(&t.value).entries,
        _ => Vec::new(),
    };
    let text = match v {
        serde_yaml::Value::String(s) => Some(s.clone()),
        _ => None,
    };
    DocNode { entries, text, rendered: format!("{v:?}") }
}

/// `serde_json::from_str::<serde_json::Value>`, as a document.
/// Believed: the result is `json_document` of the text (a function of the
/// text alone), `None` exactly when the parse fails.
#[verifier::external_body]
fn parse_json_document(text: &str) -> (res: Option<DocNode>)
    ensures
        opt_doc_view(res) == json_document(text@),
{
    match serde_json::from_str::<serde_json::Value>(text) {
        Ok(v) => Some(json_node(&v)),
        Err(_) => None,
    }
}

/// `toml::from_str::<toml::Value>`, as a document.
/// Believed: the result is `toml_document` of the text (a function of the
/// text alone), `None` exactly when the parse fails.
#[verifier::external_body]
fn parse_toml_document(text: &str) -> (res: Option<DocNode>)
    ensures
        opt_doc_view(res) == toml_document(text@),
{
    match toml::from_str::<toml::Value>(text) {
        Ok(v) => Some(toml_node(&v)),
        Err(_) => None,
    }
}

/// `serde_yaml::from_str::<serde_yaml::Value>`, as a document.
/// Believed: the result is `yaml_document` of the text (a function of the
/// text alone), `None` exactly when the parse fails.
#[verifier::external_body]
fn parse_yaml_document(text: &str) -> (res: Option<DocNode>)
    ensures
        opt_doc_view(res) == yaml_document(text@),
{
    match serde_yaml::from_str::<serde_yaml::Value>(text) {
        Ok(v) => Some(yaml_node(&v)),
        Err(_) => None,
    }
}

/// What was read of a rule's file.
#[derive(Debug)]
pub struct FileRead {
    /// The file exists.
    pub exists: bool,
    /// The file's text, when it could be read as text.
    pub text: Option<String>,
}

/// What a rule works on: what was read of its file, and the document the
/// text parses to in the rule's format.
#[derive(Debug)]
pub struct FileProbe {
    pub exists: bool,
    pub text: Option<String>,
    pub doc: Option<DocNode>,
}

/// The document a rule reads from a file's text: the text parsed in the
/// rule's format; none for a rule without a format, an unreadable file or
/// a text that does not parse.
pub open spec fn rule_doc(rule: DetectRule, text: Option<Seq<char>>) -> Option<DocModel> {
    match text {
        None => None,
        Some(t) => match rule {
            DetectRule::JsonContains { .. } => json_document(t),
            DetectRule::TomlContains { .. } => toml_document(t),
            DetectRule::YamlContains { .. } => yaml_document(t),
            _ => None,
        },
    }
}

/// What a rule works on, from what was read of its file: the text is parsed
/// in the rule's format.
pub fn probe_for(rule: &DetectRule, exists: bool, text: Option<String>) -> (res: FileProbe)
    ensures
        res.exists == exists,
        res.text == text,
        opt_doc_view(res.doc) == rule_doc(*rule, opt_text(text)),
{
    let doc = match &text {
        None => None,
        Some(t) => match rule {
            DetectRule::JsonContains { .. } => parse_json_document(t.as_str()),
            DetectRule::TomlContains { .. } => parse_toml_document(t.as_str()),
            DetectRule::YamlContains { .. } => parse_yaml_document(t.as_str()),
            _ => None,
        },
    };
    FileProbe { exists, text, doc }
}

/// The index of the first entry under the text key `k`.
pub open spec fn first_key(es: Seq<(Option<Seq<char>>, DocModel)>, k: Seq<char>) -> Option<int>
    decreases es.len(),
{
    if es.len() == 0 {
        None
    } else {
        match first_key(es.drop_last(), k) {
            Some(i) => Some(i),
            None => if es.last().0 == Some(k) {
                Some(es.len() - 1)
            } else {
                None
            },
        }
    }
}

/// What `first_key` returns is the first entry under that key.
pub proof fn lemma_first_key(es: Seq<(Option<Seq<char>>, DocModel)>, k: Seq<char>)
    ensures
        match first_key(es, k) {
            Some(i) => 0 <= i < es.len() && es[i].0 == Some(k) && forall|j: int|
                0 <= j < i ==> es[j].0 != Some(k),
            None => forall|j: int| 0 <= j < es.len() ==> es[j].0 != Some(k),
        },
    decreases es.len(),
{
    if es.len() > 0 {
        let init = es.drop_last();
        lemma_first_key(init, k);
        assert forall|j: int| 0 <= j < init.len() implies init[j] == es[j] by {}
    }
}

/// The value under `key` in a document (`Value::get` with a text key): the
/// first entry under that key, none when it is not a mapping or lacks it.
pub open spec fn child(m: DocModel, key: Seq<char>) -> Option<DocModel> {
    match first_key(m.entries, key) {
        Some(i) => Some(m.entries[i].1),
        None => None,
    }
}

/// The value reached from `m` by following `keys` in order.
pub open spec fn lookup_keys(m: DocModel, keys: Seq<Seq<char>>) -> Option<DocModel>
    decreases keys.len(),
{
    if keys.len() == 0 {
        Some(m)
    } else {
        match child(m, keys[0]) {
            Some(c) => lookup_keys(c, keys.drop_first()),
            None => None,
        }
    }
}

/// Whether the document has the dotted `key_path`, and, when `expected` is
/// given, whether the value there equals it: a string value by its text,
/// any other value by its rendering.
pub open spec fn doc_matches(m: DocModel, key_path: Seq<char>, expected: Option<Seq<char>>) -> bool {
    match lookup_keys(m, split_spec(key_path, '.')) {
        None => false,
        Some(n) => match expected {
            None => true,
            Some(e) => match n.text {
                Some(s) => s == e,
                None => n.rendered == e,
            },
        },
    }
}

/// What the rule finds, before `negate` is applied, in a file that exists
/// (or not) and has the text `text` (none when unreadable).
pub open spec fn rule_found(rule: DetectRule, exists: bool, text: Option<Seq<char>>) -> bool {
    match rule {
        DetectRule::FileExists { .. } => exists,
        DetectRule::FileContains { contains, .. } => match text {
            Some(t) => contains_spec(t, contains@),
            None => false,
        },
        DetectRule::JsonContains { key_path, value, .. } => match rule_doc(rule, text) {
            Some(d) => doc_matches(d, key_path@, opt_text(value)),
            None => false,
        },
        DetectRule::TomlContains { key_path, value, .. } => match rule_doc(rule, text) {
            Some(d) => doc_matches(d, key_path@, opt_text(value)),
            None => false,
        },
        DetectRule::YamlContains { key_path, value, .. } => match rule_doc(rule, text) {
            Some(d) => doc_matches(d, key_path@, opt_text(value)),
            None => false,
        },
    }
}

/// Whether the rule is negated.
pub open spec fn rule_negated(rule: DetectRule) -> bool {
    match rule {
        DetectRule::FileExists { negate, .. } => negate,
        DetectRule::FileContains { negate, .. } => negate,
        DetectRule::JsonContains { negate, .. } => negate,
        DetectRule::TomlContains { negate, .. } => negate,
        DetectRule::YamlContains { negate, .. } => negate,
    }
}

/// Whether the rule holds of what was read of its file.
pub open spec fn rule_holds(rule: DetectRule, read: FileRead) -> bool {
    if rule_negated(rule) {
        !rule_found(rule, read.exists, opt_text(read.text))
    } else {
        rule_found(rule, read.exists, opt_text(read.text))
    }
}

/// Whether a block matches: all of its rules hold, or any of them does.
pub open spec fn block_matches(block: DetectBlock, reads: Seq<FileRead>) -> bool {
    match block.match_mode {
        MatchMode::All => forall|j: int| 0 <= j < block.rules@.len() ==> rule_holds(block.rules@[j], reads[j]),
        MatchMode::Any => exists|j: int| 0 <= j < block.rules@.len() && rule_holds(block.rules@[j], reads[j]),
    }
}

/// There is one read for each rule of each block, in the same order.
pub open spec fn reads_fit(detect: Seq<DetectBlock>, reads: Seq<Vec<FileRead>>) -> bool {
    &&& reads.len() == detect.len()
    &&& forall|i: int| 0 <= i < detect.len() ==> #[trigger] reads[i]@.len() == detect[i].rules@.len()
}

/// The child of `node` under `key`.
pub fn child_of<'a>(node: &'a DocNode, key: &Vec<char>) -> (res: Option<&'a DocNode>)
    ensures
        match child(node@, key@) {
            Some(c) => res matches Some(r) && r@ == c,
            None => res is None,
        },
{
    let ghost es = node@.entries;
    proof {
        lemma_entries_model(*node, node.entries@.len() as int);
        lemma_first_key(es, key@);
    }
    let n = node.entries.len();
    for i in 0..n
        invariant
            n == node.entries@.len(),
            es == node@.entries,
            es.len() == n,
            forall|j: int| #![trigger es[j]] 0 <= j < n ==> es[j] == (opt_text(node.entries@[j].0), node.entries@[j].1@),
            forall|j: int| 0 <= j < i ==> es[j].0 != Some(key@),
    {
        assert(es[i as int] == (opt_text(node.entries@[i as int].0), node.entries@[i as int].1@));
        let hit = match &node.entries[i].0 {
            Some(k) => crate::text::str_eq_chars(&chars_of(k.as_str()), key),
            None => false,
        };
        if hit {
            proof {
                lemma_first_key(es, key@);
                match first_key(es, key@) {
                    Some(f) => {
                        if f > i {
                            assert(es[i as int].0 == Some(key@));
                        }
                    },
                    None => {
                        assert(es[i as int].0 == Some(key@));
                    },
                }
            }
            return Some(&node.entries[i].1);
        }
    }
    None
}

/// The value reached from `doc` by following `keys`.
pub fn lookup_path<'a>(doc: &'a DocNode, keys: &Vec<Vec<char>>) -> (res: Option<&'a DocNode>)
    ensures
        match lookup_keys(doc@, pieces_view(keys@)) {
            Some(c) => res matches Some(r) && r@ == c,
            None => res is None,
        },
{
    let ghost ks = pieces_view(keys@);
    let mut cur: &DocNode = doc;
    let n = keys.len();
    assert(ks.skip(0) == ks);
    for i in 0..n
        invariant
            n == keys@.len(),
            ks == pieces_view(keys@),
            lookup_keys(doc@, ks) == lookup_keys(cur@, ks.skip(i as int)),
    {
        let ghost rest = ks.skip(i as int);
        assert(rest[0] == keys@[i as int]@);
        assert(rest.drop_first() =~= ks.skip(i + 1));
        match child_of(cur, &keys[i]) {
            Some(c) => {
                cur = c;
            },
            None => {
                return None;
            },
        }
    }
    assert(ks.skip(n as int).len() == 0);
    Some(cur)
}

/// Whether `doc` has the dotted `key_path` (with the `expected` value, if given).
pub fn doc_has_path(doc: &DocNode, key_path: &str, expected: Option<&str>) -> (res: bool)
    ensures
        res == doc_matches(
            doc@,
            key_path@,
            match expected {
                Some(e) => Some(e@),
                None => None,
            },
        ),
{
    let keys = split_char(&chars_of(key_path), '.');
    match lookup_path(doc, &keys) {
        None => false,
        Some(n) => match expected {
            None => true,
            Some(e) => match &n.text {
                Some(s) => str_eq(s.as_str(), e),
                None => str_eq(n.rendered.as_str(), e),
            },
        },
    }
}

/// The view of an optional text, for exec callers.
fn opt_str(o: &Option<String>) -> (res: Option<&str>)
    ensures
        match res {
            Some(r) => o matches Some(s) && r@ == s@,
            None => o is None,
        },
{
    match o {
        Some(s) => Some(s.as_str()),
        None => None,
    }
}

/// Whether a rule holds of what was read of its file: the file's text is
/// parsed in the rule's format and walked along the rule's key path.
pub fn eval_rule(rule: &DetectRule, read: &FileRead) -> (res: bool)
    ensures
        res == rule_holds(*rule, *read),
{
    let probe = probe_for(rule, read.exists, read.text.clone());
    let found = match rule {
        DetectRule::FileExists { .. } => probe.exists,
        DetectRule::FileContains { contains: needle, .. } => match &probe.text {
            Some(t) => contains(t.as_str(), needle.as_str()),
            None => false,
        },
        DetectRule::JsonContains { key_path, value, .. } => match &probe.doc {
            Some(d) => doc_has_path(d, key_path.as_str(), opt_str(value)),
            None => false,
        },
        DetectRule::TomlContains { key_path, value, .. } => match &probe.doc {
            Some(d) => doc_has_path(d, key_path.as_str(), opt_str(value)),
            None => false,
        },
        DetectRule::YamlContains { key_path, value, .. } => match &probe.doc {
            Some(d) => doc_has_path(d, key_path.as_str(), opt_str(value)),
            None => false,
        },
    };
    let negate = match rule {
        DetectRule::FileExists { negate, .. } => *negate,
        DetectRule::FileContains { negate, .. } => *negate,
        DetectRule::JsonContains { negate, .. } => *negate,
        DetectRule::TomlContains { negate, .. } => *negate,
        DetectRule::YamlContains { negate, .. } => *negate,
    };
    if negate {
        !found
    } else {
        found
    }
}

/// Whether a block matches what was read for its rules.
pub fn block_holds(block: &DetectBlock, reads: &Vec<FileRead>) -> (res: bool)
    requires
        reads@.len() == block.rules@.len(),
    ensures
        res == block_matches(*block, reads@),
{
    let n = block.rules.len();
    match block.match_mode {
        MatchMode::All => {
            for j in 0..n
                invariant
                    n == block.rules@.len(),
                    reads@.len() == n,
                    block.match_mode == MatchMode::All,
                    forall|k: int| 0 <= k < j ==> rule_holds(block.rules@[k], reads@[k]),
            {
                if !eval_rule(&block.rules[j], &reads[j]) {
                    return false;
                }
            }
            true
        },
        MatchMode::Any => {
            for j in 0..n
                invariant
                    n == block.rules@.len(),
                    reads@.len() == n,
                    block.match_mode == MatchMode::Any,
                    forall|k: int| 0 <= k < j ==> !rule_holds(block.rules@[k], reads@[k]),
            {
                if eval_rule(&block.rules[j], &reads[j]) {
                    return true;
                }
            }
            false
        },
    }
}

/// The id of the first block that matches, or `None` when none does (the
/// addon's universal variant is then used).
pub fn detect_variant(detect: &[DetectBlock], reads: &[Vec<FileRead>]) -> (res: Option<String>)
    requires
        reads_fit(detect@, reads@),
    ensures
        match res {
            Some(id) => exists|i: int|
                0 <= i < detect@.len() && block_matches(detect@[i], reads@[i]@) && id@ == detect@[i].id@
                    && forall|j: int| 0 <= j < i ==> !block_matches(detect@[j], reads@[j]@),
            None => forall|i: int| 0 <= i < detect@.len() ==> !block_matches(detect@[i], reads@[i]@),
        },
{
    let n = detect.len();
    for i in 0..n
        invariant
            n == detect@.len(),
            reads_fit(detect@, reads@),
            forall|j: int| 0 <= j < i ==> !block_matches(detect@[j], reads@[j]@),
    {
        assert(reads@[i as int]@.len() == detect@[i as int].rules@.len());
        if block_holds(&detect[i], &reads[i]) {
            return Some(detect[i].id.clone());
        }
    }
    None
}

} // verus!
