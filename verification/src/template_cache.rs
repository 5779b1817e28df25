//! The index of cached templates (`oxide-templates.json` in the templates
//! directory), and the template manifest (`oxide.template.json`).

use vstd::prelude::*;
use vstd::string::*;

use crate::keyed::{
    first_index, has_key, lemma_first_index, lemma_first_index_step, lemma_without_key_absent, lemma_without_key_excludes,
    lemma_without_key_lookup, lemma_without_key_unique, unique_keys, without_key,
};
use crate::paths::{join_path, join_spec};
use crate::text::str_eq;

verus! {

/// The file name of the template index inside the templates directory.
pub fn templates_index_file_name() -> (res: &'static str)
    ensures
        res@ == "oxide-templates.json"@,
{
    "oxide-templates.json"
}

/// The file name of a template's manifest inside the template.
pub fn template_manifest_file_name() -> (res: &'static str)
    ensures
        res@ == "oxide.template.json"@,
{
    "oxide.template.json"
}

/// A template's manifest.
#[derive(Debug)]
pub struct AnesisTemplate {
    pub name: String,
    pub version: String,
    pub anesis_version: String,
    pub official: bool,
    pub repository: AnesisTemplateRepository,
    pub metadata: AnesisTemplateMetadata,
}

/// Where a template's source lives.
#[derive(Debug)]
pub struct AnesisTemplateRepository {
    pub url: String,
}

/// How a template presents itself.
#[derive(Debug)]
pub struct AnesisTemplateMetadata {
    pub display_name: String,
    pub description: String,
}

/// A file of a template: its path relative to the template root and its bytes.
#[derive(Debug)]
pub struct TemplateFile {
    pub path: String,
    pub contents: Vec<u8>,
}

/// One cached template.
#[derive(Debug)]
pub struct CachedTemplate {
    pub name: String,
    pub version: String,
    pub source: String,
    pub path: String,
    pub official: bool,
    pub commit_sha: String,
}

/// The mathematical content of a cached template.
pub ghost struct TemplateModel {
    pub name: Seq<char>,
    pub version: Seq<char>,
    pub source: Seq<char>,
    pub path: Seq<char>,
    pub official: bool,
    pub commit_sha: Seq<char>,
}

impl View for CachedTemplate {
    type V = TemplateModel;

    open spec fn view(&self) -> TemplateModel {
        TemplateModel {
            name: self.name@,
            version: self.version@,
            source: self.source@,
            path: self.path@,
            official: self.official,
            commit_sha: self.commit_sha@,
        }
    }
}

impl Clone for CachedTemplate {
    /// A copy with the same field values.
    fn clone(&self) -> (res: Self)
        ensures
            res@ == self@,
    {
        CachedTemplate {
            name: self.name.clone(),
            version: self.version.clone(),
            source: self.source.clone(),
            path: self.path.clone(),
            official: self.official,
            commit_sha: self.commit_sha.clone(),
        }
    }
}

/// The template index: when it was last changed and the cached templates.
#[derive(Debug)]
pub struct TemplatesCache {
    pub last_updated: String,
    pub templates: Vec<CachedTemplate>,
}

impl View for TemplatesCache {
    type V = Seq<TemplateModel>;

    open spec fn view(&self) -> Seq<TemplateModel> {
        self.templates@.map_values(|a: CachedTemplate| a@)
    }
}

/// The key of a cached template: its name.
pub open spec fn template_key() -> spec_fn(TemplateModel) -> Seq<char> {
    |a: TemplateModel| a.name
}

/// The entry that a lookup of `name` finds: the first with that name.
pub open spec fn template_lookup(s: Seq<TemplateModel>, name: Seq<char>) -> Option<int> {
    first_index(s, template_key(), name)
}

/// The entries after recording `e`: any entry with its name is dropped and
/// `e` is appended.
pub open spec fn record_spec(s: Seq<TemplateModel>, e: TemplateModel) -> Seq<TemplateModel> {
    without_key(s, template_key(), e.name).push(e)
}

/// The message of a template that is not in the index.
pub open spec fn not_installed_message(name: Seq<char>) -> Seq<char> {
    "Template '"@ + name + "' is not installed"@
}

/// Why a template index operation failed.
#[derive(Debug)]
pub enum TemplateCacheError {
    /// No cached template has this name.
    NotInstalled(String),
}

impl TemplateCacheError {
    /// The human-readable message of this error.
    pub fn to_string(&self) -> (res: String)
        ensures
            match self {
                TemplateCacheError::NotInstalled(name) => res@ == not_installed_message(name@),
            },
    {
        match self {
            TemplateCacheError::NotInstalled(name) => {
                let mut s = String::from_str("Template '");
                s.append(name.as_str());
                s.append("' is not installed");
                s
            },
        }
    }
}

impl TemplatesCache {
    /// An empty index stamped with `now` (the current time, as RFC 3339 text).
    pub fn empty(now: &str) -> (res: Self)
        ensures
            res@ == Seq::<TemplateModel>::empty(),
            res.last_updated@ == now@,
    {
        TemplatesCache { last_updated: String::from_str(now), templates: Vec::new() }
    }

    /// The index of the entry of `template_name`, as `template_lookup` finds it.
    pub fn position(&self, template_name: &str) -> (res: Option<usize>)
        ensures
            res matches Some(i) ==> template_lookup(self@, template_name@) == Some(i as int) && i
                < self.templates@.len(),
            res is None ==> template_lookup(self@, template_name@) is None,
    {
        proof {
            lemma_first_index(self@, template_key(), template_name@);
        }
        let n = self.templates.len();
        for i in 0..n
            invariant
                n == self.templates@.len(),
                template_lookup(self@.take(i as int), template_name@) is None,
        {
            proof {
                lemma_first_index_step(self@, template_key(), template_name@, i as int);
            }
            if str_eq(self.templates[i].name.as_str(), template_name) {
                proof {
                    let t = self@.take(i + 1);
                    lemma_first_index(self@, template_key(), template_name@);
                    lemma_first_index(t, template_key(), template_name@);
                    assert forall|j: int|
                        0 <= j < self@.len() && template_key()(self@[j]) == template_name@ implies j
                        >= i by {
                        if j < i {
                            assert(t[j] == self@[j]);
                        }
                    }
                }
                return Some(i);
            }
        }
        proof {
            assert(self@.take(n as int) == self@);
        }
        None
    }

    /// Drops every entry with `entry`'s name and appends `entry`.
    pub fn replace_entry(&mut self, entry: CachedTemplate)
        ensures
            final(self)@ == record_spec(old(self)@, entry@),
            final(self).last_updated == old(self).last_updated,
    {
        let ghost s = self@;
        let ghost k = entry@.name;
        let mut kept: Vec<CachedTemplate> = Vec::new();
        let n = self.templates.len();
        let key = entry.name.as_str();
        for i in 0..n
            invariant
                n == self.templates@.len(),
                s == self@,
                key@ == k,
                kept@.map_values(|a: CachedTemplate| a@) == without_key(s.take(i as int), template_key(), k),
        {
            let ghost prev = kept@.map_values(|a: CachedTemplate| a@);
            assert(s.take(i + 1).drop_last() == s.take(i as int));
            assert(s.take(i + 1).last() == self.templates@[i as int]@);
            if !str_eq(self.templates[i].name.as_str(), key) {
                kept.push(self.templates[i].clone());
                assert(kept@.map_values(|a: CachedTemplate| a@) =~= prev.push(self.templates@[i as int]@));
            }
        }
        assert(s.take(n as int) == s);
        let ghost e = entry@;
        kept.push(entry);
        assert(kept@.map_values(|a: CachedTemplate| a@) =~= record_spec(s, e));
        self.templates = kept;
    }

    /// Records a downloaded template: stamps the index with `now` (the
    /// current time, as RFC 3339 text) and replaces any entry of the same
    /// name with one built from the template's manifest, stored under `path`
    /// at `commit_sha`; returns a copy of the new entry.
    pub fn record_install(&mut self, template: &AnesisTemplate, path: &str, commit_sha: &str, now: &str) -> (res:
        CachedTemplate)
        ensures
            final(self).last_updated@ == now@,
            res@ == (TemplateModel {
                name: template.name@,
                version: template.version@,
                source: template.repository.url@,
                path: path@,
                official: template.official,
                commit_sha: commit_sha@,
            }),
            final(self)@ == record_spec(old(self)@, res@),
    {
        self.last_updated = String::from_str(now);
        let entry = CachedTemplate {
            name: template.name.clone(),
            version: template.version.clone(),
            source: template.repository.url.clone(),
            path: String::from_str(path),
            official: template.official,
            commit_sha: String::from_str(commit_sha),
        };
        let copy = entry.clone();
        self.replace_entry(entry);
        copy
    }

    /// Removes the entries of `template_name` and stamps the index with
    /// `now` (the current time, as RFC 3339 text); returns the path of the
    /// entry that a lookup found, so that its directory can be deleted.
    /// Fails, changing nothing, when no entry has that name.
    pub fn remove(&mut self, template_name: &str, now: &str) -> (res: Result<String, TemplateCacheError>)
        ensures
            match template_lookup(old(self)@, template_name@) {
                Some(i) => res matches Ok(p) && p@ == old(self)@[i].path && final(self)@
                    == without_key(old(self)@, template_key(), template_name@) && final(self).last_updated@
                    == now@,
                None => res matches Err(TemplateCacheError::NotInstalled(n)) && n@ == template_name@
                    && final(self)@ == old(self)@ && final(self).last_updated
                    == old(self).last_updated,
            },
    {
        match self.position(template_name) {
            None => Err(TemplateCacheError::NotInstalled(String::from_str(template_name))),
            Some(i) => {
                assert(self@[i as int] == self.templates@[i as int]@);
                let path = self.templates[i].path.clone();
                self.last_updated = String::from_str(now);
                let ghost s = self@;
                let mut kept: Vec<CachedTemplate> = Vec::new();
                let n = self.templates.len();
                for j in 0..n
                    invariant
                        n == self.templates@.len(),
                        s == self@,
                        kept@.map_values(|a: CachedTemplate| a@) == without_key(
                            s.take(j as int),
                            template_key(),
                            template_name@,
                        ),
                {
                    let ghost prev = kept@.map_values(|a: CachedTemplate| a@);
                    assert(s.take(j + 1).drop_last() == s.take(j as int));
                    assert(s.take(j + 1).last() == self.templates@[j as int]@);
                    if !str_eq(self.templates[j].name.as_str(), template_name) {
                        kept.push(self.templates[j].clone());
                        assert(kept@.map_values(|a: CachedTemplate| a@) =~= prev.push(
                            self.templates@[j as int]@,
                        ));
                    }
                }
                assert(s.take(n as int) == s);
                self.templates = kept;
                Ok(path)
            },
        }
    }
}

/// A copy of the cached entry of `template_name`, if the index has one.
pub fn get_cached_template(cache: &TemplatesCache, template_name: &str) -> (res: Option<CachedTemplate>)
    ensures
        match template_lookup(cache@, template_name@) {
            Some(i) => res matches Some(a) && a@ == cache@[i],
            None => res is None,
        },
{
    match cache.position(template_name) {
        Some(i) => {
            assert(cache@[i as int] == cache.templates@[i as int]@);
            Some(cache.templates[i].clone())
        },
        None => None,
    }
}

/// The directory of a template under the templates directory: the one
/// whose existence decides whether the template is installed.
pub fn template_dir(templates_dir: &str, template_name: &str) -> (res: String)
    ensures
        res@ == join_spec(templates_dir@, template_name@),
{
    join_path(templates_dir, template_name)
}

/// A template is installed when its directory exists (`dir_exists`, as
/// found on disk for `template_dir`) and the index has an entry for it.
pub fn is_template_installed(cache: &TemplatesCache, template_name: &str, dir_exists: bool) -> (res: bool)
    ensures
        res == (dir_exists && has_key(cache@, template_key(), template_name@)),
{
    if !dir_exists {
        return false;
    }
    proof {
        lemma_first_index(cache@, template_key(), template_name@);
    }
    match cache.position(template_name) {
        Some(_) => true,
        None => false,
    }
}

/// Recording a template makes a lookup of its name find exactly the
/// recorded entry, leaves the lookup of every other name as it was, and
/// keeps the names unique.
pub proof fn law_record_then_lookup(s: Seq<TemplateModel>, e: TemplateModel, other: Seq<char>)
    requires
        other != e.name,
    ensures
        template_lookup(record_spec(s, e), e.name) matches Some(i) && record_spec(s, e)[i] == e,
        match template_lookup(s, other) {
            Some(a) => template_lookup(record_spec(s, e), other) matches Some(b) && record_spec(s, e)[b]
                == s[a],
            None => template_lookup(record_spec(s, e), other) is None,
        },
        unique_keys(s, template_key()) ==> unique_keys(record_spec(s, e), template_key()),
{
    let w = without_key(s, template_key(), e.name);
    let t = w.push(e);
    lemma_without_key_excludes(s, template_key(), e.name);
    lemma_first_index(t, template_key(), e.name);
    assert(t.drop_last() == w);
    assert(template_lookup(t, e.name) == Some(w.len() as int)) by {
        lemma_first_index(w, template_key(), e.name);
    }
    lemma_without_key_lookup(s, template_key(), e.name, other);
    lemma_first_index(w, template_key(), other);
    match first_index(w, template_key(), other) {
        Some(b) => {
            assert(t[b] == w[b]);
        },
        None => {},
    }
    if unique_keys(s, template_key()) {
        lemma_without_key_unique(s, template_key(), e.name);
        assert forall|a: int, b: int|
            0 <= a < t.len() && 0 <= b < t.len() && a != b implies template_key()(t[a]) != template_key()(
            t[b],
        ) by {
            if a < w.len() && b < w.len() {
                assert(t[a] == w[a] && t[b] == w[b]);
            } else if a < w.len() {
                assert(t[a] == w[a]);
            } else {
                assert(t[b] == w[b]);
            }
        }
    }
}

/// Removing a template undoes recording it: what is left is the index as it
/// was, without any entry of that name.
pub proof fn law_remove_undoes_record(s: Seq<TemplateModel>, e: TemplateModel)
    ensures
        without_key(record_spec(s, e), template_key(), e.name) == without_key(s, template_key(), e.name),
{
    let w = without_key(s, template_key(), e.name);
    lemma_without_key_excludes(s, template_key(), e.name);
    lemma_without_key_absent(w, template_key(), e.name);
    assert(w.push(e).drop_last() =~= w);
}

/// After a template is removed, a lookup of its name finds nothing and the
/// lookup of every other name is as before.
pub proof fn law_remove_then_lookup(s: Seq<TemplateModel>, name: Seq<char>, other: Seq<char>)
    requires
        other != name,
    ensures
        template_lookup(without_key(s, template_key(), name), name) is None,
        match template_lookup(s, other) {
            Some(a) => template_lookup(without_key(s, template_key(), name), other) matches Some(b)
                && without_key(s, template_key(), name)[b] == s[a],
            None => template_lookup(without_key(s, template_key(), name), other) is None,
        },
{
    lemma_without_key_excludes(s, template_key(), name);
    lemma_first_index(without_key(s, template_key(), name), template_key(), name);
    lemma_without_key_lookup(s, template_key(), name, other);
}

} // verus!
