//! The index of cached addons (`oxide-addons.json` in the addons
//! directory): lookups, recording an installed addon and removing one.

use vstd::prelude::*;
use vstd::string::*;

use crate::keyed::{
    first_index, has_key, lemma_first_index, lemma_first_index_step, lemma_without_key_absent, lemma_without_key_excludes,
    lemma_without_key_lookup, lemma_without_key_unique, unique_keys, without_key,
};
use crate::manifest::AddonManifest;
use crate::paths::{join_path, join_spec};
use crate::text::str_eq;

verus! {

/// The file name of the addon index inside the addons directory.
pub fn addons_index_file_name() -> (res: &'static str)
    ensures
        res@ == "oxide-addons.json"@,
{
    "oxide-addons.json"
}

/// One cached addon.
#[derive(Debug)]
pub struct CachedAddon {
    pub id: String,
    pub name: String,
    pub version: String,
    pub path: String,
    pub commit_sha: String,
    pub repo_url: String,
}

/// The mathematical content of a cached addon.
pub ghost struct AddonModel {
    pub id: Seq<char>,
    pub name: Seq<char>,
    pub version: Seq<char>,
    pub path: Seq<char>,
    pub commit_sha: Seq<char>,
    pub repo_url: Seq<char>,
}

impl View for CachedAddon {
    type V = AddonModel;

    open spec fn view(&self) -> AddonModel {
        AddonModel {
            id: self.id@,
            name: self.name@,
            version: self.version@,
            path: self.path@,
            commit_sha: self.commit_sha@,
            repo_url: self.repo_url@,
        }
    }
}

impl Clone for CachedAddon {
    /// A copy with the same field values.
    fn clone(&self) -> (res: Self)
        ensures
            res@ == self@,
    {
        CachedAddon {
            id: self.id.clone(),
            name: self.name.clone(),
            version: self.version.clone(),
            path: self.path.clone(),
            commit_sha: self.commit_sha.clone(),
            repo_url: self.repo_url.clone(),
        }
    }
}

/// The addon index: when it was last changed and the cached addons.
#[derive(Debug)]
pub struct AddonsCache {
    pub last_updated: String,
    pub addons: Vec<CachedAddon>,
}

impl View for AddonsCache {
    type V = Seq<AddonModel>;

    open spec fn view(&self) -> Seq<AddonModel> {
        self.addons@.map_values(|a: CachedAddon| a@)
    }
}

/// The key of a cached addon: its id.
pub open spec fn addon_key() -> spec_fn(AddonModel) -> Seq<char> {
    |a: AddonModel| a.id
}

/// The entry that a lookup of `id` finds: the first with that id.
pub open spec fn addon_lookup(s: Seq<AddonModel>, id: Seq<char>) -> Option<int> {
    first_index(s, addon_key(), id)
}

/// The entries after recording `e`: any entry with its id is dropped and
/// `e` is appended.
pub open spec fn record_spec(s: Seq<AddonModel>, e: AddonModel) -> Seq<AddonModel> {
    without_key(s, addon_key(), e.id).push(e)
}

/// The message of an addon that is not in the index.
pub open spec fn not_installed_message(id: Seq<char>) -> Seq<char> {
    "Addon '"@ + id + "' is not installed"@
}

/// Why an addon index operation failed.
#[derive(Debug)]
pub enum AddonCacheError {
    /// No cached addon has this id.
    NotInstalled(String),
}

impl AddonCacheError {
    /// The human-readable message of this error.
    pub fn to_string(&self) -> (res: String)
        ensures
            match self {
                AddonCacheError::NotInstalled(id) => res@ == not_installed_message(id@),
            },
    {
        match self {
            AddonCacheError::NotInstalled(id) => {
                let mut s = String::from_str("Addon '");
                s.append(id.as_str());
                s.append("' is not installed");
                s
            },
        }
    }
}

impl AddonsCache {
    /// An empty index stamped with `now` (the current time, as RFC 3339 text).
    pub fn empty(now: &str) -> (res: Self)
        ensures
            res@ == Seq::<AddonModel>::empty(),
            res.last_updated@ == now@,
    {
        AddonsCache { last_updated: String::from_str(now), addons: Vec::new() }
    }

    /// The index of the entry of `addon_id`, as `addon_lookup` finds it.
    pub fn position(&self, addon_id: &str) -> (res: Option<usize>)
        ensures
            res matches Some(i) ==> addon_lookup(self@, addon_id@) == Some(i as int) && i
                < self.addons@.len(),
            res is None ==> addon_lookup(self@, addon_id@) is None,
    {
        proof {
            lemma_first_index(self@, addon_key(), addon_id@);
        }
        let n = self.addons.len();
        for i in 0..n
            invariant
                n == self.addons@.len(),
                addon_lookup(self@.take(i as int), addon_id@) is None,
        {
            proof {
                lemma_first_index_step(self@, addon_key(), addon_id@, i as int);
            }
            if str_eq(self.addons[i].id.as_str(), addon_id) {
                proof {
                    let t = self@.take(i + 1);
                    lemma_first_index(self@, addon_key(), addon_id@);
                    lemma_first_index(t, addon_key(), addon_id@);
                    assert forall|j: int|
                        0 <= j < self@.len() && addon_key()(self@[j]) == addon_id@ implies j
                        >= i by {
                        if j < i {
                            assert(t[j] == self@[j]);
                        }
                    }
                }
                return Some(i);
            }
        }
        proof {
            assert(self@.take(n as int) == self@);
        }
        None
    }

    /// Drops every entry with `entry`'s id and appends `entry`.
    pub fn replace_entry(&mut self, entry: CachedAddon)
        ensures
            final(self)@ == record_spec(old(self)@, entry@),
            final(self).last_updated == old(self).last_updated,
    {
        let ghost s = self@;
        let ghost k = entry@.id;
        let mut kept: Vec<CachedAddon> = Vec::new();
        let n = self.addons.len();
        let key = entry.id.as_str();
        for i in 0..n
            invariant
                n == self.addons@.len(),
                s == self@,
                key@ == k,
                kept@.map_values(|a: CachedAddon| a@) == without_key(s.take(i as int), addon_key(), k),
        {
            let ghost prev = kept@.map_values(|a: CachedAddon| a@);
            assert(s.take(i + 1).drop_last() == s.take(i as int));
            assert(s.take(i + 1).last() == self.addons@[i as int]@);
            if !str_eq(self.addons[i].id.as_str(), key) {
                kept.push(self.addons[i].clone());
                assert(kept@.map_values(|a: CachedAddon| a@) =~= prev.push(self.addons@[i as int]@));
            }
        }
        assert(s.take(n as int) == s);
        let ghost e = entry@;
        kept.push(entry);
        assert(kept@.map_values(|a: CachedAddon| a@) =~= record_spec(s, e));
        self.addons = kept;
    }

    /// Records an installed addon: stamps the index with `now` (the current
    /// time, as RFC 3339 text) and replaces any entry of the same id with one
    /// for `manifest`, stored under `subdir` at `commit_sha`.
    pub fn record_install(&mut self, manifest: &AddonManifest, subdir: &str, commit_sha: &str, now: &str)
        ensures
            final(self).last_updated@ == now@,
            final(self)@ == record_spec(
                old(self)@,
                AddonModel {
                    id: manifest.id@,
                    name: manifest.name@,
                    version: manifest.version@,
                    path: subdir@,
                    commit_sha: commit_sha@,
                    repo_url: Seq::empty(),
                },
            ),
    {
        self.last_updated = String::from_str(now);
        let entry = CachedAddon {
            id: manifest.id.clone(),
            name: manifest.name.clone(),
            version: manifest.version.clone(),
            path: String::from_str(subdir),
            commit_sha: String::from_str(commit_sha),
            repo_url: String::new(),
        };
        self.replace_entry(entry);
    }

    /// Removes the entries of `addon_id` and stamps the index with `now`
    /// (the current time, as RFC 3339 text); returns the path of the entry
    /// that a lookup found, so that its directory can be deleted. Fails,
    /// changing nothing, when no entry has that id.
    pub fn remove(&mut self, addon_id: &str, now: &str) -> (res: Result<String, AddonCacheError>)
        ensures
            match addon_lookup(old(self)@, addon_id@) {
                Some(i) => res matches Ok(p) && p@ == old(self)@[i].path && final(self)@
                    == without_key(old(self)@, addon_key(), addon_id@) && final(self).last_updated@ == now@,
                None => res matches Err(AddonCacheError::NotInstalled(id)) && id@ == addon_id@
                    && final(self)@ == old(self)@ && final(self).last_updated
                    == old(self).last_updated,
            },
    {
        match self.position(addon_id) {
            None => Err(AddonCacheError::NotInstalled(String::from_str(addon_id))),
            Some(i) => {
                assert(self@[i as int] == self.addons@[i as int]@);
                let path = self.addons[i].path.clone();
                self.last_updated = String::from_str(now);
                let ghost s = self@;
                let mut kept: Vec<CachedAddon> = Vec::new();
                let n = self.addons.len();
                for j in 0..n
                    invariant
                        n == self.addons@.len(),
                        s == self@,
                        kept@.map_values(|a: CachedAddon| a@) == without_key(
                            s.take(j as int),
                            addon_key(),
                            addon_id@,
                        ),
                {
                    let ghost prev = kept@.map_values(|a: CachedAddon| a@);
                    assert(s.take(j + 1).drop_last() == s.take(j as int));
                    assert(s.take(j + 1).last() == self.addons@[j as int]@);
                    if !str_eq(self.addons[j].id.as_str(), addon_id) {
                        kept.push(self.addons[j].clone());
                        assert(kept@.map_values(|a: CachedAddon| a@) =~= prev.push(
                            self.addons@[j as int]@,
                        ));
                    }
                }
                assert(s.take(n as int) == s);
                self.addons = kept;
                Ok(path)
            },
        }
    }
}

/// A copy of the cached entry of `addon_id`, if the index has one.
pub fn get_cached_addon(cache: &AddonsCache, addon_id: &str) -> (res: Option<CachedAddon>)
    ensures
        match addon_lookup(cache@, addon_id@) {
            Some(i) => res matches Some(a) && a@ == cache@[i],
            None => res is None,
        },
{
    match cache.position(addon_id) {
        Some(i) => {
            assert(cache@[i as int] == cache.addons@[i as int]@);
            Some(cache.addons[i].clone())
        },
        None => None,
    }
}

/// The directory of the cached entry of `addon_id` under `addons_dir`: the
/// directory whose existence decides whether the addon is installed.
pub fn cached_addon_dir(cache: &AddonsCache, addons_dir: &str, addon_id: &str) -> (res: Option<String>)
    ensures
        match addon_lookup(cache@, addon_id@) {
            Some(i) => res matches Some(d) && d@ == join_spec(addons_dir@, cache@[i].path),
            None => res is None,
        },
{
    match cache.position(addon_id) {
        Some(i) => {
            assert(cache@[i as int] == cache.addons@[i as int]@);
            Some(join_path(addons_dir, cache.addons[i].path.as_str()))
        },
        None => None,
    }
}

/// An addon is installed when the index has an entry for it and that
/// entry's directory exists (`entry_dir_exists`, as found on disk for the
/// directory that `cached_addon_dir` names).
pub fn is_addon_installed(cache: &AddonsCache, addon_id: &str, entry_dir_exists: bool) -> (res: bool)
    ensures
        res == (has_key(cache@, addon_key(), addon_id@) && entry_dir_exists),
{
    proof {
        lemma_first_index(cache@, addon_key(), addon_id@);
    }
    match cache.position(addon_id) {
        Some(_) => entry_dir_exists,
        None => false,
    }
}

/// Recording an addon makes a lookup of its id find exactly the recorded
/// entry, leaves the lookup of every other id as it was, and keeps the ids
/// unique.
pub proof fn law_record_then_lookup(s: Seq<AddonModel>, e: AddonModel, other: Seq<char>)
    requires
        other != e.id,
    ensures
        addon_lookup(record_spec(s, e), e.id) matches Some(i) && record_spec(s, e)[i] == e,
        match addon_lookup(s, other) {
            Some(a) => addon_lookup(record_spec(s, e), other) matches Some(b) && record_spec(s, e)[b]
                == s[a],
            None => addon_lookup(record_spec(s, e), other) is None,
        },
        unique_keys(s, addon_key()) ==> unique_keys(record_spec(s, e), addon_key()),
{
    let w = without_key(s, addon_key(), e.id);
    let t = w.push(e);
    lemma_without_key_excludes(s, addon_key(), e.id);
    lemma_first_index(t, addon_key(), e.id);
    assert(t.drop_last() == w);
    assert(addon_lookup(t, e.id) == Some(w.len() as int)) by {
        lemma_first_index(w, addon_key(), e.id);
    }
    lemma_without_key_lookup(s, addon_key(), e.id, other);
    lemma_first_index(w, addon_key(), other);
    match first_index(w, addon_key(), other) {
        Some(b) => {
            assert(t[b] == w[b]);
        },
        None => {},
    }
    if unique_keys(s, addon_key()) {
        lemma_without_key_unique(s, addon_key(), e.id);
        assert forall|a: int, b: int|
            0 <= a < t.len() && 0 <= b < t.len() && a != b implies addon_key()(t[a]) != addon_key()(
            t[b],
        ) by {
            if a < w.len() && b < w.len() {
                assert(t[a] == w[a] && t[b] == w[b]);
            } else if a < w.len() {
                assert(t[a] == w[a]);
            } else {
                assert(t[b] == w[b]);
            }
        }
    }
}

/// Removing a addon undoes recording it: what is left is the index as it
/// was, without any entry of that id.
pub proof fn law_remove_undoes_record(s: Seq<AddonModel>, e: AddonModel)
    ensures
        without_key(record_spec(s, e), addon_key(), e.id) == without_key(s, addon_key(), e.id),
{
    let w = without_key(s, addon_key(), e.id);
    lemma_without_key_excludes(s, addon_key(), e.id);
    lemma_without_key_absent(w, addon_key(), e.id);
    assert(w.push(e).drop_last() =~= w);
}

/// After an addon is removed, a lookup of its id finds nothing and the
/// lookup of every other id is as before.
pub proof fn law_remove_then_lookup(s: Seq<AddonModel>, id: Seq<char>, other: Seq<char>)
    requires
        other != id,
    ensures
        addon_lookup(without_key(s, addon_key(), id), id) is None,
        match addon_lookup(s, other) {
            Some(a) => addon_lookup(without_key(s, addon_key(), id), other) matches Some(b)
                && without_key(s, addon_key(), id)[b] == s[a],
            None => addon_lookup(without_key(s, addon_key(), id), other) is None,
        },
{
    lemma_without_key_excludes(s, addon_key(), id);
    lemma_first_index(without_key(s, addon_key(), id), addon_key(), id);
    lemma_without_key_lookup(s, addon_key(), id, other);
}

} // verus!
