//! Walking a GitHub repository's contents listing: which entries are
//! downloaded, which are descended into, and where the template's manifest
//! is found.

use vstd::prelude::*;
use vstd::string::*;

use crate::text::str_eq;

verus! {

/// One entry of a contents listing.
#[derive(Debug)]
pub struct GithubEntry {
    pub name: String,
    /// `file`, `dir`, or another kind.
    pub entry_type: String,
    pub download_url: Option<String>,
    /// The listing of a directory entry.
    pub url: String,
}

/// What is done with an entry.
#[derive(Debug)]
pub enum EntryAction {
    /// Download the file from this URL.
    Download(String),
    /// List this URL and download its entries into a subdirectory.
    Descend(String),
    /// Nothing: a file without a download URL, or another kind of entry.
    Skip,
}

/// The action for an entry: files with a download URL are downloaded,
/// directories are descended into, the rest is skipped.
pub fn entry_action(entry: &GithubEntry) -> (res: EntryAction)
    ensures
        entry.entry_type@ == "file"@ ==> match entry.download_url {
            Some(u) => res matches EntryAction::Download(d) && d@ == u@,
            None => res is Skip,
        },
        entry.entry_type@ == "dir"@ ==> (res matches EntryAction::Descend(d) && d@ == entry.url@),
        entry.entry_type@ != "file"@ && entry.entry_type@ != "dir"@ ==> res is Skip,
{
    proof {
        reveal_strlit("file");
        reveal_strlit("dir");
        assert("file"@.len() != "dir"@.len());
    }
    if str_eq(entry.entry_type.as_str(), "file") {
        match &entry.download_url {
            Some(u) => EntryAction::Download(u.clone()),
            None => EntryAction::Skip,
        }
    } else if str_eq(entry.entry_type.as_str(), "dir") {
        let u = entry.url.clone();
        assert(u@ == entry.url@);
        EntryAction::Descend(u)
    } else {
        EntryAction::Skip
    }
}

/// Why the template's manifest cannot be fetched from a listing.
#[derive(Debug, Clone, Copy, PartialEq, Eq, Structural)]
pub enum ManifestEntryError {
    /// No entry is named `oxide.template.json`.
    NotFound,
    /// The entry has no download URL.
    NoDownloadUrl,
}

impl ManifestEntryError {
    /// The human-readable message of this error.
    pub fn to_string(&self) -> (res: String)
        ensures
            match self {
                ManifestEntryError::NotFound => res@ == "oxide.template.json not found"@,
                ManifestEntryError::NoDownloadUrl => res@ == "No download URL for oxide.template.json"@,
            },
    {
        match self {
            ManifestEntryError::NotFound => String::from_str("oxide.template.json not found"),
            ManifestEntryError::NoDownloadUrl => String::from_str("No download URL for oxide.template.json"),
        }
    }
}

/// The download URL of the first entry named `oxide.template.json`.
pub fn manifest_download_url(entries: &Vec<GithubEntry>) -> (res: Result<String, ManifestEntryError>)
    ensures
        match res {
            Ok(u) => exists|i: int|
                0 <= i < entries@.len() && entries@[i].name@ == "oxide.template.json"@ && (forall|j: int|
                    0 <= j < i ==> entries@[j].name@ != "oxide.template.json"@) && (entries@[i].download_url
                    matches Some(d) && d@ == u@),
            Err(ManifestEntryError::NoDownloadUrl) => exists|i: int|
                0 <= i < entries@.len() && entries@[i].name@ == "oxide.template.json"@ && (forall|j: int|
                    0 <= j < i ==> entries@[j].name@ != "oxide.template.json"@) && entries@[i].download_url
                    is None,
            Err(ManifestEntryError::NotFound) => forall|i: int|
                0 <= i < entries@.len() ==> entries@[i].name@ != "oxide.template.json"@,
        },
{
    let n = entries.len();
    for i in 0..n
        invariant
            n == entries@.len(),
            forall|j: int| 0 <= j < i ==> entries@[j].name@ != "oxide.template.json"@,
    {
        if str_eq(entries[i].name.as_str(), "oxide.template.json") {
            return match &entries[i].download_url {
                Some(u) => Ok(u.clone()),
                None => Err(ManifestEntryError::NoDownloadUrl),
            };
        }
    }
    Err(ManifestEntryError::NotFound)
}

} // verus!
