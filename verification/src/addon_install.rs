//! Deciding whether an addon must be downloaded, and what to report.

use vstd::prelude::*;
use vstd::string::*;

use crate::addon_cache::CachedAddon;
use crate::manifest::AddonManifest;
use crate::template_install::{InstallState, classify_spec, state_name};
use crate::text::str_eq;

verus! {

/// The commit of a cached entry, if there is one.
pub open spec fn cached_addon_commit(cached: Option<&CachedAddon>) -> Option<Seq<char>> {
    match cached {
        Some(a) => Some(a.commit_sha@),
        None => None,
    }
}

/// Decides what installing an addon has to do: install when nothing is
/// cached or its directory is gone, up to date when the cached commit is
/// the latest, update otherwise.
pub fn classify_install_state(
    cached_addon: Option<&CachedAddon>,
    addon_dir_exists: bool,
    latest_commit_sha: &str,
) -> (res: InstallState)
    ensures
        res == classify_spec(cached_addon_commit(cached_addon), addon_dir_exists, latest_commit_sha@),
{
    match cached_addon {
        None => InstallState::Install,
        Some(a) => {
            if !addon_dir_exists {
                InstallState::Install
            } else if str_eq(a.commit_sha.as_str(), latest_commit_sha) {
                InstallState::UpToDate
            } else {
                InstallState::Update
            }
        },
    }
}

/// What installing an addon has to do, over all inputs: a download
/// whenever nothing is cached or the cached directory is gone, whatever the
/// commits are; nothing exactly when the directory exists and the cached
/// entry's commit is the latest; an update exactly when the directory
/// exists and the cached entry holds another commit.
pub proof fn law_addon_install_decision(cached: Option<&CachedAddon>, dir_exists: bool, latest: Seq<char>)
    ensures
        !dir_exists ==> classify_spec(cached_addon_commit(cached), dir_exists, latest) == InstallState::Install,
        cached is None ==> classify_spec(cached_addon_commit(cached), dir_exists, latest) == InstallState::Install,
        classify_spec(cached_addon_commit(cached), dir_exists, latest) == InstallState::UpToDate <==> (
        dir_exists && cached is Some && cached->0.commit_sha@ == latest),
        classify_spec(cached_addon_commit(cached), dir_exists, latest) == InstallState::Update <==> (
        dir_exists && cached is Some && cached->0.commit_sha@ != latest),
{
}

/// The decision, by name.
pub fn classify_install_state_for_tests(
    cached_addon: Option<&CachedAddon>,
    addon_dir_exists: bool,
    latest_commit_sha: &str,
) -> (res: &'static str)
    ensures
        res@ == state_name(
            classify_spec(cached_addon_commit(cached_addon), addon_dir_exists, latest_commit_sha@),
        ),
{
    match classify_install_state(cached_addon, addon_dir_exists, latest_commit_sha) {
        InstallState::Install => "install",
        InstallState::Update => "update",
        InstallState::UpToDate => "up_to_date",
    }
}

/// The outcome of installing an addon, with its manifest.
#[derive(Debug)]
pub enum AddonInstallResult {
    Installed(AddonManifest),
    Updated(AddonManifest),
    UpToDate(AddonManifest),
}

/// The manifest that an outcome carries.
pub open spec fn result_manifest(r: AddonInstallResult) -> AddonManifest {
    match r {
        AddonInstallResult::Installed(m) => m,
        AddonInstallResult::Updated(m) => m,
        AddonInstallResult::UpToDate(m) => m,
    }
}

/// The message of an update to a version.
pub open spec fn updated_message(addon_id: Seq<char>, version: Seq<char>) -> Seq<char> {
    "Addon '"@ + addon_id + "' updated to v"@ + version
}

/// Builds the message of an update to a version.
fn updated_text(addon_id: &str, version: &str) -> (res: String)
    ensures
        res@ == updated_message(addon_id@, version@),
{
    let mut s = String::from_str("Addon '");
    s.append(addon_id);
    s.append("' updated to v");
    s.append(version);
    s
}

impl AddonInstallResult {
    /// The manifest of the installed addon.
    pub fn into_manifest(self) -> (res: AddonManifest)
        ensures
            res == result_manifest(self),
    {
        match self {
            AddonInstallResult::Installed(m) => m,
            AddonInstallResult::Updated(m) => m,
            AddonInstallResult::UpToDate(m) => m,
        }
    }

    /// What to print after the install: nothing when up to date.
    pub fn message(&self, addon_id: &str) -> (res: Option<String>)
        ensures
            match self {
                AddonInstallResult::Installed(_) => res matches Some(m) && m@ == "Addon '"@
                    + addon_id@ + "' successfully downloaded"@,
                AddonInstallResult::Updated(m) => res matches Some(t) && t@ == updated_message(
                    addon_id@,
                    m.version@,
                ),
                AddonInstallResult::UpToDate(_) => res is None,
            },
    {
        match self {
            AddonInstallResult::Installed(_) => {
                let mut s = String::from_str("Addon '");
                s.append(addon_id);
                s.append("' successfully downloaded");
                Some(s)
            },
            AddonInstallResult::Updated(m) => Some(updated_text(addon_id, m.version.as_str())),
            AddonInstallResult::UpToDate(_) => None,
        }
    }

    /// What to print when an update brought a new version: only updates say
    /// something.
    pub fn update_message(&self, addon_id: &str) -> (res: Option<String>)
        ensures
            match self {
                AddonInstallResult::Updated(m) => res matches Some(t) && t@ == updated_message(
                    addon_id@,
                    m.version@,
                ),
                _ => res is None,
            },
    {
        match self {
            AddonInstallResult::Updated(m) => Some(updated_text(addon_id, m.version.as_str())),
            _ => None,
        }
    }

    /// What to print when the addon is already up to date.
    pub fn up_to_date_message(addon_id: &str) -> (res: String)
        ensures
            res@ == "Addon '"@ + addon_id@ + "' is already up to date"@,
    {
        let mut s = String::from_str("Addon '");
        s.append(addon_id);
        s.append("' is already up to date");
        s
    }
}

/// The outcome reported for a decision, with the manifest that was read
/// (from the cache when up to date, from the download otherwise).
pub fn addon_install_result(state: InstallState, manifest: AddonManifest) -> (res: AddonInstallResult)
    ensures
        result_manifest(res) == manifest,
        state == InstallState::Install ==> res is Installed,
        state == InstallState::Update ==> res is Updated,
        state == InstallState::UpToDate ==> res is UpToDate,
{
    match state {
        InstallState::Install => AddonInstallResult::Installed(manifest),
        InstallState::Update => AddonInstallResult::Updated(manifest),
        InstallState::UpToDate => AddonInstallResult::UpToDate(manifest),
    }
}

/// The backend endpoint that tells where an addon's archive is.
pub fn addon_url_endpoint(backend_url: &str, addon_id: &str) -> (res: String)
    ensures
        res@ == backend_url@ + "/addon/"@ + addon_id@ + "/url"@,
{
    let mut s = String::from_str(backend_url);
    s.append("/addon/");
    s.append(addon_id);
    s.append("/url");
    s
}

} // verus!
