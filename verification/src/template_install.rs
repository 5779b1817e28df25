//! Deciding whether a template must be downloaded, and what to report.

use vstd::prelude::*;
use vstd::string::*;

use crate::template_cache::CachedTemplate;
use crate::text::str_eq;

verus! {

/// What an install request has to do.
#[derive(Debug, Clone, Copy, PartialEq, Eq, Structural)]
pub enum InstallState {
    /// Nothing usable is cached: download.
    Install,
    /// A different commit is cached: download again.
    Update,
    /// The cached commit is the latest: nothing to do.
    UpToDate,
}

/// The decision: install when nothing is cached or its directory is gone,
/// up to date when the cached commit is the latest, update otherwise.
pub open spec fn classify_spec(cached_commit: Option<Seq<char>>, dir_exists: bool, latest: Seq<char>) -> InstallState {
    match cached_commit {
        None => InstallState::Install,
        Some(c) => if !dir_exists {
            InstallState::Install
        } else if c == latest {
            InstallState::UpToDate
        } else {
            InstallState::Update
        },
    }
}

/// What installing a template has to do, over all inputs: a download
/// whenever nothing is cached or the cached directory is gone, whatever the
/// commits are; nothing exactly when the directory exists and the cached
/// entry's commit is the latest; an update exactly when the directory
/// exists and the cached entry holds another commit.
pub proof fn law_install_decision(cached: Option<&CachedTemplate>, dir_exists: bool, latest: Seq<char>)
    ensures
        !dir_exists ==> classify_spec(cached_commit(cached), dir_exists, latest) == InstallState::Install,
        cached is None ==> classify_spec(cached_commit(cached), dir_exists, latest) == InstallState::Install,
        classify_spec(cached_commit(cached), dir_exists, latest) == InstallState::UpToDate <==> (dir_exists
            && cached is Some && cached->0.commit_sha@ == latest),
        classify_spec(cached_commit(cached), dir_exists, latest) == InstallState::Update <==> (dir_exists
            && cached is Some && cached->0.commit_sha@ != latest),
{
}

/// The commit of a cached entry, if there is one.
pub open spec fn cached_commit(cached: Option<&CachedTemplate>) -> Option<Seq<char>> {
    match cached {
        Some(t) => Some(t.commit_sha@),
        None => None,
    }
}

/// Decides what installing a template has to do.
pub fn classify_install_state(
    cached_template: Option<&CachedTemplate>,
    template_dir_exists: bool,
    latest_commit_sha: &str,
) -> (res: InstallState)
    ensures
        res == classify_spec(cached_commit(cached_template), template_dir_exists, latest_commit_sha@),
{
    match cached_template {
        None => InstallState::Install,
        Some(t) => {
            if !template_dir_exists {
                InstallState::Install
            } else if str_eq(t.commit_sha.as_str(), latest_commit_sha) {
                InstallState::UpToDate
            } else {
                InstallState::Update
            }
        },
    }
}

/// The name of a decision, as the tests of the decision spell it.
pub open spec fn state_name(s: InstallState) -> Seq<char> {
    match s {
        InstallState::Install => "install"@,
        InstallState::Update => "update"@,
        InstallState::UpToDate => "up_to_date"@,
    }
}

/// The decision, by name.
pub fn classify_install_state_for_tests(
    cached_template: Option<&CachedTemplate>,
    template_dir_exists: bool,
    latest_commit_sha: &str,
) -> (res: &'static str)
    ensures
        res@ == state_name(
            classify_spec(cached_commit(cached_template), template_dir_exists, latest_commit_sha@),
        ),
{
    match classify_install_state(cached_template, template_dir_exists, latest_commit_sha) {
        InstallState::Install => "install",
        InstallState::Update => "update",
        InstallState::UpToDate => "up_to_date",
    }
}

/// The outcome of installing a template.
#[derive(Debug, PartialEq, Eq)]
pub enum InstallResult {
    Installed,
    Updated { version: String },
    UpToDate,
}

impl InstallResult {
    /// What to print after the install: nothing when up to date.
    pub fn message(&self, template_name: &str) -> (res: Option<String>)
        ensures
            match self {
                InstallResult::Installed => res matches Some(m) && m@ == "Template '"@
                    + template_name@ + "' downloaded successfully"@,
                InstallResult::Updated { version } => res matches Some(m) && m@ == "Template '"@
                    + template_name@ + "' updated to v"@ + version@,
                InstallResult::UpToDate => res is None,
            },
    {
        match self {
            InstallResult::Installed => {
                let mut s = String::from_str("Template '");
                s.append(template_name);
                s.append("' downloaded successfully");
                Some(s)
            },
            InstallResult::Updated { version } => {
                let mut s = String::from_str("Template '");
                s.append(template_name);
                s.append("' updated to v");
                s.append(version.as_str());
                Some(s)
            },
            InstallResult::UpToDate => None,
        }
    }

    /// What to print when the template is already up to date.
    pub fn up_to_date_message(template_name: &str) -> (res: String)
        ensures
            res@ == "Template '"@ + template_name@ + "' is already up to date"@,
    {
        let mut s = String::from_str("Template '");
        s.append(template_name);
        s.append("' is already up to date");
        s
    }
}

/// The outcome reported after a download that the decision called for:
/// `Installed` for a first install, `Updated` with the version now cached
/// for an update.
pub fn install_result_after_download(state: InstallState, recorded: &CachedTemplate) -> (res: InstallResult)
    requires
        state != InstallState::UpToDate,
    ensures
        state == InstallState::Install ==> res == InstallResult::Installed,
        state == InstallState::Update ==> (res matches InstallResult::Updated { version }
            && version@ == recorded.version@),
{
    match state {
        InstallState::Install => InstallResult::Installed,
        _ => InstallResult::Updated { version: recorded.version.clone() },
    }
}

/// The backend endpoint that tells where a template's archive is.
pub fn template_info_url(backend_url: &str, template_name: &str) -> (res: String)
    ensures
        res@ == backend_url@ + "/template/"@ + template_name@ + "/url"@,
{
    let mut s = String::from_str(backend_url);
    s.append("/template/");
    s.append(template_name);
    s.append("/url");
    s
}

} // verus!
