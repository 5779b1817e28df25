use oxide_cli::cli::{skips_version_notice, use_invocation, Commands, UseError};
use oxide_cli::completions::CompletionShell;
use oxide_cli::github::{entry_action, manifest_download_url, EntryAction, GithubEntry, ManifestEntryError};

fn entry(name: &str, kind: &str, download: Option<&str>) -> GithubEntry {
    GithubEntry {
        name: name.to_string(),
        entry_type: kind.to_string(),
        download_url: download.map(str::to_string),
        url: format!("https://api.github.com/repos/o/r/contents/{name}"),
    }
}

#[test]
fn files_are_downloaded_and_directories_descended() {
    assert!(matches!(entry_action(&entry("a.txt", "file", Some("https://raw/a.txt"))), EntryAction::Download(u) if u == "https://raw/a.txt"));
    assert!(matches!(entry_action(&entry("a.txt", "file", None)), EntryAction::Skip));
    assert!(matches!(entry_action(&entry("src", "dir", None)), EntryAction::Descend(u) if u.ends_with("/contents/src")));
    assert!(matches!(entry_action(&entry("link", "symlink", Some("x"))), EntryAction::Skip));
}

#[test]
fn manifest_url_is_taken_from_the_first_manifest_entry() {
    let entries = vec![
        entry("README.md", "file", Some("r")),
        entry("oxide.template.json", "file", Some("https://raw/m.json")),
        entry("oxide.template.json", "file", Some("second")),
    ];
    assert_eq!(manifest_download_url(&entries).unwrap(), "https://raw/m.json");
    let missing = vec![entry("README.md", "file", Some("r"))];
    assert_eq!(manifest_download_url(&missing).unwrap_err(), ManifestEntryError::NotFound);
    assert_eq!(ManifestEntryError::NotFound.to_string(), "oxide.template.json not found");
    let no_url = vec![entry("oxide.template.json", "file", None)];
    assert_eq!(manifest_download_url(&no_url).unwrap_err(), ManifestEntryError::NoDownloadUrl);
    assert_eq!(ManifestEntryError::NoDownloadUrl.to_string(), "No download URL for oxide.template.json");
}

#[test]
fn use_takes_the_addon_and_its_command() {
    let args = vec!["drizzle".to_string(), "migrate".to_string(), "--force".to_string()];
    assert_eq!(use_invocation(&args).unwrap(), ("drizzle".to_string(), "migrate".to_string()));
    let err = use_invocation(&vec!["drizzle".to_string()]).unwrap_err();
    assert_eq!(err, UseError::MissingCommand);
    assert_eq!(err.to_string(), "Usage: oxide <addon-id> <command>");
}

#[test]
fn only_the_upgrade_command_skips_the_version_notice() {
    assert!(skips_version_notice(&Commands::Upgrade));
    assert!(!skips_version_notice(&Commands::Login));
    assert!(!skips_version_notice(&Commands::Completions { shell: CompletionShell::Zsh }));
}
