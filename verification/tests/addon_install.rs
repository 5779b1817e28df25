use oxide_cli::addon_cache::CachedAddon;
use oxide_cli::addon_install::{
    addon_install_result, addon_url_endpoint, classify_install_state_for_tests, AddonInstallResult,
};
use oxide_cli::manifest::AddonManifest;
use oxide_cli::template_install::InstallState;

fn cached_addon(commit_sha: &str) -> CachedAddon {
    CachedAddon {
        id: "drizzle".to_string(),
        name: "Drizzle".to_string(),
        version: "1.0.0".to_string(),
        path: "drizzle".to_string(),
        commit_sha: commit_sha.to_string(),
        repo_url: String::new(),
    }
}

fn manifest(version: &str) -> AddonManifest {
    AddonManifest {
        schema_version: "1".to_string(),
        id: "drizzle".to_string(),
        name: "Drizzle".to_string(),
        version: version.to_string(),
        description: "test addon".to_string(),
        author: "test".to_string(),
        requires: Vec::new(),
        inputs: Vec::new(),
        detect: Vec::new(),
        variants: Vec::new(),
    }
}

#[test]
fn classify_install_state_returns_install_when_addon_is_not_cached() {
    assert_eq!(classify_install_state_for_tests(None, true, "sha-1"), "install");
}

#[test]
fn classify_install_state_returns_install_when_addon_directory_is_missing() {
    let cached = cached_addon("sha-1");
    assert_eq!(classify_install_state_for_tests(Some(&cached), false, "sha-1"), "install");
}

#[test]
fn addon_install_classify_install_state_returns_up_to_date_when_commit_matches() {
    let cached = cached_addon("sha-1");
    assert_eq!(classify_install_state_for_tests(Some(&cached), true, "sha-1"), "up_to_date");
}

#[test]
fn addon_install_classify_install_state_returns_update_when_commit_differs() {
    let cached = cached_addon("sha-1");
    assert_eq!(classify_install_state_for_tests(Some(&cached), true, "sha-2"), "update");
}

#[test]
fn addon_install_result_update_message_uses_new_version() {
    let message = AddonInstallResult::Updated(manifest("1.2.3")).update_message("drizzle");
    assert_eq!(message.as_deref(), Some("Addon 'drizzle' updated to v1.2.3"));
}

#[test]
fn addon_install_result_message_is_silent_for_up_to_date_addons() {
    let message = AddonInstallResult::UpToDate(manifest("1.2.3")).message("drizzle");
    assert!(message.is_none());
}

#[test]
fn install_messages_for_each_outcome() {
    assert_eq!(
        AddonInstallResult::Installed(manifest("1.0.0")).message("drizzle").as_deref(),
        Some("Addon 'drizzle' successfully downloaded")
    );
    assert_eq!(
        AddonInstallResult::Updated(manifest("2.0.0")).message("drizzle").as_deref(),
        Some("Addon 'drizzle' updated to v2.0.0")
    );
    assert!(AddonInstallResult::Installed(manifest("1.0.0")).update_message("drizzle").is_none());
    assert!(AddonInstallResult::UpToDate(manifest("1.0.0")).update_message("drizzle").is_none());
    assert_eq!(AddonInstallResult::up_to_date_message("drizzle"), "Addon 'drizzle' is already up to date");
}

#[test]
fn into_manifest_returns_the_carried_manifest() {
    assert_eq!(AddonInstallResult::Installed(manifest("3.1.4")).into_manifest().version, "3.1.4");
    assert_eq!(AddonInstallResult::UpToDate(manifest("0.0.1")).into_manifest().version, "0.0.1");
}

#[test]
fn install_result_follows_the_state() {
    assert!(matches!(addon_install_result(InstallState::Install, manifest("1.0.0")), AddonInstallResult::Installed(_)));
    assert!(matches!(addon_install_result(InstallState::Update, manifest("1.0.0")), AddonInstallResult::Updated(_)));
    assert!(matches!(addon_install_result(InstallState::UpToDate, manifest("1.0.0")), AddonInstallResult::UpToDate(_)));
}

#[test]
fn addon_url_endpoint_is_under_the_backend() {
    assert_eq!(
        addon_url_endpoint("https://oxide-server.onrender.com", "drizzle"),
        "https://oxide-server.onrender.com/addon/drizzle/url"
    );
}
