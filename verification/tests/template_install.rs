use oxide_cli::template_cache::CachedTemplate;
use oxide_cli::template_install::{
    classify_install_state, classify_install_state_for_tests, install_result_after_download,
    template_info_url, InstallResult, InstallState,
};

fn cached_template(commit_sha: &str) -> CachedTemplate {
    CachedTemplate {
        name: "react-vite".to_string(),
        version: "1.0.0".to_string(),
        source: "https://github.com/example/react-vite".to_string(),
        path: "react-vite".to_string(),
        official: true,
        commit_sha: commit_sha.to_string(),
    }
}

#[test]
fn classify_install_state_returns_install_when_template_is_not_cached() {
    assert_eq!(classify_install_state_for_tests(None, true, "sha-1"), "install");
}

#[test]
fn classify_install_state_returns_install_when_directory_is_missing() {
    let cached = cached_template("sha-1");
    assert_eq!(classify_install_state_for_tests(Some(&cached), false, "sha-1"), "install");
}

#[test]
fn template_install_classify_install_state_returns_up_to_date_when_commit_matches() {
    let cached = cached_template("sha-1");
    assert_eq!(classify_install_state_for_tests(Some(&cached), true, "sha-1"), "up_to_date");
}

#[test]
fn template_install_classify_install_state_returns_update_when_commit_differs() {
    let cached = cached_template("sha-1");
    assert_eq!(classify_install_state_for_tests(Some(&cached), true, "sha-2"), "update");
}

#[test]
fn install_result_message_formats_update_message_with_version() {
    let message = InstallResult::Updated { version: "1.2.3".to_string() }.message("react-vite");
    assert_eq!(message.as_deref(), Some("Template 'react-vite' updated to v1.2.3"));
}

#[test]
fn install_result_message_is_silent_for_up_to_date_templates() {
    assert!(InstallResult::UpToDate.message("react-vite").is_none());
}

#[test]
fn installed_and_up_to_date_messages() {
    assert_eq!(
        InstallResult::Installed.message("react-vite").as_deref(),
        Some("Template 'react-vite' downloaded successfully")
    );
    assert_eq!(
        InstallResult::up_to_date_message("react-vite"),
        "Template 'react-vite' is already up to date"
    );
}

#[test]
fn decision_values_match_their_names() {
    let cached = cached_template("sha-1");
    assert_eq!(classify_install_state(None, false, "x"), InstallState::Install);
    assert_eq!(classify_install_state(Some(&cached), true, "sha-1"), InstallState::UpToDate);
    assert_eq!(classify_install_state(Some(&cached), true, "sha-10"), InstallState::Update);
}

#[test]
fn result_after_download_reports_the_recorded_version() {
    let recorded = CachedTemplate { version: "4.5.6".to_string(), ..cached_template("sha-2") };
    assert_eq!(install_result_after_download(InstallState::Install, &recorded), InstallResult::Installed);
    assert_eq!(
        install_result_after_download(InstallState::Update, &recorded),
        InstallResult::Updated { version: "4.5.6".to_string() }
    );
}

#[test]
fn template_info_url_is_under_the_backend() {
    assert_eq!(template_info_url("http://localhost:3000", "react-vite"), "http://localhost:3000/template/react-vite/url");
}
