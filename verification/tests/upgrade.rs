use chrono::{TimeZone, Utc};
use oxide_cli::time::Timestamp;
use oxide_cli::version::{
    asset_filename, build_windows_updater_script, current_platform, current_version, fresh_since, github_user_agent,
    is_cache_fresh, is_newer_version, newer_version_if_available, normalize_version_tag, parse_version,
    quoted_windows_path, release_asset_url, release_asset_url_from, render_upgrade_notice, UpgradeError,
    VersionCheckCache,
};

fn at(dt: chrono::DateTime<Utc>) -> Timestamp {
    Timestamp { secs: dt.timestamp(), nanos: dt.timestamp_subsec_nanos() }
}

fn cache(last_checked: &str, latest: &str) -> VersionCheckCache {
    VersionCheckCache { last_checked: last_checked.to_string(), latest_version: latest.to_string() }
}

#[test]
fn upgrade_normalize_version_tag_strips_leading_v() {
    let version = normalize_version_tag("v1.2.3").unwrap();
    assert_eq!(version, "1.2.3");
}

#[test]
fn upgrade_parse_version_rejects_invalid_formats() {
    let error = parse_version("1.2").unwrap_err();
    assert!(error.to_string().contains("patch"));
}

#[test]
fn upgrade_is_newer_version_compares_numeric_components() {
    assert!(is_newer_version("0.7.4", "0.8.0").unwrap());
    assert!(!is_newer_version("0.8.0", "0.7.4").unwrap());
}

#[test]
fn upgrade_asset_filename_appends_exe_for_windows_builds() {
    assert_eq!(asset_filename("windows-x86_64"), "oxide-windows-x86_64.exe");
    assert_eq!(asset_filename("linux-x86_64"), "oxide-linux-x86_64");
}

#[test]
fn upgrade_release_asset_url_uses_expected_github_pattern() {
    let asset_url = release_asset_url("1.2.3", "linux-x86_64");
    assert_eq!(
        asset_url,
        "https://github.com/oxide-cli/oxide/releases/download/v1.2.3/oxide-linux-x86_64"
    );
}

#[test]
fn upgrade_cache_is_fresh_for_recent_version_checks() {
    let now = Utc.with_ymd_and_hms(2026, 4, 11, 10, 30, 0).unwrap();
    assert!(is_cache_fresh(&cache("2026-04-11T10:00:00Z", "0.8.0"), at(now)));
}

#[test]
fn upgrade_cache_is_stale_after_one_hour() {
    let now = Utc.with_ymd_and_hms(2026, 4, 11, 11, 0, 1).unwrap();
    assert!(!is_cache_fresh(&cache("2026-04-11T10:00:00Z", "0.8.0"), at(now)));
}

#[test]
fn upgrade_render_upgrade_notice_mentions_upgrade_command() {
    let notice = render_upgrade_notice("0.8.0");
    assert!(notice.contains("Run `oxide upgrade` to update."));
    assert!(notice.contains(&format!("v{} → v0.8.0", current_version())));
}

#[test]
fn parse_version_succeeds_for_valid_semver() {
    assert_eq!(parse_version("1.2.3").unwrap(), (1, 2, 3));
}

#[test]
fn parse_version_succeeds_for_zero_components() {
    assert_eq!(parse_version("0.0.0").unwrap(), (0, 0, 0));
}

#[test]
fn parse_version_rejects_too_many_components() {
    assert!(parse_version("1.2.3.4").is_err());
}

#[test]
fn parse_version_rejects_non_numeric() {
    assert!(parse_version("1.2.beta").is_err());
}

#[test]
fn normalize_version_tag_without_v_prefix_is_unchanged() {
    assert_eq!(normalize_version_tag("2.5.1").unwrap(), "2.5.1");
}

#[test]
fn normalize_version_tag_rejects_invalid_semver() {
    assert!(normalize_version_tag("v1.2").is_err());
}

#[test]
fn is_newer_version_false_when_equal() {
    assert!(!is_newer_version("1.0.0", "1.0.0").unwrap());
}

#[test]
fn is_newer_version_patch_bump() {
    assert!(is_newer_version("1.0.0", "1.0.1").unwrap());
}

#[test]
fn is_newer_version_major_bump() {
    assert!(is_newer_version("0.9.9", "1.0.0").unwrap());
}

#[test]
fn cache_is_stale_for_invalid_date_format() {
    assert!(!is_cache_fresh(&cache("not-a-date", "0.8.0"), at(Utc::now())));
}

#[test]
fn error_messages_name_the_component_and_the_version() {
    assert_eq!(
        parse_version("1.2").unwrap_err().to_string(),
        "Missing patch version component in '1.2'"
    );
    assert_eq!(
        parse_version("1.x.3").unwrap_err().to_string(),
        "Invalid minor version component in '1.x.3'"
    );
    assert_eq!(
        parse_version("1.2.3.4").unwrap_err().to_string(),
        "Unsupported version format '1.2.3.4'"
    );
    assert_eq!(
        parse_version("").unwrap_err().to_string(),
        "Invalid major version component in ''"
    );
}

#[test]
fn parse_version_takes_a_plus_sign_and_rejects_overflow() {
    assert_eq!(parse_version("+1.2.3").unwrap(), (1, 2, 3));
    assert!(parse_version("-1.2.3").is_err());
    assert_eq!(parse_version("18446744073709551615.0.0").unwrap(), (u64::MAX, 0, 0));
    assert!(parse_version("18446744073709551616.0.0").is_err());
}

#[test]
fn comparison_is_numeric_not_textual() {
    assert!(is_newer_version("1.9.0", "1.10.0").unwrap());
    assert!(is_newer_version("1.2.3", "1.3.0").unwrap());
    assert!(!is_newer_version("2.0.0", "1.99.99").unwrap());
    assert!(is_newer_version("1.0", "1.0.1").is_err());
}

#[test]
fn newer_version_is_reported_only_when_newer_than_this_build() {
    assert_eq!(newer_version_if_available("99.0.0").unwrap(), Some("99.0.0".to_string()));
    assert_eq!(newer_version_if_available(current_version()).unwrap(), None);
    assert_eq!(newer_version_if_available("0.0.1").unwrap(), None);
    assert!(newer_version_if_available("latest").is_err());
}

#[test]
fn freshness_boundary_is_exactly_one_hour() {
    let checked = at(Utc.with_ymd_and_hms(2026, 4, 11, 10, 0, 0).unwrap());
    let just_before = Timestamp { secs: checked.secs + 3599, nanos: 999_999_999 };
    let exactly = Timestamp { secs: checked.secs + 3600, nanos: 0 };
    assert!(fresh_since(Some(checked), just_before));
    assert!(!fresh_since(Some(checked), exactly));
    assert!(!fresh_since(None, exactly));
    assert!(fresh_since(Some(checked), Timestamp { secs: checked.secs - 10, nanos: 0 }));
}

#[test]
fn check_time_with_offset_is_read_as_its_instant() {
    let now = at(Utc.with_ymd_and_hms(2026, 4, 11, 10, 30, 0).unwrap());
    assert!(is_cache_fresh(&cache("2026-04-11T12:00:00+02:00", "0.8.0"), now));
    assert!(!is_cache_fresh(&cache("2026-04-11T08:00:00Z", "0.8.0"), now));
}

#[test]
fn release_asset_url_from_uses_the_given_base() {
    assert_eq!(
        release_asset_url_from("http://localhost:9000/dl", "0.2.0", "windows-x86_64"),
        "http://localhost:9000/dl/v0.2.0/oxide-windows-x86_64.exe"
    );
    assert_eq!(asset_filename("macos-aarch64"), "oxide-macos-aarch64");
}

#[test]
fn supported_platforms_map_to_asset_names() {
    assert_eq!(current_platform("linux", "x86_64").unwrap(), "linux-x86_64");
    assert_eq!(current_platform("macos", "aarch64").unwrap(), "macos-aarch64");
    assert_eq!(current_platform("windows", "x86_64").unwrap(), "windows-x86_64");
    let err = current_platform("linux", "aarch64").unwrap_err();
    assert!(matches!(err, UpgradeError::UnsupportedPlatform { .. }));
    assert_eq!(err.to_string(), "Unsupported platform for self-update: linux-aarch64");
}

#[test]
fn windows_paths_are_quoted_for_cmd() {
    assert_eq!(quoted_windows_path("C:\\Program Files\\oxide.exe"), "\"C:\\Program Files\\oxide.exe\"");
    assert_eq!(quoted_windows_path("a\"b"), "\"a\"\"b\"");
}

#[test]
fn updater_script_moves_the_new_binary_into_place() {
    let script = build_windows_updater_script("C:\\o\\oxide.exe", "C:\\o\\new.tmp", "C:\\o\\up.cmd");
    assert_eq!(
        script,
        "@echo off\r\nping 127.0.0.1 -n 3 > nul\r\nmove /Y \"C:\\o\\new.tmp\" \"C:\\o\\oxide.exe\" > nul\r\ndel /Q \"C:\\o\\up.cmd\" > nul\r\n"
    );
}

#[test]
fn user_agent_names_the_cli_version() {
    assert_eq!(github_user_agent(), format!("oxide-cli/{}", current_version()));
}

#[test]
fn upgrade_helpers_normalize_version_tag_strips_leading_v() {
    assert_eq!(normalize_version_tag("v1.2.3").unwrap(), "1.2.3");
}

#[test]
fn upgrade_helpers_parse_version_rejects_invalid_formats() {
    assert!(parse_version("1.2").unwrap_err().to_string().contains("patch"));
}

#[test]
fn upgrade_helpers_is_newer_version_compares_numeric_components() {
    assert!(is_newer_version("0.7.4", "0.8.0").unwrap());
    assert!(!is_newer_version("0.8.0", "0.7.4").unwrap());
}

#[test]
fn upgrade_helpers_cache_is_fresh_for_recent_version_checks() {
    let now = Utc.with_ymd_and_hms(2026, 4, 11, 10, 30, 0).unwrap();
    assert!(is_cache_fresh(&cache("2026-04-11T10:00:00Z", "0.8.0"), at(now)));
}

#[test]
fn upgrade_helpers_cache_is_stale_after_one_hour() {
    let now = Utc.with_ymd_and_hms(2026, 4, 11, 11, 0, 1).unwrap();
    assert!(!is_cache_fresh(&cache("2026-04-11T10:00:00Z", "0.8.0"), at(now)));
}

#[test]
fn normalizing_a_normalized_tag_gives_it_back() {
    let once = normalize_version_tag("v3.14.159").unwrap();
    assert_eq!(normalize_version_tag(&once).unwrap(), once);
    assert!(normalize_version_tag("vv1.2.3").is_err());
}

#[test]
fn freshness_only_runs_out() {
    let checked = at(Utc.with_ymd_and_hms(2026, 1, 1, 0, 0, 0).unwrap());
    let later = Timestamp { secs: checked.secs + 1800, nanos: 0 };
    let earlier = Timestamp { secs: checked.secs + 60, nanos: 5 };
    assert!(fresh_since(Some(checked), later));
    assert!(fresh_since(Some(checked), earlier));
}
