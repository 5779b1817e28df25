use oxide_cli::errors::{
    classify_reqwest_error, error_report, friendly_reqwest_message, hint_for_anesis_error,
    hint_for_reqwest_error, AnesisError, Cause, ClassifiedError, HttpFailure, ReportLine,
};

fn status(code: u16) -> HttpFailure {
    HttpFailure { is_connect: false, is_timeout: false, status: Some(code) }
}

fn lines(report: &[ReportLine]) -> Vec<String> {
    report
        .iter()
        .map(|l| match l {
            ReportLine::Error(t) => format!("error: {t}"),
            ReportLine::Hint(t) => format!("hint: {t}"),
        })
        .collect()
}

#[test]
fn not_logged_in_display() {
    assert_eq!(AnesisError::NotLoggedIn.to_string(), "You are not logged in.");
}

#[test]
fn http_unauthorized_display() {
    assert_eq!(
        AnesisError::HttpUnauthorized.to_string(),
        "Authentication failed. Your session may have expired."
    );
}

#[test]
fn http_not_found_display() {
    let err = AnesisError::HttpNotFound("template 'react-vite'".to_string());
    assert_eq!(err.to_string(), "template 'react-vite' was not found.");
}

#[test]
fn http_server_error_display() {
    let err = AnesisError::HttpServerError("template list".to_string());
    assert_eq!(err.to_string(), "The server returned an error while fetching template list.");
}

#[test]
fn network_connect_display() {
    assert_eq!(AnesisError::NetworkConnect.to_string(), "Could not connect to the server.");
}

#[test]
fn network_timeout_display() {
    assert_eq!(AnesisError::NetworkTimeout.to_string(), "The request timed out.");
}

#[test]
fn anesis_error_implements_debug() {
    let err = AnesisError::HttpNotFound("foo".into());
    assert!(!format!("{err:?}").is_empty());
}

#[test]
fn all_variants_have_non_empty_messages() {
    let variants = vec![
        AnesisError::NotLoggedIn,
        AnesisError::HttpUnauthorized,
        AnesisError::HttpNotFound("x".into()),
        AnesisError::HttpServerError("x".into()),
        AnesisError::NetworkConnect,
        AnesisError::NetworkTimeout,
    ];
    for v in variants {
        assert!(!v.to_string().is_empty());
        assert!(hint_for_anesis_error(&v).is_some());
    }
}

#[test]
fn classification_checks_connection_timeout_then_status() {
    let connect = HttpFailure { is_connect: true, is_timeout: true, status: Some(404) };
    assert!(matches!(classify_reqwest_error(&connect, "x"), ClassifiedError::Known(AnesisError::NetworkConnect)));
    let timeout = HttpFailure { is_connect: false, is_timeout: true, status: Some(500) };
    assert!(matches!(classify_reqwest_error(&timeout, "x"), ClassifiedError::Known(AnesisError::NetworkTimeout)));
    assert!(matches!(classify_reqwest_error(&status(401), "x"), ClassifiedError::Known(AnesisError::HttpUnauthorized)));
    assert!(matches!(classify_reqwest_error(&status(403), "x"), ClassifiedError::Known(AnesisError::HttpUnauthorized)));
    assert!(matches!(classify_reqwest_error(&status(404), "addon 'a'"), ClassifiedError::Known(AnesisError::HttpNotFound(r)) if r == "addon 'a'"));
    assert!(matches!(classify_reqwest_error(&status(503), "list"), ClassifiedError::Known(AnesisError::HttpServerError(r)) if r == "list"));
    assert!(matches!(classify_reqwest_error(&status(418), "list"), ClassifiedError::Network(m) if m == "Network error while fetching list"));
    let none = HttpFailure { is_connect: false, is_timeout: false, status: None };
    assert!(matches!(classify_reqwest_error(&none, "y"), ClassifiedError::Network(m) if m == "Network error while fetching y"));
}

#[test]
fn friendly_messages_and_hints_for_http_failures() {
    assert_eq!(friendly_reqwest_message(&status(404)), "The requested resource was not found.");
    assert_eq!(friendly_reqwest_message(&status(599)), "The server returned an error. This is likely a temporary issue.");
    assert_eq!(friendly_reqwest_message(&status(600)), "An unexpected network error occurred.");
    assert_eq!(hint_for_reqwest_error(&status(403)), Some("Run `anesis login` to re-authenticate."));
    assert_eq!(hint_for_reqwest_error(&status(404)), None);
    let timeout = HttpFailure { is_connect: false, is_timeout: true, status: None };
    assert_eq!(hint_for_reqwest_error(&timeout), Some("Check your internet connection and try again."));
}

#[test]
fn report_prefers_typed_errors_and_uses_the_outer_message() {
    let chain = vec![Cause::Other, Cause::Http(status(500)), Cause::Anesis(AnesisError::NotLoggedIn)];
    assert_eq!(
        lines(&error_report("fetching user account", None, &chain)),
        vec!["error: fetching user account", "hint: Run `anesis login` to authenticate."]
    );
}

#[test]
fn report_for_an_outermost_http_failure_is_friendly() {
    let chain = vec![Cause::Http(status(401))];
    assert_eq!(
        lines(&error_report("HTTP status client error (401 Unauthorized)", None, &chain)),
        vec![
            "error: Authentication failed. Your session may have expired.",
            "hint: Run `anesis login` to re-authenticate."
        ]
    );
    let wrapped = vec![Cause::Other, Cause::Http(status(404))];
    assert_eq!(lines(&error_report("Failed to fetch", None, &wrapped)), vec!["error: Failed to fetch"]);
}

#[test]
fn report_in_debug_mode_is_the_debug_rendering() {
    let chain = vec![Cause::Anesis(AnesisError::NotLoggedIn)];
    assert_eq!(lines(&error_report("outer", Some("Debug(...)"), &chain)), vec!["error: Debug(...)"]);
    assert_eq!(lines(&error_report("plain", None, &vec![Cause::Other])), vec!["error: plain"]);
}
