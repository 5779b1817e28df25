//! The CLI's typed errors, how HTTP failures are classified into them, and
//! what an error report says (message lines and hints).

use vstd::prelude::*;
use vstd::string::*;

verus! {

/// Errors that the CLI explains with a hint.
#[derive(Debug)]
pub enum AnesisError {
    NotLoggedIn,
    HttpUnauthorized,
    HttpNotFound(String),
    HttpServerError(String),
    NetworkConnect,
    NetworkTimeout,
}

/// The message of each error.
pub open spec fn anesis_message(e: AnesisError) -> Seq<char> {
    match e {
        AnesisError::NotLoggedIn => "You are not logged in."@,
        AnesisError::HttpUnauthorized => "Authentication failed. Your session may have expired."@,
        AnesisError::HttpNotFound(r) => r@ + " was not found."@,
        AnesisError::HttpServerError(r) => "The server returned an error while fetching "@ + r@
            + "."@,
        AnesisError::NetworkConnect => "Could not connect to the server."@,
        AnesisError::NetworkTimeout => "The request timed out."@,
    }
}

/// The hint shown under each error.
pub open spec fn anesis_hint(e: AnesisError) -> Seq<char> {
    match e {
        AnesisError::NotLoggedIn => "Run `anesis login` to authenticate."@,
        AnesisError::HttpUnauthorized => "Run `anesis login` to re-authenticate."@,
        AnesisError::HttpNotFound(_) => "Check the name is correct and that you have access."@,
        AnesisError::HttpServerError(_) => "This is likely a temporary issue. Try again in a moment."@,
        AnesisError::NetworkConnect => "Check your internet connection and try again."@,
        AnesisError::NetworkTimeout => "Check your internet connection and try again."@,
    }
}

impl AnesisError {
    /// The human-readable message of this error.
    pub fn to_string(&self) -> (res: String)
        ensures
            res@ == anesis_message(*self),
    {
        match self {
            AnesisError::NotLoggedIn => String::from_str("You are not logged in."),
            AnesisError::HttpUnauthorized => String::from_str(
                "Authentication failed. Your session may have expired.",
            ),
            AnesisError::HttpNotFound(r) => {
                let mut s = r.clone();
                s.append(" was not found.");
                s
            },
            AnesisError::HttpServerError(r) => {
                let mut s = String::from_str("The server returned an error while fetching ");
                s.append(r.as_str());
                s.append(".");
                s
            },
            AnesisError::NetworkConnect => String::from_str("Could not connect to the server."),
            AnesisError::NetworkTimeout => String::from_str("The request timed out."),
        }
    }
}

/// The hint for an error: every one of them has one.
pub fn hint_for_anesis_error(err: &AnesisError) -> (res: Option<&'static str>)
    ensures
        res matches Some(h) && h@ == anesis_hint(*err),
{
    match err {
        AnesisError::NotLoggedIn => Some("Run `anesis login` to authenticate."),
        AnesisError::HttpUnauthorized => Some("Run `anesis login` to re-authenticate."),
        AnesisError::HttpNotFound(_) => Some("Check the name is correct and that you have access."),
        AnesisError::HttpServerError(_) => Some(
            "This is likely a temporary issue. Try again in a moment.",
        ),
        AnesisError::NetworkConnect => Some("Check your internet connection and try again."),
        AnesisError::NetworkTimeout => Some("Check your internet connection and try again."),
    }
}

/// What is known of a failed HTTP request: whether connecting failed,
/// whether it timed out, and the status code the server answered with.
#[derive(Debug, Clone, Copy, PartialEq, Eq, Structural)]
pub struct HttpFailure {
    pub is_connect: bool,
    pub is_timeout: bool,
    pub status: Option<u16>,
}

/// 401 or 403.
pub open spec fn is_auth_status(s: u16) -> bool {
    s == 401 || s == 403
}

/// 500 to 599.
pub open spec fn is_server_status(s: u16) -> bool {
    500 <= s && s <= 599
}

/// A failed request classified: a typed error, or a plain network error.
#[derive(Debug)]
pub enum ClassifiedError {
    Known(AnesisError),
    Network(String),
}

/// The classification of a failure, checked in order: connection, timeout,
/// 401/403, 404, 5xx; anything else is a plain network error naming the
/// resource.
pub open spec fn classify_spec(f: HttpFailure, resource: Seq<char>, res: ClassifiedError) -> bool {
    if f.is_connect {
        res matches ClassifiedError::Known(AnesisError::NetworkConnect)
    } else if f.is_timeout {
        res matches ClassifiedError::Known(AnesisError::NetworkTimeout)
    } else if f.status matches Some(s) && is_auth_status(s) {
        res matches ClassifiedError::Known(AnesisError::HttpUnauthorized)
    } else if f.status == Some(404u16) {
        res matches ClassifiedError::Known(AnesisError::HttpNotFound(r)) && r@ == resource
    } else if f.status matches Some(s) && is_server_status(s) {
        res matches ClassifiedError::Known(AnesisError::HttpServerError(r)) && r@ == resource
    } else {
        res matches ClassifiedError::Network(m) && m@ == "Network error while fetching "@ + resource
    }
}

/// Classifies a failed request for `resource`.
pub fn classify_reqwest_error(failure: &HttpFailure, resource: &str) -> (res: ClassifiedError)
    ensures
        classify_spec(*failure, resource@, res),
{
    if failure.is_connect {
        return ClassifiedError::Known(AnesisError::NetworkConnect);
    }
    if failure.is_timeout {
        return ClassifiedError::Known(AnesisError::NetworkTimeout);
    }
    if let Some(status) = failure.status {
        if status == 401 || status == 403 {
            return ClassifiedError::Known(AnesisError::HttpUnauthorized);
        }
        if status == 404 {
            return ClassifiedError::Known(AnesisError::HttpNotFound(String::from_str(resource)));
        }
        if 500 <= status && status <= 599 {
            return ClassifiedError::Known(AnesisError::HttpServerError(String::from_str(resource)));
        }
    }
    let mut m = String::from_str("Network error while fetching ");
    m.append(resource);
    ClassifiedError::Network(m)
}

/// The message shown for a failed request that reached the user unwrapped.
pub open spec fn friendly_message_spec(f: HttpFailure) -> Seq<char> {
    if f.is_connect {
        "Could not connect to the server."@
    } else if f.is_timeout {
        "The request timed out."@
    } else if f.status matches Some(s) && is_auth_status(s) {
        "Authentication failed. Your session may have expired."@
    } else if f.status == Some(404u16) {
        "The requested resource was not found."@
    } else if f.status matches Some(s) && is_server_status(s) {
        "The server returned an error. This is likely a temporary issue."@
    } else {
        "An unexpected network error occurred."@
    }
}

/// The message for a failed request.
pub fn friendly_reqwest_message(failure: &HttpFailure) -> (res: String)
    ensures
        res@ == friendly_message_spec(*failure),
{
    if failure.is_connect {
        return String::from_str("Could not connect to the server.");
    }
    if failure.is_timeout {
        return String::from_str("The request timed out.");
    }
    if let Some(status) = failure.status {
        if status == 401 || status == 403 {
            return String::from_str("Authentication failed. Your session may have expired.");
        }
        if status == 404 {
            return String::from_str("The requested resource was not found.");
        }
        if 500 <= status && status <= 599 {
            return String::from_str("The server returned an error. This is likely a temporary issue.");
        }
    }
    String::from_str("An unexpected network error occurred.")
}

/// The hint for a failed request, if there is one.
pub open spec fn reqwest_hint_spec(f: HttpFailure) -> Option<Seq<char>> {
    if f.is_connect || f.is_timeout {
        Some("Check your internet connection and try again."@)
    } else if f.status matches Some(s) && is_auth_status(s) {
        Some("Run `anesis login` to re-authenticate."@)
    } else {
        None
    }
}

/// The hint for a failed request.
pub fn hint_for_reqwest_error(failure: &HttpFailure) -> (res: Option<&'static str>)
    ensures
        match reqwest_hint_spec(*failure) {
            Some(h) => res matches Some(r) && r@ == h,
            None => res is None,
        },
{
    if failure.is_connect || failure.is_timeout {
        return Some("Check your internet connection and try again.");
    }
    if let Some(status) = failure.status {
        if status == 401 || status == 403 {
            return Some("Run `anesis login` to re-authenticate.");
        }
    }
    None
}

/// One error in a chain of causes, outermost first.
#[derive(Debug)]
pub enum Cause {
    /// A typed error of the CLI.
    Anesis(AnesisError),
    /// A failed HTTP request.
    Http(HttpFailure),
    /// Anything else.
    Other,
}

/// One line of an error report.
#[derive(Debug)]
pub enum ReportLine {
    /// `error: <text>`
    Error(String),
    /// `  hint: <text>`
    Hint(String),
}

/// The text of a report line, with its kind.
pub open spec fn line_spec(l: ReportLine) -> (bool, Seq<char>) {
    match l {
        ReportLine::Error(t) => (true, t@),
        ReportLine::Hint(t) => (false, t@),
    }
}

/// The first typed error in the chain, if any.
pub open spec fn first_anesis(chain: Seq<Cause>) -> Option<int>
    decreases chain.len(),
{
    if chain.len() == 0 {
        None
    } else {
        match first_anesis(chain.drop_last()) {
            Some(i) => Some(i),
            None => if chain.last() is Anesis {
                Some(chain.len() - 1)
            } else {
                None
            },
        }
    }
}

/// The first HTTP failure in the chain, if any.
pub open spec fn first_http(chain: Seq<Cause>) -> Option<int>
    decreases chain.len(),
{
    if chain.len() == 0 {
        None
    } else {
        match first_http(chain.drop_last()) {
            Some(i) => Some(i),
            None => if chain.last() is Http {
                Some(chain.len() - 1)
            } else {
                None
            },
        }
    }
}

/// What an error report says: in debug mode the debug rendering alone;
/// else, for a typed error anywhere in the chain, the outermost message and
/// that error's hint; else, for an HTTP failure in the chain, a friendly
/// message when the failure is the outermost error (the outermost message
/// otherwise) and its hint; else the outermost message.
pub open spec fn report_spec(
    outer: Seq<char>,
    debug: Option<Seq<char>>,
    chain: Seq<Cause>,
) -> Seq<(bool, Seq<char>)> {
    match debug {
        Some(d) => seq![(true, d)],
        None => match first_anesis(chain) {
            Some(i) => seq![(true, outer), (false, anesis_hint(chain[i]->Anesis_0))],
            None => match first_http(chain) {
                Some(i) => {
                    let f = chain[i]->Http_0;
                    let first = if chain[0] is Http {
                        friendly_message_spec(chain[0]->Http_0)
                    } else {
                        outer
                    };
                    match reqwest_hint_spec(f) {
                        Some(h) => seq![(true, first), (false, h)],
                        None => seq![(true, first)],
                    }
                },
                None => seq![(true, outer)],
            },
        },
    }
}

/// Finds the first cause that satisfies the kind test, outermost first.
fn position_of(chain: &Vec<Cause>, want_anesis: bool) -> (res: Option<usize>)
    ensures
        want_anesis ==> (res matches Some(j) ==> first_anesis(chain@) == Some(j as int)),
        want_anesis ==> (res is None ==> first_anesis(chain@) is None),
        !want_anesis ==> (res matches Some(j) ==> first_http(chain@) == Some(j as int)),
        !want_anesis ==> (res is None ==> first_http(chain@) is None),
        res matches Some(i) ==> i < chain@.len(),
{
    let n = chain.len();
    for i in 0..n
        invariant
            n == chain@.len(),
            want_anesis ==> first_anesis(chain@.take(i as int)) is None,
            !want_anesis ==> first_http(chain@.take(i as int)) is None,
    {
        assert(chain@.take(i + 1).drop_last() == chain@.take(i as int));
        let hit = match &chain[i] {
            Cause::Anesis(_) => want_anesis,
            Cause::Http(_) => !want_anesis,
            Cause::Other => false,
        };
        if hit {
            proof {
                lemma_first_prefix(chain@, i as int + 1, want_anesis);
            }
            return Some(i);
        }
    }
    assert(chain@.take(n as int) == chain@);
    None
}

/// The first typed error and the first HTTP failure found are what they
/// claim to be.
proof fn lemma_first_kinds(chain: Seq<Cause>)
    ensures
        first_anesis(chain) matches Some(i) ==> 0 <= i < chain.len() && chain[i] is Anesis,
        first_http(chain) matches Some(i) ==> 0 <= i < chain.len() && chain[i] is Http,
    decreases chain.len(),
{
    if chain.len() > 0 {
        lemma_first_kinds(chain.drop_last());
        if let Some(i) = first_anesis(chain.drop_last()) {
            assert(chain[i] == chain.drop_last()[i]);
        }
        if let Some(i) = first_http(chain.drop_last()) {
            assert(chain[i] == chain.drop_last()[i]);
        }
    }
}

/// A first occurrence within a prefix is the first occurrence overall.
proof fn lemma_first_prefix(chain: Seq<Cause>, k: int, anesis: bool)
    requires
        0 <= k <= chain.len(),
        anesis ==> first_anesis(chain.take(k)) is Some,
        !anesis ==> first_http(chain.take(k)) is Some,
    ensures
        anesis ==> first_anesis(chain) == first_anesis(chain.take(k)),
        !anesis ==> first_http(chain) == first_http(chain.take(k)),
    decreases chain.len() - k,
{
    if k < chain.len() {
        assert(chain.take(k + 1).drop_last() == chain.take(k));
        lemma_first_prefix(chain, k + 1, anesis);
    } else {
        assert(chain.take(k) == chain);
    }
}

/// The lines of the report for an error whose outermost message is `outer`,
/// whose chain of causes is `chain`, and whose debug rendering is `debug`
/// when debug output is switched on.
pub fn error_report(outer: &str, debug: Option<&str>, chain: &Vec<Cause>) -> (res: Vec<ReportLine>)
    ensures
        res@.map_values(|l: ReportLine| line_spec(l)) == report_spec(
            outer@,
            match debug {
                Some(d) => Some(d@),
                None => None,
            },
            chain@,
        ),
{
    let mut out: Vec<ReportLine> = Vec::new();
    if let Some(d) = debug {
        out.push(ReportLine::Error(String::from_str(d)));
        assert(out@.map_values(|l: ReportLine| line_spec(l)) =~= seq![(true, d@)]);
        return out;
    }
    proof {
        lemma_first_kinds(chain@);
    }
    if let Some(i) = position_of(chain, true) {
        if let Cause::Anesis(e) = &chain[i] {
            out.push(ReportLine::Error(String::from_str(outer)));
            if let Some(h) = hint_for_anesis_error(e) {
                out.push(ReportLine::Hint(String::from_str(h)));
            }
            assert(out@.map_values(|l: ReportLine| line_spec(l)) =~= seq![
                (true, outer@),
                (false, anesis_hint(*e)),
            ]);
        }
        return out;
    }
    if let Some(i) = position_of(chain, false) {
        if let Cause::Http(f) = &chain[i] {
            let first = match &chain[0] {
                Cause::Http(g) => friendly_reqwest_message(g),
                _ => String::from_str(outer),
            };
            out.push(ReportLine::Error(first));
            if let Some(h) = hint_for_reqwest_error(f) {
                out.push(ReportLine::Hint(String::from_str(h)));
            }
            assert(out@.map_values(|l: ReportLine| line_spec(l)) =~= report_spec(
                outer@,
                None,
                chain@,
            ));
        }
        return out;
    }
    out.push(ReportLine::Error(String::from_str(outer)));
    assert(out@.map_values(|l: ReportLine| line_spec(l)) =~= seq![(true, outer@)]);
    out
}

} // verus!
