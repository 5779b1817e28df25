//! Release versions of the CLI: parsing `MAJOR.MINOR.PATCH`, comparing
//! versions, the release asset names and URLs, the upgrade notice and the
//! freshness of the cached version check.

use vstd::prelude::*;
use vstd::string::*;

use crate::time::{Timestamp, parse_rfc3339, rfc3339_instant, elapsed_nanos, nanos_between};
use crate::text::{chars_of, replace_all, split_char, split_spec, starts_with, pieces_view};

verus! {

/// The version of this CLI (the package version).
pub fn current_version() -> (res: &'static str)
    ensures
        res@ == current_version_spec(),
{
    "0.1.0"
}

/// The package version, as text.
pub open spec fn current_version_spec() -> Seq<char> {
    "0.1.0"@
}

/// The base URL of the release downloads when no override is configured.
pub fn default_download_base_url() -> (res: &'static str)
    ensures
        res@ == default_download_base_spec(),
{
    "https://github.com/oxide-cli/oxide/releases/download"
}

/// The default download base, as text.
pub open spec fn default_download_base_spec() -> Seq<char> {
    "https://github.com/oxide-cli/oxide/releases/download"@
}

/// The endpoint that reports the latest release when no override is configured.
pub fn default_releases_api_url() -> (res: &'static str)
    ensures
        res@ == "https://api.github.com/repos/oxide-cli/oxide/releases/latest"@,
{
    "https://api.github.com/repos/oxide-cli/oxide/releases/latest"
}

/// The `User-Agent` sent to GitHub: `oxide-cli/` and the package version.
pub fn github_user_agent() -> (res: String)
    ensures
        res@ == "oxide-cli/"@ + current_version_spec(),
{
    let mut s = String::from_str("oxide-cli/");
    s.append(current_version());
    s
}

/// One of the three numeric components of a version.
#[derive(Clone, Copy, Debug, PartialEq, Eq, Structural)]
pub enum VersionPart {
    Major,
    Minor,
    Patch,
}

/// The word that names a component in error messages.
pub open spec fn part_label(p: VersionPart) -> Seq<char> {
    match p {
        VersionPart::Major => "major"@,
        VersionPart::Minor => "minor"@,
        VersionPart::Patch => "patch"@,
    }
}

impl VersionPart {
    /// The word that names this component.
    pub fn label(&self) -> (res: &'static str)
        ensures
            res@ == part_label(*self),
    {
        match self {
            VersionPart::Major => "major",
            VersionPart::Minor => "minor",
            VersionPart::Patch => "patch",
        }
    }
}

/// Why a version string was rejected.
#[derive(Clone, Copy, Debug, PartialEq, Eq, Structural)]
pub enum VersionFault {
    /// The component is absent (too few dot-separated parts).
    Missing(VersionPart),
    /// The component is present but is not a `u64`.
    Invalid(VersionPart),
    /// There are more than three dot-separated parts.
    Unsupported,
}

/// A rejected version string, with the text that was rejected.
#[derive(Clone, Debug)]
pub struct VersionError {
    pub fault: VersionFault,
    pub version: String,
}

/// The message of a rejected version.
pub open spec fn version_error_message(fault: VersionFault, version: Seq<char>) -> Seq<char> {
    match fault {
        VersionFault::Missing(p) => "Missing "@ + part_label(p) + " version component in '"@
            + version + "'"@,
        VersionFault::Invalid(p) => "Invalid "@ + part_label(p) + " version component in '"@
            + version + "'"@,
        VersionFault::Unsupported => "Unsupported version format '"@ + version + "'"@,
    }
}

impl VersionError {
    /// The human-readable message of this error.
    pub fn to_string(&self) -> (res: String)
        ensures
            res@ == version_error_message(self.fault, self.version@),
    {
        let mut s;
        match self.fault {
            VersionFault::Missing(p) => {
                s = String::from_str("Missing ");
                s.append(p.label());
                s.append(" version component in '");
            },
            VersionFault::Invalid(p) => {
                s = String::from_str("Invalid ");
                s.append(p.label());
                s.append(" version component in '");
            },
            VersionFault::Unsupported => {
                s = String::from_str("Unsupported version format '");
            },
        }
        s.append(self.version.as_str());
        s.append("'");
        s
    }
}

/// An ASCII decimal digit.
pub open spec fn is_digit(c: char) -> bool {
    '0' <= c && c <= '9'
}

/// The value of a string of decimal digits.
pub open spec fn digits_value(s: Seq<char>) -> nat
    decreases s.len(),
{
    if s.len() == 0 {
        0
    } else {
        digits_value(s.drop_last()) * 10 + (s.last() as nat - '0' as nat) as nat
    }
}

/// The digits of an unsigned number: the text without one leading `+`.
pub open spec fn unsigned_digits(s: Seq<char>) -> Seq<char> {
    if s.len() > 0 && s[0] == '+' {
        s.skip(1)
    } else {
        s
    }
}

/// What `u64::from_str` accepts: an optional `+`, then one or more ASCII
/// digits whose value fits in a `u64`.
pub open spec fn parse_u64_spec(s: Seq<char>) -> Option<u64> {
    let d = unsigned_digits(s);
    if d.len() > 0 && (forall|i: int| 0 <= i < d.len() ==> is_digit(#[trigger] d[i]))
        && digits_value(d) <= u64::MAX {
        Some(digits_value(d) as u64)
    } else {
        None
    }
}

/// A longer string of digits never has a smaller value.
pub proof fn lemma_digits_prefix(s: Seq<char>, k: int)
    requires
        0 <= k <= s.len(),
        forall|i: int| 0 <= i < s.len() ==> is_digit(#[trigger] s[i]),
    ensures
        digits_value(s.take(k)) <= digits_value(s),
    decreases s.len() - k,
{
    if k < s.len() {
        lemma_digits_prefix(s, k + 1);
        assert(s.take(k + 1).drop_last() == s.take(k));
        assert(is_digit(s[k]));
    } else {
        assert(s.take(k) == s);
    }
}

/// `u64::from_str` on the characters of `s`.
pub fn parse_u64(s: &str) -> (res: Option<u64>)
    ensures
        res == parse_u64_spec(s@),
{
    let v = chars_of(s);
    let n = v.len();
    let start: usize = if n > 0 && v[0] == '+' { 1 } else { 0 };
    let ghost d = unsigned_digits(s@);
    assert(d == v@.skip(start as int));
    if start >= n {
        assert(d.len() == 0);
        return None;
    }
    let mut val: u64 = 0;
    let mut overflow = false;
    for i in start..n
        invariant
            n == v@.len(),
            start <= n,
            v@ == s@,
            d == unsigned_digits(s@),
            d == v@.skip(start as int),
            forall|j: int| 0 <= j < i - start ==> is_digit(#[trigger] d[j]),
            !overflow ==> val as nat == digits_value(d.take(i - start)),
            overflow ==> digits_value(d.take(i - start)) > u64::MAX,
    {
        let c = v[i];
        let ghost k = i - start;
        assert(d[k] == c);
        if !('0' <= c && c <= '9') {
            assert(!is_digit(d[k]));
            return None;
        }
        assert(d.take(k + 1).drop_last() == d.take(k));
        assert(d.take(k + 1).last() == c);
        let dig: u64 = (c as u32 - '0' as u32) as u64;
        if !overflow {
            match val.checked_mul(10) {
                Some(t) => match t.checked_add(dig) {
                    Some(u) => {
                        val = u;
                    },
                    None => {
                        overflow = true;
                    },
                },
                None => {
                    overflow = true;
                },
            }
        }
    }
    assert(d.take(n - start) == d);
    if overflow {
        None
    } else {
        Some(val)
    }
}

/// The outcome of reading one component from the dot-separated parts.
pub open spec fn component_spec(parts: Seq<Seq<char>>, i: int, part: VersionPart) -> Result<
    u64,
    VersionFault,
> {
    if i >= parts.len() {
        Err(VersionFault::Missing(part))
    } else {
        match parse_u64_spec(parts[i]) {
            Some(x) => Ok(x),
            None => Err(VersionFault::Invalid(part)),
        }
    }
}

/// The outcome of parsing `MAJOR.MINOR.PATCH`: the components are read in
/// order, the first failure is reported, and a fourth part is rejected.
pub open spec fn parse_version_spec(v: Seq<char>) -> Result<(u64, u64, u64), VersionFault> {
    let parts = split_spec(v, '.');
    match component_spec(parts, 0, VersionPart::Major) {
        Err(f) => Err(f),
        Ok(a) => match component_spec(parts, 1, VersionPart::Minor) {
            Err(f) => Err(f),
            Ok(b) => match component_spec(parts, 2, VersionPart::Patch) {
                Err(f) => Err(f),
                Ok(c) => if parts.len() > 3 {
                    Err(VersionFault::Unsupported)
                } else {
                    Ok((a, b, c))
                },
            },
        },
    }
}

/// Reads one version component (absent when `component` is `None`).
pub fn parse_version_component(component: Option<&Vec<char>>, part: VersionPart, version: &str) -> (res:
    Result<u64, VersionError>)
    ensures
        match component {
            None => res matches Err(e) && e.fault == VersionFault::Missing(part) && e.version@
                == version@,
            Some(c) => match parse_u64_spec(c@) {
                Some(x) => res == Ok::<u64, VersionError>(x),
                None => res matches Err(e) && e.fault == VersionFault::Invalid(part)
                    && e.version@ == version@,
            },
        },
{
    match component {
        None => Err(VersionError { fault: VersionFault::Missing(part), version: String::from_str(version) }),
        Some(c) => {
            let text = crate::text::string_from_chars(c.as_slice());
            match parse_u64(text.as_str()) {
                Some(x) => Ok(x),
                None => Err(
                    VersionError { fault: VersionFault::Invalid(part), version: String::from_str(version) },
                ),
            }
        },
    }
}

/// Parses `MAJOR.MINOR.PATCH` into its three components.
pub fn parse_version(version: &str) -> (res: Result<(u64, u64, u64), VersionError>)
    ensures
        match res {
            Ok(t) => parse_version_spec(version@) == Ok::<(u64, u64, u64), VersionFault>(t),
            Err(e) => parse_version_spec(version@) == Err::<(u64, u64, u64), VersionFault>(e.fault)
                && e.version@ == version@,
        },
{
    let v = chars_of(version);
    let parts = split_char(&v, '.');
    let ghost pv = split_spec(version@, '.');
    assert(pieces_view(parts@) == pv);
    proof {
        crate::text::lemma_split_nonempty(version@, '.');
    }
    assert(parts@[0]@ == pv[0]);
    let major = parse_version_component(Some(&parts[0]), VersionPart::Major, version)?;
    let minor = parse_version_component(
        if parts.len() > 1 { Some(&parts[1]) } else { None },
        VersionPart::Minor,
        version,
    )?;
    if parts.len() > 1 {
        assert(parts@[1]@ == pv[1]);
    }
    let patch = parse_version_component(
        if parts.len() > 2 { Some(&parts[2]) } else { None },
        VersionPart::Patch,
        version,
    )?;
    if parts.len() > 2 {
        assert(parts@[2]@ == pv[2]);
    }
    if parts.len() > 3 {
        return Err(VersionError { fault: VersionFault::Unsupported, version: String::from_str(version) });
    }
    Ok((major, minor, patch))
}

/// The version named by a release tag: the tag without one leading `v`.
pub open spec fn tag_version(tag: Seq<char>) -> Seq<char> {
    if tag.len() > 0 && tag[0] == 'v' {
        tag.skip(1)
    } else {
        tag
    }
}

/// Strips a leading `v` from a release tag and checks that what remains is
/// a `MAJOR.MINOR.PATCH` version.
pub fn normalize_version_tag(tag_name: &str) -> (res: Result<String, VersionError>)
    ensures
        match res {
            Ok(s) => s@ == tag_version(tag_name@) && parse_version_spec(tag_version(tag_name@)) is Ok,
            Err(e) => parse_version_spec(tag_version(tag_name@)) == Err::<(u64, u64, u64), VersionFault>(e.fault)
                && e.version@ == tag_version(tag_name@),
        },
{
    let chars = chars_of(tag_name);
    let version: String = if chars.len() > 0 && chars[0] == 'v' {
        let rest = crate::text::slice_chars(&chars, 1, chars.len());
        assert(rest@ == tag_name@.skip(1));
        crate::text::string_from_chars(rest.as_slice())
    } else {
        crate::text::string_from_chars(chars.as_slice())
    };
    assert(version@ == tag_version(tag_name@));
    parse_version(version.as_str())?;
    Ok(version)
}

/// `a` is a later version than `b` (lexicographic on the components).
pub open spec fn version_gt(a: (u64, u64, u64), b: (u64, u64, u64)) -> bool {
    a.0 > b.0 || (a.0 == b.0 && (a.1 > b.1 || (a.1 == b.1 && a.2 > b.2)))
}

/// "Later than" is a strict total order on versions: no version is later
/// than itself, of two different versions exactly one is the later, and a
/// version later than a later one is later still.
pub proof fn law_newer_is_strict_total_order(a: (u64, u64, u64), b: (u64, u64, u64), c: (u64, u64, u64))
    ensures
        !version_gt(a, a),
        version_gt(a, b) ==> !version_gt(b, a),
        a != b ==> version_gt(a, b) || version_gt(b, a),
        version_gt(a, b) && version_gt(b, c) ==> version_gt(a, c),
{
}

/// Versions are compared component by component, each as a number: a
/// larger major number makes a version later whatever follows; with equal
/// majors a larger minor number does; with equal majors and minors the
/// version with the larger patch number is the later one (so 0.8.10 is
/// later than 0.8.9).
pub proof fn law_newer_compares_numbers(a: (u64, u64, u64), b: (u64, u64, u64))
    ensures
        a.0 > b.0 ==> version_gt(a, b),
        a.0 < b.0 ==> !version_gt(a, b),
        a.0 == b.0 && a.1 > b.1 ==> version_gt(a, b),
        a.0 == b.0 && a.1 < b.1 ==> !version_gt(a, b),
        a.0 == b.0 && a.1 == b.1 ==> (version_gt(a, b) <==> a.2 > b.2),
{
}

/// A version is later than another exactly when its number, read with the
/// major, minor and patch numbers as digits in base 2^64, is larger.
pub proof fn law_newer_is_numeric_order(a: (u64, u64, u64), b: (u64, u64, u64))
    ensures
        version_gt(a, b) <==> version_number(a) > version_number(b),
{
    let m: int = 0x1_0000_0000_0000_0000;
    let (a0, a1, a2) = (a.0 as int, a.1 as int, a.2 as int);
    let (b0, b1, b2) = (b.0 as int, b.1 as int, b.2 as int);
    assert(a1 * m + a2 < m * m && b1 * m + b2 < m * m && a1 * m + a2 >= 0 && b1 * m + b2 >= 0)
        by (nonlinear_arith)
        requires
            0 <= a1 < m,
            0 <= a2 < m,
            0 <= b1 < m,
            0 <= b2 < m,
    ;
    assert(a0 > b0 ==> a0 * (m * m) >= b0 * (m * m) + m * m) by (nonlinear_arith)
        requires
            m > 0,
    ;
    assert(a0 < b0 ==> b0 * (m * m) >= a0 * (m * m) + m * m) by (nonlinear_arith)
        requires
            m > 0,
    ;
    assert(a0 == b0 ==> a0 * (m * m) == b0 * (m * m));
    assert(a1 > b1 ==> a1 * m >= b1 * m + m) by (nonlinear_arith)
        requires
            m > 0,
    ;
    assert(a1 < b1 ==> b1 * m >= a1 * m + m) by (nonlinear_arith)
        requires
            m > 0,
    ;
}

/// The number of a version: major, minor and patch as digits in base 2^64.
pub open spec fn version_number(v: (u64, u64, u64)) -> int {
    let m: int = 0x1_0000_0000_0000_0000;
    v.0 as int * (m * m) + v.1 as int * m + v.2 as int
}

/// The first piece of a split starts with the text's first character,
/// when that is not the separator.
proof fn lemma_split_first(s: Seq<char>, sep: char)
    requires
        s.len() > 0,
        s[0] != sep,
    ensures
        split_spec(s, sep).len() > 0,
        split_spec(s, sep)[0].len() > 0,
        split_spec(s, sep)[0][0] == s[0],
    decreases s.len(),
{
    crate::text::lemma_split_nonempty(s, sep);
    let init = s.drop_last();
    let rest = split_spec(init, sep);
    crate::text::lemma_split_nonempty(init, sep);
    if s.len() > 1 {
        lemma_split_first(init, sep);
        assert(init[0] == s[0]);
        if s.last() == sep {
            assert(split_spec(s, sep) == rest.push(Seq::<char>::empty()));
            assert(split_spec(s, sep)[0] == rest[0]);
        } else {
            let r = rest.update(rest.len() - 1, rest.last().push(s.last()));
            assert(split_spec(s, sep) == r);
            if rest.len() == 1 {
                assert(r[0] == rest[0].push(s.last()));
            } else {
                assert(r[0] == rest[0]);
            }
        }
    } else {
        assert(init =~= Seq::<char>::empty());
        assert(rest == seq![Seq::<char>::empty()]);
        assert(s.last() == s[0]);
        assert(split_spec(s, sep) == rest.update(0, rest[0].push(s[0])));
    }
}

/// Normalizing a tag that normalizes gives back the same version: a valid
/// version never starts with `v`.
pub proof fn law_normalize_idempotent(tag: Seq<char>)
    requires
        parse_version_spec(tag_version(tag)) is Ok,
    ensures
        tag_version(tag_version(tag)) == tag_version(tag),
        parse_version_spec(tag_version(tag_version(tag))) is Ok,
{
    let v = tag_version(tag);
    if v.len() > 0 && v[0] == 'v' {
        lemma_split_first(v, '.');
        let p0 = split_spec(v, '.')[0];
        assert(unsigned_digits(p0) == p0);
        assert(!is_digit(p0[0]));
        assert(parse_u64_spec(p0) is None);
        assert(false);
    }
}

/// Whether `latest` is a later version than `current`; `latest` is parsed
/// first, so its error is the one reported when both are malformed.
pub fn is_newer_version(current: &str, latest: &str) -> (res: Result<bool, VersionError>)
    ensures
        match (parse_version_spec(latest@), parse_version_spec(current@)) {
            (Err(f), _) => res matches Err(e) && e.fault == f && e.version@ == latest@,
            (Ok(_), Err(f)) => res matches Err(e) && e.fault == f && e.version@ == current@,
            (Ok(l), Ok(c)) => res == Ok::<bool, VersionError>(version_gt(l, c)),
        },
{
    let l = parse_version(latest)?;
    let c = parse_version(current)?;
    Ok(l.0 > c.0 || (l.0 == c.0 && (l.1 > c.1 || (l.1 == c.1 && l.2 > c.2))))
}

/// `latest` when it is later than this CLI's version, else `None`.
pub fn newer_version_if_available(latest: &str) -> (res: Result<Option<String>, VersionError>)
    ensures
        match (parse_version_spec(latest@), parse_version_spec(current_version_spec())) {
            (Err(f), _) => res matches Err(e) && e.fault == f && e.version@ == latest@,
            (Ok(_), Err(f)) => res matches Err(e) && e.fault == f,
            (Ok(l), Ok(c)) => match res {
                Ok(Some(s)) => version_gt(l, c) && s@ == latest@,
                Ok(None) => !version_gt(l, c),
                Err(_) => false,
            },
        },
{
    if is_newer_version(current_version(), latest)? {
        Ok(Some(String::from_str(latest)))
    } else {
        Ok(None)
    }
}

/// The notice printed when a newer release exists.
pub open spec fn upgrade_notice_spec(latest: Seq<char>) -> Seq<char> {
    "\n  A new version of Oxide is available: v"@ + current_version_spec() + " → v"@ + latest
        + "\n  Run `oxide upgrade` to update."@
}

/// The notice printed when `latest` is available.
pub fn render_upgrade_notice(latest_version: &str) -> (res: String)
    ensures
        res@ == upgrade_notice_spec(latest_version@),
{
    let mut s = String::from_str("\n  A new version of Oxide is available: v");
    s.append(current_version());
    s.append(" → v");
    s.append(latest_version);
    s.append("\n  Run `oxide upgrade` to update.");
    s
}

/// The cached result of the last check for a newer release.
#[derive(Debug)]
pub struct VersionCheckCache {
    pub last_checked: String,
    pub latest_version: String,
}

/// How long a version check stays fresh: one hour, in nanoseconds.
pub open spec fn freshness_window() -> int {
    3_600_000_000_000
}

/// The check is fresh when its time is valid RFC 3339 and less than an
/// hour lies between it and `now`.
pub open spec fn cache_fresh_spec(last_checked: Seq<char>, now: Timestamp) -> bool {
    match rfc3339_instant(last_checked) {
        Some((s, n)) => elapsed_nanos(now, Timestamp { secs: s, nanos: n }) < freshness_window(),
        None => false,
    }
}

/// A check that is fresh at some time was fresh at every earlier time too
/// (freshness only runs out as time passes).
pub proof fn law_freshness_runs_out(last_checked: Seq<char>, earlier: Timestamp, later: Timestamp)
    requires
        elapsed_nanos(later, earlier) >= 0,
        cache_fresh_spec(last_checked, later),
    ensures
        cache_fresh_spec(last_checked, earlier),
{
}

/// Whether a check made at `checked` (none when its time could not be
/// read) is still fresh at `now`: less than an hour lies between them.
pub fn fresh_since(checked: Option<Timestamp>, now: Timestamp) -> (res: bool)
    ensures
        res == match checked {
            Some(t) => elapsed_nanos(now, t) < freshness_window(),
            None => false,
        },
{
    match checked {
        Some(t) => nanos_between(now, t) < 3_600_000_000_000i128,
        None => false,
    }
}

/// Whether the cached check was made less than an hour before `now`; an
/// unreadable time is never fresh.
pub fn is_cache_fresh(cache: &VersionCheckCache, now: Timestamp) -> (res: bool)
    ensures
        res == cache_fresh_spec(cache.last_checked@, now),
{
    fresh_since(parse_rfc3339(cache.last_checked.as_str()), now)
}

/// The release asset's file name for a platform.
pub open spec fn asset_filename_spec(platform: Seq<char>) -> Seq<char> {
    if "windows-"@.is_prefix_of(platform) {
        "oxide-"@ + platform + ".exe"@
    } else {
        "oxide-"@ + platform
    }
}

/// The release asset's file name: Windows builds end in `.exe`.
pub fn asset_filename(platform: &str) -> (res: String)
    ensures
        res@ == asset_filename_spec(platform@),
{
    let mut s = String::from_str("oxide-");
    s.append(platform);
    if starts_with(platform, "windows-") {
        s.append(".exe");
    }
    s
}

/// The download URL of a release asset under a base URL.
pub open spec fn release_asset_url_spec(base: Seq<char>, version: Seq<char>, platform: Seq<char>) -> Seq<char> {
    base + "/v"@ + version + "/"@ + asset_filename_spec(platform)
}

/// The download URL of a release asset under the given base URL.
pub fn release_asset_url_from(base: &str, version: &str, platform: &str) -> (res: String)
    ensures
        res@ == release_asset_url_spec(base@, version@, platform@),
{
    let mut s = String::from_str(base);
    s.append("/v");
    s.append(version);
    s.append("/");
    let name = asset_filename(platform);
    s.append(name.as_str());
    s
}

/// The download URL of a release asset under the default base URL.
pub fn release_asset_url(version: &str, platform: &str) -> (res: String)
    ensures
        res@ == release_asset_url_spec(default_download_base_spec(), version@, platform@),
{
    release_asset_url_from(default_download_base_url(), version, platform)
}

/// Why a self-upgrade step cannot proceed.
#[derive(Clone, Debug)]
pub enum UpgradeError {
    /// No release asset is built for this operating system and architecture.
    UnsupportedPlatform { os: String, arch: String },
}

impl UpgradeError {
    /// The human-readable message of this error.
    pub fn to_string(&self) -> (res: String)
        ensures
            match self {
                UpgradeError::UnsupportedPlatform { os, arch } => res@
                    == "Unsupported platform for self-update: "@ + os@ + "-"@ + arch@,
            },
    {
        match self {
            UpgradeError::UnsupportedPlatform { os, arch } => {
                let mut s = String::from_str("Unsupported platform for self-update: ");
                s.append(os.as_str());
                s.append("-");
                s.append(arch.as_str());
                s
            },
        }
    }
}

/// The platform name of the release assets built for `os`/`arch`, if any.
pub open spec fn platform_spec(os: Seq<char>, arch: Seq<char>) -> Option<Seq<char>> {
    if os == "linux"@ && arch == "x86_64"@ {
        Some("linux-x86_64"@)
    } else if os == "macos"@ && arch == "aarch64"@ {
        Some("macos-aarch64"@)
    } else if os == "windows"@ && arch == "x86_64"@ {
        Some("windows-x86_64"@)
    } else {
        None
    }
}

/// The platform name used in release asset names for the given operating
/// system and architecture (as `std::env::consts` names them).
pub fn current_platform(os: &str, arch: &str) -> (res: Result<String, UpgradeError>)
    ensures
        match platform_spec(os@, arch@) {
            Some(p) => res matches Ok(s) && s@ == p,
            None => res matches Err(UpgradeError::UnsupportedPlatform { os: o, arch: a }) && o@
                == os@ && a@ == arch@,
        },
{
    let o = String::from_str(os);
    let a = String::from_str(arch);
    let linux = String::from_str("linux");
    let macos = String::from_str("macos");
    let windows = String::from_str("windows");
    let x86 = String::from_str("x86_64");
    let arm = String::from_str("aarch64");
    if o == linux && a == x86 {
        Ok(String::from_str("linux-x86_64"))
    } else if o == macos && a == arm {
        Ok(String::from_str("macos-aarch64"))
    } else if o == windows && a == x86 {
        Ok(String::from_str("windows-x86_64"))
    } else {
        Err(UpgradeError::UnsupportedPlatform { os: o, arch: a })
    }
}

/// A path quoted for `cmd.exe`: in double quotes, inner quotes doubled.
pub open spec fn quoted_windows_path_spec(path: Seq<char>) -> Seq<char> {
    seq!['"'] + crate::text::replace_spec(path, seq!['"'], seq!['"', '"']) + seq!['"']
}

/// Quotes a path for a Windows batch script.
pub fn quoted_windows_path(path: &str) -> (res: String)
    ensures
        res@ == quoted_windows_path_spec(path@),
{
    let v = chars_of(path);
    let mut q: Vec<char> = Vec::new();
    q.push('"');
    let mut qq: Vec<char> = Vec::new();
    qq.push('"');
    qq.push('"');
    let mut out: Vec<char> = Vec::new();
    out.push('"');
    let body = replace_all(&v, &q, &qq);
    crate::text::extend_chars(&mut out, body.as_slice());
    out.push('"');
    assert(q@ == seq!['"']);
    assert(qq@ == seq!['"', '"']);
    assert(out@ == quoted_windows_path_spec(path@));
    crate::text::string_from_chars(out.as_slice())
}

/// The batch script that replaces the running executable on Windows once
/// the CLI has exited, then deletes itself.
pub open spec fn windows_updater_script_spec(current_exe: Seq<char>, temp_exe: Seq<char>, updater: Seq<char>) -> Seq<char> {
    "@echo off\r\nping 127.0.0.1 -n 3 > nul\r\nmove /Y "@ + quoted_windows_path_spec(temp_exe)
        + " "@ + quoted_windows_path_spec(current_exe) + " > nul\r\ndel /Q "@
        + quoted_windows_path_spec(updater) + " > nul\r\n"@
}

/// Builds the Windows updater script.
pub fn build_windows_updater_script(current_exe: &str, temp_exe: &str, updater_script: &str) -> (res: String)
    ensures
        res@ == windows_updater_script_spec(current_exe@, temp_exe@, updater_script@),
{
    let cur = quoted_windows_path(current_exe);
    let tmp = quoted_windows_path(temp_exe);
    let upd = quoted_windows_path(updater_script);
    let mut s = String::from_str("@echo off\r\nping 127.0.0.1 -n 3 > nul\r\nmove /Y ");
    s.append(tmp.as_str());
    s.append(" ");
    s.append(cur.as_str());
    s.append(" > nul\r\ndel /Q ");
    s.append(upd.as_str());
    s.append(" > nul\r\n");
    s
}

} // verus!
