//! Paths as text: joining (`Path::join` on Unix) and the layout of the
//! CLI's data directory.

use vstd::prelude::*;
use vstd::string::*;

use crate::text::{chars_of, string_from_chars, extend_chars};

verus! {

/// `base.join(rel)` on Unix: an absolute `rel` replaces `base`; otherwise a
/// `/` is put between them unless `base` is empty or already ends in `/`.
pub open spec fn join_spec(base: Seq<char>, rel: Seq<char>) -> Seq<char> {
    if rel.len() > 0 && rel[0] == '/' {
        rel
    } else if base.len() == 0 {
        rel
    } else if base.last() == '/' {
        base + rel
    } else {
        base + seq!['/'] + rel
    }
}

/// `Path::join` on Unix, on paths held as text.
pub fn join_path(base: &str, rel: &str) -> (res: String)
    ensures
        res@ == join_spec(base@, rel@),
{
    let b = chars_of(base);
    let r = chars_of(rel);
    if r.len() > 0 && r[0] == '/' {
        return string_from_chars(r.as_slice());
    }
    if b.len() == 0 {
        return string_from_chars(r.as_slice());
    }
    let mut out = b.clone();
    if b[b.len() - 1] != '/' {
        out.push('/');
    }
    extend_chars(&mut out, r.as_slice());
    assert(out@ == join_spec(base@, rel@));
    string_from_chars(out.as_slice())
}

/// The user's home directory, as text (lossily converted), if the platform
/// reports one.
#[verifier::external_body]
fn home_dir() -> (res: Option<String>) {
    dirs::home_dir().map(|p| p.to_string_lossy().into_owned())
}

/// Why the data directory layout cannot be built.
#[derive(Debug)]
pub enum PathsError {
    /// The platform reports no home directory.
    NoHomeDirectory,
}

impl PathsError {
    /// The human-readable message of this error.
    pub fn to_string(&self) -> (res: String)
        ensures
            res@ == "Could not find home directory"@,
    {
        String::from_str("Could not find home directory")
    }
}

/// Where the CLI keeps its data, under `~/.oxide`.
#[derive(Debug)]
pub struct AnesisPaths {
    pub home: String,
    pub config: String,
    pub version_check: String,
    pub cache: String,
    pub templates: String,
    pub auth: String,
    pub addons: String,
    pub addons_index: String,
}

/// The data directory of a home directory.
pub open spec fn data_home(home: Seq<char>) -> Seq<char> {
    join_spec(home, ".oxide"@)
}

/// Every path of the layout, derived from the home directory.
pub open spec fn layout_of(p: AnesisPaths, home: Seq<char>) -> bool {
    let h = data_home(home);
    let cache = join_spec(h, "cache"@);
    &&& p.home@ == h
    &&& p.config@ == join_spec(h, "config.json"@)
    &&& p.version_check@ == join_spec(h, "version_check.json"@)
    &&& p.cache@ == cache
    &&& p.templates@ == join_spec(cache, "templates"@)
    &&& p.auth@ == join_spec(h, "auth.json"@)
    &&& p.addons@ == join_spec(cache, "addons"@)
    &&& p.addons_index@ == join_spec(join_spec(cache, "addons"@), "oxide-addons.json"@)
}

/// Joining a relative path never loses the base: the base is a prefix of
/// the result.
pub proof fn lemma_join_extends(base: Seq<char>, rel: Seq<char>)
    requires
        rel.len() > 0 ==> rel[0] != '/',
    ensures
        base.is_prefix_of(join_spec(base, rel)),
{
    let j = join_spec(base, rel);
    if base.len() > 0 {
        assert(j.subrange(0, base.len() as int) =~= base);
    }
}

/// Every path of the layout lies under the data directory: the files and
/// the cache directly, the templates and addons under the cache, and the
/// addons index under the addons directory.
pub proof fn law_layout_nested(p: AnesisPaths, home: Seq<char>)
    requires
        layout_of(p, home),
    ensures
        p.home@.is_prefix_of(p.config@),
        p.home@.is_prefix_of(p.version_check@),
        p.home@.is_prefix_of(p.auth@),
        p.home@.is_prefix_of(p.cache@),
        p.cache@.is_prefix_of(p.templates@),
        p.cache@.is_prefix_of(p.addons@),
        p.addons@.is_prefix_of(p.addons_index@),
{
    let h = data_home(home);
    let cache = join_spec(h, "cache"@);
    reveal_strlit("config.json");
    reveal_strlit("version_check.json");
    reveal_strlit("auth.json");
    reveal_strlit("cache");
    reveal_strlit("templates");
    reveal_strlit("addons");
    reveal_strlit("oxide-addons.json");
    lemma_join_extends(h, "config.json"@);
    lemma_join_extends(h, "version_check.json"@);
    lemma_join_extends(h, "auth.json"@);
    lemma_join_extends(h, "cache"@);
    lemma_join_extends(cache, "templates"@);
    lemma_join_extends(cache, "addons"@);
    lemma_join_extends(join_spec(cache, "addons"@), "oxide-addons.json"@);
}

impl AnesisPaths {
    /// The layout under the given home directory.
    pub fn from_home(home_dir: &str) -> (res: Self)
        ensures
            layout_of(res, home_dir@),
    {
        let home = join_path(home_dir, ".oxide");
        let cache = join_path(home.as_str(), "cache");
        let addons = join_path(cache.as_str(), "addons");
        let addons_index = join_path(addons.as_str(), "oxide-addons.json");
        AnesisPaths {
            config: join_path(home.as_str(), "config.json"),
            version_check: join_path(home.as_str(), "version_check.json"),
            templates: join_path(cache.as_str(), "templates"),
            auth: join_path(home.as_str(), "auth.json"),
            home,
            cache,
            addons,
            addons_index,
        }
    }

    /// The layout under the user's home directory; an error when the
    /// platform reports none.
    pub fn new() -> (res: Result<Self, PathsError>)
        ensures
            res matches Ok(p) ==> exists|h: Seq<char>| layout_of(p, h),
    {
        match home_dir() {
            Some(h) => {
                let hs = h.as_str();
                let p = Self::from_home(hs);
                let res: Result<Self, PathsError> = Ok(p);
                assert(res matches Ok(q) && layout_of(q, hs@));
                res
            },
            None => Err(PathsError::NoHomeDirectory),
        }
    }
}

} // verus!
