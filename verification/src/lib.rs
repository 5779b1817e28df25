//! Verified core of the oxide command-line tool: release versions and the
//! self-upgrade helpers, the template and addon cache indexes, the addon
//! lock file, project detection for addon variants, the text edits of addon
//! steps, archive path handling, shell completion support and error reports.

pub mod text;
pub mod keyed;
pub mod order;
pub mod time;
pub mod paths;
pub mod version;
pub mod lock;
pub mod manifest;
pub mod addon_cache;
pub mod template_cache;
pub mod template_install;
pub mod addon_install;
pub mod errors;
pub mod managed_block;
pub mod completions;
pub mod shell_install;
pub mod archive;
pub mod prune;
pub mod detect;
pub mod steps;
pub mod github;
pub mod cli;
