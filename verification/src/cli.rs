//! The commands of the CLI, as parsed from its arguments.

use vstd::prelude::*;
use vstd::string::*;

use crate::completions::CompletionShell;

verus! {

/// The subcommands of `addon`.
#[derive(Debug)]
pub enum AddonCommands {
    /// Install and cache an addon.
    Install { addon_id: String },
    /// List installed addons.
    List,
    /// Remove a cached addon.
    Remove { addon_id: String },
    /// Publish a GitHub repository as an addon.
    Publish { addon_url: String },
    /// Update a published addon from its GitHub repository.
    Update { addon_url: String },
}

/// The subcommands of `template`.
#[derive(Debug)]
pub enum TemplateCommands {
    /// Download and cache a template.
    Install { template_name: String },
    /// List installed templates.
    List,
    /// Remove an installed template.
    Remove { template_name: String },
    /// Publish a GitHub repository as a template.
    Publish { template_url: String },
    /// Update a published template from its GitHub repository.
    Update { template_url: String },
}

/// The arguments of `use`: an addon id, then one of its commands.
#[derive(Debug)]
pub enum UseCommands {
    External(Vec<String>),
}

/// The top-level commands.
#[derive(Debug)]
#[allow(inconsistent_fields)]
pub enum Commands {
    /// Create a new project from a template.
    New { name: String, template_name: String },
    /// Manage templates.
    Template { command: TemplateCommands },
    /// Log in.
    Login,
    /// Log out.
    Logout,
    /// Show the logged-in account.
    Account,
    /// Manage addons.
    Addon { command: AddonCommands },
    /// Run an installed addon command.
    Use { command: UseCommands },
    /// Download and install the latest release.
    Upgrade,
    /// Install shell completion.
    Completions { shell: CompletionShell },
}

/// The parsed command line.
#[derive(Debug)]
pub struct Cli {
    pub command: Commands,
}

/// Whether the command runs without the background check for a newer
/// release (the upgrade command does its own).
pub fn skips_version_notice(command: &Commands) -> (res: bool)
    ensures
        res == (command is Upgrade),
{
    match command {
        Commands::Upgrade => true,
        _ => false,
    }
}

/// Why `use` cannot run.
#[derive(Debug, Clone, Copy, PartialEq, Eq, Structural)]
pub enum UseError {
    /// No command was given after the addon id.
    MissingCommand,
}

impl UseError {
    /// The human-readable message of this error.
    pub fn to_string(&self) -> (res: String)
        ensures
            res@ == "Usage: oxide <addon-id> <command>"@,
    {
        String::from_str("Usage: oxide <addon-id> <command>")
    }
}

/// The addon id and the command name of a `use` invocation: the first two
/// arguments; an error when there is no second one.
pub fn use_invocation(args: &Vec<String>) -> (res: Result<(String, String), UseError>)
    requires
        args@.len() >= 1,
    ensures
        args@.len() >= 2 ==> (res matches Ok((a, c)) && a@ == args@[0]@ && c@ == args@[1]@),
        args@.len() < 2 ==> res == Err::<(String, String), UseError>(UseError::MissingCommand),
{
    if args.len() < 2 {
        return Err(UseError::MissingCommand);
    }
    Ok((args[0].clone(), args[1].clone()))
}

} // verus!
