//! Where the completion script of each shell is installed, and which shell
//! configuration files are patched to load it.

use vstd::prelude::*;
use vstd::string::*;

use crate::completions::{powershell_profile_paths_in, CompletionShell};
use crate::paths::{join_path, join_spec};

verus! {

/// What the installer learns of the user's environment.
#[derive(Debug)]
pub struct ShellEnv {
    /// The home directory, if the platform reports one.
    pub home: Option<String>,
    /// `$ZDOTDIR`, when it is set.
    pub zdotdir: Option<String>,
    /// `$ZDOTDIR/completions` is a directory.
    pub zdotdir_completions_is_dir: bool,
    /// The HyDE setup is present (`$ZDOTDIR/.hyde.zshrc` exists, or
    /// `hyde-cli` is on the `PATH`).
    pub hyde: bool,
    /// `$XDG_CONFIG_HOME`, when it is set.
    pub xdg_config_home: Option<String>,
    /// The Documents directory, if the platform reports one.
    pub documents: Option<String>,
}

/// Where a shell's completions go.
#[derive(Debug)]
pub enum InstallPlan {
    /// Write the script as `dest` in `dir`.
    Bash { dir: String, dest: String },
    /// Write the script into the HyDE completions directory, already on `fpath`.
    ZshDropIn { dir: String, dest: String },
    /// Write the script as `dest` in `dir`, and add `dir` to `fpath` in `config`.
    ZshFpath { dir: String, dest: String, config: String },
    /// Write the script as `dest` in `dir`.
    Fish { dir: String, dest: String },
    /// Write the script as `script`, and load it from each profile.
    PowerShell { script: String, profiles: Vec<String> },
}

/// Why the completions cannot be placed.
#[derive(Debug, Clone, Copy, PartialEq, Eq, Structural)]
pub enum PlanError {
    /// The platform reports no home directory.
    NoHome,
}

impl PlanError {
    /// The human-readable message of this error.
    pub fn to_string(&self) -> (res: String)
        ensures
            res@ == "Could not determine home directory"@,
    {
        String::from_str("Could not determine home directory")
    }
}

/// The view of an optional text.
pub open spec fn opt_view(o: Option<String>) -> Option<Seq<char>> {
    match o {
        Some(s) => Some(s@),
        None => None,
    }
}

/// The HyDE completions directory, when zsh is set up that way.
pub open spec fn hyde_dir(env: ShellEnv) -> Option<Seq<char>> {
    match env.zdotdir {
        Some(z) => if env.zdotdir_completions_is_dir && env.hyde {
            Some(join_spec(z@, "completions"@))
        } else {
            None
        },
        None => None,
    }
}

/// The zsh configuration file to patch: `$ZDOTDIR/.zshrc`, else `~/.zshrc`.
pub open spec fn zsh_config_spec(zdotdir: Option<Seq<char>>, home: Seq<char>) -> Seq<char> {
    match zdotdir {
        Some(z) => join_spec(z, ".zshrc"@),
        None => join_spec(home, ".zshrc"@),
    }
}

/// The fish configuration directory: `$XDG_CONFIG_HOME`, else `~/.config`.
pub open spec fn fish_config_spec(xdg: Option<Seq<char>>, home: Option<Seq<char>>) -> Seq<char> {
    match xdg {
        Some(x) => x,
        None => join_spec(home->0, ".config"@),
    }
}

/// The plan is the one described for `shell` in `env`.
pub open spec fn plan_spec(shell: CompletionShell, env: ShellEnv, plan: InstallPlan) -> bool {
    match shell {
        CompletionShell::Bash => {
            let dir = join_spec(opt_view(env.home)->0, ".local/share/bash-completion/completions"@);
            plan matches InstallPlan::Bash { dir: d, dest } && d@ == dir && dest@ == join_spec(dir, "oxide"@)
        },
        CompletionShell::Zsh => match hyde_dir(env) {
            Some(dir) => plan matches InstallPlan::ZshDropIn { dir: d, dest } && d@ == dir && dest@
                == join_spec(dir, "oxide.zsh"@),
            None => {
                let home = opt_view(env.home)->0;
                let dir = join_spec(home, ".zfunc"@);
                plan matches InstallPlan::ZshFpath { dir: d, dest, config } && d@ == dir && dest@
                    == join_spec(dir, "_oxide"@) && config@ == zsh_config_spec(opt_view(env.zdotdir), home)
            },
        },
        CompletionShell::Fish => {
            let dir = join_spec(
                fish_config_spec(opt_view(env.xdg_config_home), opt_view(env.home)),
                "fish/completions"@,
            );
            plan matches InstallPlan::Fish { dir: d, dest } && d@ == dir && dest@ == join_spec(dir, "oxide.fish"@)
        },
        CompletionShell::PowerShell => {
            let home = opt_view(env.home)->0;
            let docs = match opt_view(env.documents) {
                Some(d) => d,
                None => join_spec(home, "Documents"@),
            };
            plan matches InstallPlan::PowerShell { script, profiles } && script@ == join_spec(
                join_spec(join_spec(home, ".oxide"@), "completions"@),
                "oxide.ps1"@,
            ) && profiles@.len() == 2 && profiles@[0]@ == join_spec(
                join_spec(docs, "PowerShell"@),
                "Microsoft.PowerShell_profile.ps1"@,
            ) && profiles@[1]@ == join_spec(
                join_spec(docs, "WindowsPowerShell"@),
                "Microsoft.PowerShell_profile.ps1"@,
            )
        },
    }
}

/// Whether `shell` needs the home directory in `env`.
pub open spec fn needs_home(shell: CompletionShell, env: ShellEnv) -> bool {
    match shell {
        CompletionShell::Bash => true,
        CompletionShell::Zsh => hyde_dir(env) is None,
        CompletionShell::Fish => false,
        CompletionShell::PowerShell => true,
    }
}

/// Where the completions of `shell` go in `env`; an error when the home
/// directory is needed and unknown.
pub fn completion_plan(shell: CompletionShell, env: &ShellEnv) -> (res: Result<InstallPlan, PlanError>)
    requires
        shell == CompletionShell::Fish && env.xdg_config_home is None ==> env.home is Some,
    ensures
        needs_home(shell, *env) && env.home is None ==> res == Err::<InstallPlan, PlanError>(PlanError::NoHome),
        !(needs_home(shell, *env) && env.home is None) ==> (res matches Ok(p) && plan_spec(shell, *env, p)),
{
    match shell {
        CompletionShell::Bash => {
            let home = match &env.home {
                Some(h) => h,
                None => {
                    return Err(PlanError::NoHome);
                },
            };
            let dir = join_path(home.as_str(), ".local/share/bash-completion/completions");
            let dest = join_path(dir.as_str(), "oxide");
            Ok(InstallPlan::Bash { dir, dest })
        },
        CompletionShell::Zsh => {
            if let Some(z) = &env.zdotdir {
                if env.zdotdir_completions_is_dir && env.hyde {
                    let dir = join_path(z.as_str(), "completions");
                    let dest = join_path(dir.as_str(), "oxide.zsh");
                    return Ok(InstallPlan::ZshDropIn { dir, dest });
                }
            }
            let home = match &env.home {
                Some(h) => h,
                None => {
                    return Err(PlanError::NoHome);
                },
            };
            let dir = join_path(home.as_str(), ".zfunc");
            let dest = join_path(dir.as_str(), "_oxide");
            let config = match &env.zdotdir {
                Some(z) => join_path(z.as_str(), ".zshrc"),
                None => join_path(home.as_str(), ".zshrc"),
            };
            Ok(InstallPlan::ZshFpath { dir, dest, config })
        },
        CompletionShell::Fish => {
            let config_dir = match &env.xdg_config_home {
                Some(x) => x.clone(),
                None => {
                    let home = match &env.home {
                        Some(h) => h,
                        None => {
                            return Err(PlanError::NoHome);
                        },
                    };
                    join_path(home.as_str(), ".config")
                },
            };
            let dir = join_path(config_dir.as_str(), "fish/completions");
            let dest = join_path(dir.as_str(), "oxide.fish");
            Ok(InstallPlan::Fish { dir, dest })
        },
        CompletionShell::PowerShell => {
            let home = match &env.home {
                Some(h) => h,
                None => {
                    return Err(PlanError::NoHome);
                },
            };
            let base = join_path(home.as_str(), ".oxide");
            let comp = join_path(base.as_str(), "completions");
            let script = join_path(comp.as_str(), "oxide.ps1");
            let docs = match &env.documents {
                Some(d) => d.clone(),
                None => join_path(home.as_str(), "Documents"),
            };
            let profiles = powershell_profile_paths_in(docs.as_str());
            Ok(InstallPlan::PowerShell { script, profiles })
        },
    }
}

} // verus!
