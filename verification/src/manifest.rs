//! The addon manifest (`oxide.addon.json`): what an addon is, how its
//! variant is detected in a project, and the commands and steps it runs.

use vstd::prelude::*;

verus! {

/// An addon's manifest.
#[derive(Debug)]
pub struct AddonManifest {
    pub schema_version: String,
    pub id: String,
    pub name: String,
    pub version: String,
    pub description: String,
    pub author: String,
    pub requires: Vec<String>,
    pub inputs: Vec<InputDef>,
    pub detect: Vec<DetectBlock>,
    pub variants: Vec<Variant>,
}

/// The kind of value an input asks for.
#[derive(Debug, Clone, Copy, PartialEq, Eq, Structural)]
pub enum InputType {
    Text,
    Boolean,
    Select,
}

/// An input that an addon asks the user for.
#[derive(Debug)]
pub struct InputDef {
    pub name: String,
    pub input_type: InputType,
    pub description: Option<String>,
    pub required: bool,
    pub default: Option<String>,
    pub options: Vec<String>,
}

/// How the rules of a detection block combine.
#[derive(Debug, Clone, Copy, PartialEq, Eq, Structural)]
pub enum MatchMode {
    /// Every rule must hold.
    All,
    /// At least one rule must hold.
    Any,
}

/// One condition on the project's files.
#[derive(Debug)]
pub enum DetectRule {
    /// The file exists.
    FileExists { file: String, negate: bool },
    /// The file's text contains `contains`.
    FileContains { file: String, contains: String, negate: bool },
    /// The JSON file has the dotted key path (with the value, if given).
    JsonContains { file: String, key_path: String, value: Option<String>, negate: bool },
    /// The TOML file has the dotted key path (with the value, if given).
    TomlContains { file: String, key_path: String, value: Option<String>, negate: bool },
    /// The YAML file has the dotted key path (with the value, if given).
    YamlContains { file: String, key_path: String, value: Option<String>, negate: bool },
}

/// A named set of rules: the first block that matches names the variant.
#[derive(Debug)]
pub struct DetectBlock {
    pub id: String,
    pub match_mode: MatchMode,
    pub rules: Vec<DetectRule>,
}

/// A variant of an addon: the commands it offers, under an optional condition.
#[derive(Debug)]
pub struct Variant {
    pub when: Option<String>,
    pub commands: Vec<AddonCommand>,
}

/// A command of an addon.
#[derive(Debug)]
pub struct AddonCommand {
    pub name: String,
    pub description: String,
    pub once: bool,
    pub steps: Vec<Step>,
}

/// The files a step works on.
#[derive(Debug)]
pub enum Target {
    File { file: String },
    Glob { glob: String },
}

/// What a step does when its destination already exists.
#[derive(Debug, Clone, Copy, PartialEq, Eq, Structural)]
pub enum IfExists {
    Overwrite,
    Skip,
    Ask,
}

/// What an inject step does when its marker is not found.
#[derive(Debug, Clone, Copy, PartialEq, Eq, Structural)]
pub enum IfNotFound {
    WarnAndAsk,
    Error,
    Skip,
}

/// Copies a file of the addon into the project.
#[derive(Debug)]
pub struct CopyStep {
    pub src: String,
    pub dest: String,
    pub if_exists: IfExists,
}

/// Creates a file with the given content.
#[derive(Debug)]
pub struct CreateStep {
    pub path: String,
    pub content: String,
    pub if_exists: IfExists,
}

/// Inserts lines into files, after or before a marker line, or at the top.
#[derive(Debug)]
pub struct InjectStep {
    pub target: Target,
    pub content: String,
    pub after: Option<String>,
    pub before: Option<String>,
    pub if_not_found: IfNotFound,
}

/// Replaces text in files.
#[derive(Debug)]
pub struct ReplaceStep {
    pub target: Target,
    pub find: String,
    pub replace: String,
}

/// Appends content to files.
#[derive(Debug)]
pub struct AppendStep {
    pub target: Target,
    pub content: String,
}

/// Deletes files.
#[derive(Debug)]
pub struct DeleteStep {
    pub target: Target,
}

/// Renames a file.
#[derive(Debug)]
pub struct RenameStep {
    pub from: String,
    pub to: String,
}

/// Moves a file or directory.
#[derive(Debug)]
pub struct MoveStep {
    pub from: String,
    pub to: String,
}

/// One step of an addon command.
#[derive(Debug)]
pub enum Step {
    Copy(CopyStep),
    Create(CreateStep),
    Inject(InjectStep),
    Replace(ReplaceStep),
    Append(AppendStep),
    Delete(DeleteStep),
    Rename(RenameStep),
    Move(MoveStep),
}

} // verus!
