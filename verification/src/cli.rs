//! The command line: the global options, the subcommands and their
//! arguments, and the output formats of the export command.

use vstd::prelude::*;
use crate::query::GetWorkspaceParam;

verus! {

/// The output format of the export command.
#[derive(Clone, Copy, Debug, PartialEq, Eq, Structural)]
pub enum ExportFormat {
    /// Bash format.
    Bash,
    /// Json format.
    Json,
}

impl ExportFormat {
    /// The name of the format on the command line.
    pub open spec fn name(self) -> Seq<char> {
        match self {
            ExportFormat::Bash => "bash"@,
            ExportFormat::Json => "json"@,
        }
    }

    /// Renders the format as its command line name.
    pub fn to_string(&self) -> (r: String)
        ensures
            r@ == self.name(),
    {
        match self {
            ExportFormat::Bash => String::from_str("bash"),
            ExportFormat::Json => String::from_str("json"),
        }
    }
}

impl Default for ExportFormat {
    fn default() -> (r: Self)
        ensures
            r == ExportFormat::Bash,
    {
        ExportFormat::Bash
    }
}

/// The shared global options of every subcommand.
pub struct ProgramArgs {
    /// Path to the devcontainer.json configuration file.
    pub config: String,
    /// Path to the workspace folder containing the devcontainer.
    pub workspace_folder: String,
}

/// The default configuration path, relative to the workspace folder.
pub open spec fn default_config() -> Seq<char> {
    ".devcontainer/devcontainer.json"@
}

/// The default workspace folder: the current directory.
pub open spec fn default_folder() -> Seq<char> {
    "."@
}

impl Default for ProgramArgs {
    fn default() -> (r: Self)
        ensures
            r.config@ == default_config(),
            r.workspace_folder@ == default_folder(),
    {
        ProgramArgs {
            config: String::from_str(".devcontainer/devcontainer.json"),
            workspace_folder: String::from_str("."),
        }
    }
}

impl ProgramArgs {
    /// The parameters that resolve the workspace these options name.
    pub fn workspace_param(&self) -> (r: GetWorkspaceParam)
        ensures
            r.config@ == self.config@,
            r.folder@ == self.workspace_folder@,
    {
        GetWorkspaceParam { config: self.config.clone(), folder: self.workspace_folder.clone() }
    }
}

/// The arguments of the inspect subcommand.
pub struct InspectCommandArgs {
    /// Shared global flags.
    pub parent: ProgramArgs,
}

/// The arguments of the export subcommand.
pub struct ExportCommandArgs {
    /// Shared global flags.
    pub parent: ProgramArgs,
    /// Output format for the exported environment variables.
    pub format: ExportFormat,
}

/// The arguments of the exec subcommand.
pub struct ExecCommandArgs {
    /// Shared global flags.
    pub parent: ProgramArgs,
    /// Command and arguments to execute.
    pub command: Vec<String>,
}

/// The subcommand to run.
pub enum ProgramCommand {
    /// Inspect and display the devcontainer environment configuration and
    /// service port mappings.
    Inspect(InspectCommandArgs),
    /// Export devcontainer service environment variables with container URLs
    /// rewritten to host ports.
    Export(ExportCommandArgs),
    /// Execute a host command with the devcontainer service environment
    /// applied.
    Exec(ExecCommandArgs),
}

/// The parsed command line.
pub struct Program {
    /// The subcommand to execute.
    pub command: ProgramCommand,
}

} // verus!
