//! The command line, as plain values: what the user asked for.
use vstd::prelude::*;

verus! {

/// Constellation build system: build, version and sync groups of repositories.
#[derive(Debug)]
pub struct Cli {
    /// Path to the constellation manifest.
    pub file: String,
    pub command: Option<Command>,
}

/// A subcommand.
#[derive(Debug)]
pub enum Command {
    /// Clone a constellation: fetch its manifest repo, then every member repo.
    Install { spec: String, into: Option<String>, branch: Option<String> },
    /// Launch (or manage) a tmux display: one pane per task.
    Display { name: Option<String>, kill: bool, detached: bool },
    /// Show git and version status of every repository.
    Status,
    /// Verify git/GPG identity e-mail domains against the manifest policy.
    Verify,
    /// Inspect or change versions across the constellation.
    Version { cmd: Option<VersionCommand> },
    /// Any other name runs the matching `action` across the constellation
    /// (the first token is the action, the rest are its flags).
    Action(Vec<String>),
}

/// Parsed form of `basis <action> [flags]` (a non-reserved subcommand).
#[derive(Debug)]
pub struct ActionArgs {
    /// Action name (key under a repo's `actions`).
    pub action: String,
    pub args: RunArgs,
}

/// Flags of an action run.
#[derive(Debug)]
pub struct RunArgs {
    /// Only operate on these repositories (by name).
    pub repos: Vec<String>,
    /// Keep going across repositories even if one command fails.
    pub keep_going: bool,
    /// Print what would run without executing.
    pub dry_run: bool,
    /// Force running the action in a per-task tmux display.
    pub tmux: bool,
    /// Force running in the current terminal.
    pub no_tmux: bool,
    /// With tmux: create the session but do not attach.
    pub detached: bool,
    /// With tmux: tmux layout to apply (default: tiled).
    pub layout: Option<String>,
}

/// A `version` subcommand.
#[derive(Debug)]
pub enum VersionCommand {
    /// List the current version of every repository (default).
    Show,
    /// Set an explicit version on every repository.
    SetAll { version: String },
    /// Synchronise all repositories to a single version.
    Sync { to: Option<String> },
    /// Bump one component's version and update repos that depend on it.
    Bump { repo: String, major: bool, minor: bool, patch: bool, to: Option<String> },
}

} // verus!
