//! The error values that the library's operations return.
use vstd::prelude::*;

verus! {

/// Why an operation on the constellation was refused.
#[derive(Debug, PartialEq, Eq)]
pub enum Error {
    /// Two repositories in the manifest share this name.
    DuplicateRepo(String),
    /// No repository has this name.
    UnknownRepo(String),
    /// No display has this name.
    UnknownDisplay(String),
    /// The display has no panes.
    NoPanes(String),
    /// tmux is not installed.
    TmuxMissing,
    /// A pane names this action but no repository.
    PaneActionWithoutRepo(String),
    /// The repository has no action of this name.
    MissingAction { repo: String, action: String },
    /// No selected repository defines this action.
    NoActionDefined(String),
    /// The directory of this repository does not exist.
    MissingDirectory { repo: String, dir: String },
    /// A command of this repository failed (`detail` says how).
    CommandFailed { repo: String, command: String, detail: String },
    /// These repositories failed.
    ReposFailed(Vec<String>),
    /// These members could not be cloned (or their `_postclone` hook failed).
    CloneFailed(Vec<String>),
    /// These repositories could not be updated.
    UpdateFailed(Vec<String>),
    /// The text is not a semver version.
    InvalidSemver(String),
    /// The current version of a component is not semver, so it cannot be incremented.
    CurrentNotSemver(String),
    /// Incrementing this version overflows a component.
    VersionOverflow(String),
    /// Neither `--to`, nor the manifest, nor any repository gives a sync target.
    NoSyncTarget,
    /// The component has no readable version.
    NoReadableVersion(String),
    /// The TOML file at this path does not parse.
    TomlParse(String),
    /// This directory has no `Cargo.toml`.
    NoCargoToml(String),
    /// The `Cargo.toml` at this path has no `[package].version`.
    NoPackageVersion(String),
}

/// What an error says, with each text taken by its characters.
pub enum ErrorView {
    DuplicateRepo(Seq<char>),
    UnknownRepo(Seq<char>),
    UnknownDisplay(Seq<char>),
    NoPanes(Seq<char>),
    TmuxMissing,
    PaneActionWithoutRepo(Seq<char>),
    MissingAction { repo: Seq<char>, action: Seq<char> },
    NoActionDefined(Seq<char>),
    MissingDirectory { repo: Seq<char>, dir: Seq<char> },
    CommandFailed { repo: Seq<char>, command: Seq<char>, detail: Seq<char> },
    ReposFailed(Seq<Seq<char>>),
    CloneFailed(Seq<Seq<char>>),
    UpdateFailed(Seq<Seq<char>>),
    InvalidSemver(Seq<char>),
    CurrentNotSemver(Seq<char>),
    VersionOverflow(Seq<char>),
    NoSyncTarget,
    NoReadableVersion(Seq<char>),
    TomlParse(Seq<char>),
    NoCargoToml(Seq<char>),
    NoPackageVersion(Seq<char>),
}

impl View for Error {
    type V = ErrorView;

    open spec fn view(&self) -> ErrorView {
        match self {
            Error::DuplicateRepo(s) => ErrorView::DuplicateRepo(s@),
            Error::UnknownRepo(s) => ErrorView::UnknownRepo(s@),
            Error::UnknownDisplay(s) => ErrorView::UnknownDisplay(s@),
            Error::NoPanes(s) => ErrorView::NoPanes(s@),
            Error::TmuxMissing => ErrorView::TmuxMissing,
            Error::PaneActionWithoutRepo(s) => ErrorView::PaneActionWithoutRepo(s@),
            Error::MissingAction { repo, action } => ErrorView::MissingAction { repo: repo@, action: action@ },
            Error::NoActionDefined(s) => ErrorView::NoActionDefined(s@),
            Error::MissingDirectory { repo, dir } => ErrorView::MissingDirectory { repo: repo@, dir: dir@ },
            Error::CommandFailed { repo, command, detail } => ErrorView::CommandFailed {
                repo: repo@,
                command: command@,
                detail: detail@,
            },
            Error::ReposFailed(names) => ErrorView::ReposFailed(names@.map_values(|n: String| n@)),
            Error::CloneFailed(names) => ErrorView::CloneFailed(names@.map_values(|n: String| n@)),
            Error::UpdateFailed(names) => ErrorView::UpdateFailed(names@.map_values(|n: String| n@)),
            Error::InvalidSemver(s) => ErrorView::InvalidSemver(s@),
            Error::CurrentNotSemver(s) => ErrorView::CurrentNotSemver(s@),
            Error::VersionOverflow(s) => ErrorView::VersionOverflow(s@),
            Error::NoSyncTarget => ErrorView::NoSyncTarget,
            Error::NoReadableVersion(s) => ErrorView::NoReadableVersion(s@),
            Error::TomlParse(s) => ErrorView::TomlParse(s@),
            Error::NoCargoToml(s) => ErrorView::NoCargoToml(s@),
            Error::NoPackageVersion(s) => ErrorView::NoPackageVersion(s@),
        }
    }
}

} // verus!
