//! The constellation's status: how each repository's remote and identity
//! compare with the manifest, and the summary below the table.
use vstd::prelude::*;

use crate::config::Repo;
use crate::git::{normalized, opt_view, same_remote, GitStatus};
use crate::verify::{worst_of, Identity, State};
use crate::version::{consensus, consensus_of, versions_of, VersionInfo};

verus! {

/// How a repository's `origin` remote compares with its canonical URL.
#[derive(Debug)]
pub enum RemoteState {
    /// The manifest declares no canonical URL: nothing is compared.
    Unchecked,
    /// The repository is not cloned.
    Missing,
    /// `origin` names the canonical repository.
    Matches,
    /// `origin` is this other URL.
    Differs(String),
    /// The clone has no `origin` remote.
    NoOrigin,
}

/// A remote state, with the URL taken by its characters.
pub enum RemoteView {
    Unchecked,
    Missing,
    Matches,
    Differs(Seq<char>),
    NoOrigin,
}

impl View for RemoteState {
    type V = RemoteView;

    open spec fn view(&self) -> RemoteView {
        match self {
            RemoteState::Unchecked => RemoteView::Unchecked,
            RemoteState::Missing => RemoteView::Missing,
            RemoteState::Matches => RemoteView::Matches,
            RemoteState::Differs(url) => RemoteView::Differs(url@),
            RemoteState::NoOrigin => RemoteView::NoOrigin,
        }
    }
}

/// The remote state of a repository with canonical URL `canon`, whose
/// directory is `present` or not, and whose `origin` is `origin`.
pub open spec fn remote_state_of(canon: Option<Seq<char>>, present: bool, origin: Option<Seq<char>>) -> RemoteView {
    match canon {
        None => RemoteView::Unchecked,
        Some(c) => if !present {
            RemoteView::Missing
        } else {
            match origin {
                Some(actual) => if normalized(actual) == normalized(c) {
                    RemoteView::Matches
                } else {
                    RemoteView::Differs(actual)
                },
                None => RemoteView::NoOrigin,
            }
        },
    }
}

/// Compares the canonical URL of `repo` (if any) with its `origin` remote
/// (`origin` as `git::remote_url` reports it; only looked at when the
/// directory is `present`).
pub fn remote_state(repo: &Repo, present: bool, origin: Option<String>) -> (r: RemoteState)
    ensures
        r@ == remote_state_of(opt_view(repo.url), present, opt_view(origin)),
{
    match &repo.url {
        None => RemoteState::Unchecked,
        Some(canon) => {
            if !present {
                RemoteState::Missing
            } else {
                match origin {
                    Some(actual) => {
                        if same_remote(actual.as_str(), canon.as_str()) {
                            RemoteState::Matches
                        } else {
                            RemoteState::Differs(actual)
                        }
                    },
                    None => RemoteState::NoOrigin,
                }
            }
        },
    }
}

/// The git column of a repository.
#[derive(Debug, Clone, Copy, PartialEq, Eq, Structural)]
pub enum GitColumn {
    /// The directory is missing.
    Missing,
    /// The directory is not a git work tree.
    NotRepo,
    /// Branch, clean or dirty, the ahead/behind counts that are not zero,
    /// and the remote mark.
    Tree,
}

/// What the git column shows for a repository whose directory is `present`
/// or not, with this status.
pub fn git_column(present: bool, status: &GitStatus) -> (r: GitColumn)
    ensures
        r == (if !present { GitColumn::Missing } else if !status.is_repo { GitColumn::NotRepo } else { GitColumn::Tree }),
{
    if !present {
        GitColumn::Missing
    } else if !status.is_repo {
        GitColumn::NotRepo
    } else {
        GitColumn::Tree
    }
}

/// The identity column of a repository.
#[derive(Debug, Clone, Copy, PartialEq, Eq, Structural)]
pub enum IdMark {
    /// No e-mail-domain policy applies.
    NotApplicable,
    Pass,
    Warn,
    Fail,
}

/// The identity mark of a check result: its worst state where a policy applies.
pub open spec fn mark_of(applies: bool, worst: State) -> IdMark {
    if !applies {
        IdMark::NotApplicable
    } else {
        match worst {
            State::Pass => IdMark::Pass,
            State::Warn => IdMark::Warn,
            State::Fail => IdMark::Fail,
        }
    }
}

/// The identity mark of a check result.
pub fn id_mark(identity: &Identity) -> (r: IdMark)
    ensures
        r == mark_of(identity.applies, worst_of(identity.states())),
{
    if !identity.applies {
        IdMark::NotApplicable
    } else {
        match identity.worst() {
            State::Pass => IdMark::Pass,
            State::Warn => IdMark::Warn,
            State::Fail => IdMark::Fail,
        }
    }
}

/// How many marks pass (a warning passes).
pub open spec fn passing(marks: Seq<IdMark>) -> nat
    decreases marks.len(),
{
    if marks.len() == 0 {
        0
    } else {
        passing(marks.drop_last()) + if marks.last() == IdMark::Pass || marks.last() == IdMark::Warn { 1nat } else { 0nat }
    }
}

/// How many marks fail.
pub open spec fn failing(marks: Seq<IdMark>) -> nat
    decreases marks.len(),
{
    if marks.len() == 0 {
        0
    } else {
        failing(marks.drop_last()) + if marks.last() == IdMark::Fail { 1nat } else { 0nat }
    }
}

/// How many remotes match their canonical URL.
pub open spec fn matching(rs: Seq<RemoteView>) -> nat
    decreases rs.len(),
{
    if rs.len() == 0 {
        0
    } else {
        matching(rs.drop_last()) + if rs.last() is Matches { 1nat } else { 0nat }
    }
}

/// How many remotes were compared and do not match (missing, different
/// or absent `origin`).
pub open spec fn mismatching(rs: Seq<RemoteView>) -> nat
    decreases rs.len(),
{
    if rs.len() == 0 {
        0
    } else {
        mismatching(rs.drop_last()) + if !(rs.last() is Unchecked) && !(rs.last() is Matches) { 1nat } else { 0nat }
    }
}

/// The views of a list of remote states.
pub open spec fn remote_views(rs: Seq<RemoteState>) -> Seq<RemoteView> {
    rs.map_values(|r: RemoteState| r@)
}

/// The lines below the status table.
#[derive(Debug)]
pub struct Summary {
    /// The version all repositories share, if they agree.
    pub synced: Option<String>,
    pub id_pass: usize,
    pub id_fail: usize,
    pub url_ok: usize,
    pub url_bad: usize,
}

fn is_bad(r: &RemoteState) -> (b: bool)
    ensures
        b == (!(r@ is Unchecked) && !(r@ is Matches)),
{
    match r {
        RemoteState::Unchecked => false,
        RemoteState::Matches => false,
        _ => true,
    }
}

/// Counts the identity marks and remote states of the table and checks
/// whether the versions agree.
pub fn summarize(infos: &[VersionInfo], marks: &[IdMark], remotes: &[RemoteState]) -> (r: Summary)
    ensures
        opt_view(r.synced) == consensus_of(versions_of(infos@)),
        r.id_pass == passing(marks@),
        r.id_fail == failing(marks@),
        r.url_ok == matching(remote_views(remotes@)),
        r.url_bad == mismatching(remote_views(remotes@)),
{
    let synced = consensus(infos);
    let mut id_pass: usize = 0;
    let mut id_fail: usize = 0;
    let mut i: usize = 0;
    while i < marks.len()
        invariant
            i <= marks@.len(),
            id_pass == passing(marks@.take(i as int)),
            id_fail == failing(marks@.take(i as int)),
            id_pass + id_fail <= i,
        decreases marks@.len() - i,
    {
        assert(marks@.take(i + 1).drop_last() == marks@.take(i as int));
        let m = marks[i];
        if m == IdMark::Pass || m == IdMark::Warn {
            id_pass += 1;
        } else if m == IdMark::Fail {
            id_fail += 1;
        }
        i += 1;
    }
    assert(marks@.take(marks@.len() as int) == marks@);
    let ghost views = remote_views(remotes@);
    let mut url_ok: usize = 0;
    let mut url_bad: usize = 0;
    let mut j: usize = 0;
    while j < remotes.len()
        invariant
            j <= remotes@.len(),
            views == remote_views(remotes@),
            url_ok == matching(views.take(j as int)),
            url_bad == mismatching(views.take(j as int)),
            url_ok + url_bad <= j,
        decreases remotes@.len() - j,
    {
        assert(views.take(j + 1).drop_last() == views.take(j as int));
        assert(views.take(j + 1).last() == remotes@[j as int]@);
        if matches!(remotes[j], RemoteState::Matches) {
            url_ok += 1;
        } else if is_bad(&remotes[j]) {
            url_bad += 1;
        }
        j += 1;
    }
    assert(views.take(remotes@.len() as int) == views);
    Summary { synced, id_pass, id_fail, url_ok, url_bad }
}

} // verus!
