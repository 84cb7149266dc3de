//! The running account of a pass over the repositories: cloning the
//! members at install time, or pulling them on update.
use vstd::prelude::*;
use vstd::string::*;

use crate::error::Error;
use crate::text::views_of;

verus! {

/// `n` counted up by one, up to `usize::MAX`.
pub open spec fn tick(n: usize) -> usize {
    if n < usize::MAX { (n + 1) as usize } else { n }
}

fn tick_of(n: usize) -> (r: usize)
    ensures
        r == tick(n),
{
    if n < usize::MAX { n + 1 } else { n }
}

/// How many repositories were handled and skipped, and which failed, in
/// the order they failed.
#[derive(Debug)]
pub struct Tally {
    /// Repositories cloned (or updated).
    pub done: usize,
    /// Repositories left alone.
    pub skipped: usize,
    /// The names of the repositories that failed.
    pub failed: Vec<String>,
}

/// Whether the update pass pulls a repository: only one whose directory
/// exists and is a git work tree; any other is skipped as not cloned.
pub fn should_pull(is_dir: bool, is_repo: bool) -> (r: bool)
    ensures
        r == (is_dir && is_repo),
{
    is_dir && is_repo
}

impl Tally {
    /// Nothing handled yet.
    pub fn new() -> (r: Tally)
        ensures
            r.done == 0,
            r.skipped == 0,
            r.failed@.len() == 0,
    {
        Tally { done: 0, skipped: 0, failed: Vec::new() }
    }

    /// A repository left alone (no `url`, already present, not cloned).
    pub fn skip(&mut self)
        ensures
            final(self).done == old(self).done,
            final(self).skipped == tick(old(self).skipped),
            final(self).failed@ == old(self).failed@,
    {
        self.skipped = tick_of(self.skipped);
    }

    /// A member that was cloned (`clone_ok`) or not, followed, after a
    /// successful clone, by its `_postclone` hook (`hook_ok`; without a
    /// clone no hook runs, and `hook_ok` is not looked at). A successful
    /// clone counts as cloned even when its hook fails; the member fails
    /// when its clone or its hook does.
    pub fn cloned(&mut self, name: &str, clone_ok: bool, hook_ok: bool)
        ensures
            final(self).done == if clone_ok { tick(old(self).done) } else { old(self).done },
            final(self).skipped == old(self).skipped,
            views_of(final(self).failed@) == if clone_ok && hook_ok {
                views_of(old(self).failed@)
            } else {
                views_of(old(self).failed@).push(name@)
            },
    {
        if clone_ok {
            self.done = tick_of(self.done);
        }
        if !clone_ok || !hook_ok {
            let ghost before = views_of(self.failed@);
            self.failed.push(String::from_str(name));
            assert(views_of(self.failed@) =~= before.push(name@));
        }
    }

    /// A repository that was pulled: updated when the pull succeeded,
    /// failed otherwise.
    pub fn pulled(&mut self, name: &str, ok: bool)
        ensures
            final(self).done == if ok { tick(old(self).done) } else { old(self).done },
            final(self).skipped == old(self).skipped,
            views_of(final(self).failed@) == if ok {
                views_of(old(self).failed@)
            } else {
                views_of(old(self).failed@).push(name@)
            },
    {
        self.cloned(name, ok, true);
    }

    /// The end of a clone pass: refused, naming every member that failed,
    /// when any did.
    pub fn clone_result(&self) -> (r: Result<(), Error>)
        ensures
            self.failed@.len() == 0 <==> r is Ok,
            r matches Err(e) ==> e@ == crate::error::ErrorView::CloneFailed(views_of(self.failed@)),
    {
        if self.failed.len() == 0 {
            Ok(())
        } else {
            Err(Error::CloneFailed(self.failed.clone()))
        }
    }

    /// The end of an update pass: refused, naming every repository that
    /// failed, when any did.
    pub fn update_result(&self) -> (r: Result<(), Error>)
        ensures
            self.failed@.len() == 0 <==> r is Ok,
            r matches Err(e) ==> e@ == crate::error::ErrorView::UpdateFailed(views_of(self.failed@)),
    {
        if self.failed.len() == 0 {
            Ok(())
        } else {
            Err(Error::UpdateFailed(self.failed.clone()))
        }
    }
}

} // verus!
