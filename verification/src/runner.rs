//! Running actions across the constellation: the list of actions, and what
//! running one does.
use vstd::prelude::*;
use vstd::string::*;

use crate::cli::RunArgs;
use crate::config::{action_index, joined, selection, Config, Repo};
use crate::display::{resolve_session, session_for};
use crate::error::{Error, ErrorView};
use crate::git::opt_view;
use crate::text::{
    chars_of, insert_sorted, lemma_seq_lt_irreflexive, seq_lt, seqs_of, sorted_strict, string_of, views_of,
};
use crate::config::first_unknown;

verus! {

/// Whether an action is listed: hooks such as `_postclone` (starting with
/// `_`) run automatically and are hidden.
pub open spec fn visible_action(name: Seq<char>) -> bool {
    !(name.len() > 0 && name[0] == '_')
}

/// The visible action names that some repository defines.
pub open spec fn defined_actions(repos: Seq<Repo>) -> Set<Seq<char>> {
    Set::new(|n: Seq<char>| visible_action(n) && exists|i: int, j: int|
        0 <= i < repos.len() && 0 <= j < repos[i].actions@.len() && #[trigger] repos[i].actions@[j].name@ == n)
}

/// The names of the repositories that define `action`, in manifest order.
pub open spec fn providers(repos: Seq<Repo>, action: Seq<char>) -> Seq<Seq<char>>
    decreases repos.len(),
{
    if repos.len() == 0 {
        Seq::empty()
    } else {
        let prev = providers(repos.drop_last(), action);
        if action_index(repos.last().actions@, action).is_some() { prev.push(repos.last().name@) } else { prev }
    }
}

/// One action of the manifest: the repositories that provide it and the
/// display it runs in (if any).
#[derive(Debug)]
pub struct ActionEntry {
    pub action: String,
    pub repos: Vec<String>,
    pub display: Option<String>,
}

/// The actions of a list of entries.
pub open spec fn entry_names(v: Seq<ActionEntry>) -> Seq<Seq<char>> {
    v.map_values(|e: ActionEntry| e.action@)
}

fn providers_of(cfg: &Config, action: &str) -> (r: Vec<String>)
    ensures
        views_of(r@) == providers(cfg.manifest.repos@, action@),
{
    let mut out: Vec<String> = Vec::new();
    let mut i: usize = 0;
    while i < cfg.manifest.repos.len()
        invariant
            i <= cfg.manifest.repos@.len(),
            views_of(out@) == providers(cfg.manifest.repos@.take(i as int), action@),
        decreases cfg.manifest.repos@.len() - i,
    {
        let repo = &cfg.manifest.repos[i];
        assert(cfg.manifest.repos@.take(i + 1).drop_last() == cfg.manifest.repos@.take(i as int));
        if repo.find_action(action).is_some() {
            let ghost before = views_of(out@);
            out.push(repo.name.clone());
            assert(views_of(out@) =~= before.push(repo.name@));
        }
        i += 1;
    }
    assert(cfg.manifest.repos@.take(cfg.manifest.repos@.len() as int) == cfg.manifest.repos@);
    out
}

/// Lists every action defined in the manifest (hooks starting with `_`
/// hidden), sorted by name, with the repos that provide it in manifest
/// order and the display it runs in.
pub fn list_actions(cfg: &Config) -> (r: Vec<ActionEntry>)
    ensures
        sorted_strict(entry_names(r@)),
        entry_names(r@).to_set() == defined_actions(cfg.manifest.repos@),
        forall|k: int| 0 <= k < r@.len() ==> views_of((#[trigger] r@[k]).repos@) == providers(cfg.manifest.repos@, r@[k].action@),
        forall|k: int| 0 <= k < r@.len() ==> opt_view((#[trigger] r@[k]).display) == match cfg.task_index(r@[k].action@) {
            Some(t) => opt_view(cfg.manifest.tasks@[t].display),
            None => None,
        },
{
    let ghost repos = cfg.manifest.repos@;
    let mut names: Vec<Vec<char>> = Vec::new();
    let mut i: usize = 0;
    assert(seqs_of(names@).to_set() =~= Set::<Seq<char>>::empty());
    while i < cfg.manifest.repos.len()
        invariant
            repos == cfg.manifest.repos@,
            i <= repos.len(),
            sorted_strict(seqs_of(names@)),
            seqs_of(names@).to_set() == Set::new(|n: Seq<char>| visible_action(n) && exists|a: int, j: int|
                0 <= a < i && 0 <= j < repos[a].actions@.len() && #[trigger] repos[a].actions@[j].name@ == n),
        decreases repos.len() - i,
    {
        let repo = &cfg.manifest.repos[i];
        let ghost before_i = seqs_of(names@).to_set();
        let mut j: usize = 0;
        while j < repo.actions.len()
            invariant
                repos == cfg.manifest.repos@,
                i < repos.len(),
                *repo == repos[i as int],
                j <= repo.actions@.len(),
                sorted_strict(seqs_of(names@)),
                seqs_of(names@).to_set() == before_i.union(Set::new(|n: Seq<char>| visible_action(n) && exists|b: int|
                    0 <= b < j && #[trigger] repo.actions@[b].name@ == n)),
            decreases repo.actions@.len() - j,
        {
            let name = chars_of(repo.actions[j].name.as_str());
            let ghost before_j = seqs_of(names@).to_set();
            let visible = !(name.len() > 0 && name[0] == '_');
            if visible {
                insert_sorted(&mut names, name);
            }
            assert(seqs_of(names@).to_set() =~= before_i.union(Set::new(|n: Seq<char>| visible_action(n) && exists|b: int|
                0 <= b < j + 1 && #[trigger] repo.actions@[b].name@ == n))) by {
                assert forall|n: Seq<char>| #![auto] (visible_action(n) && exists|b: int| 0 <= b < j + 1 && #[trigger] repo.actions@[b].name@ == n)
                    <==> ((visible_action(n) && exists|b: int| 0 <= b < j && #[trigger] repo.actions@[b].name@ == n)
                        || (visible && n == repo.actions@[j as int].name@)) by {
                    if visible_action(n) && exists|b: int| 0 <= b < j + 1 && #[trigger] repo.actions@[b].name@ == n {
                        let b = choose|b: int| 0 <= b < j + 1 && #[trigger] repo.actions@[b].name@ == n;
                        if b == j {
                            assert(visible == visible_action(n));
                        }
                    }
                    if visible && n == repo.actions@[j as int].name@ {
                        assert(visible_action(n));
                    }
                }
            }
            j += 1;
        }
        assert(seqs_of(names@).to_set() =~= Set::new(|n: Seq<char>| visible_action(n) && exists|a: int, b: int|
            0 <= a < i + 1 && 0 <= b < repos[a].actions@.len() && #[trigger] repos[a].actions@[b].name@ == n)) by {
            assert forall|n: Seq<char>| seqs_of(names@).to_set().contains(n) <==> (visible_action(n) && exists|a: int, b: int|
                0 <= a < i + 1 && 0 <= b < repos[a].actions@.len() && #[trigger] repos[a].actions@[b].name@ == n) by {
                if visible_action(n) && exists|a: int, b: int|
                    0 <= a < i + 1 && 0 <= b < repos[a].actions@.len() && #[trigger] repos[a].actions@[b].name@ == n {
                    let (a, b) = choose|a: int, b: int|
                        0 <= a < i + 1 && 0 <= b < repos[a].actions@.len() && #[trigger] repos[a].actions@[b].name@ == n;
                    if a == i {
                        assert(repo.actions@[b].name@ == n);
                    } else {
                        assert(before_i.contains(n));
                    }
                }
                if seqs_of(names@).to_set().contains(n) {
                    if before_i.contains(n) {
                    } else {
                        let b = choose|b: int| 0 <= b < repo.actions@.len() && #[trigger] repo.actions@[b].name@ == n;
                        assert(repos[i as int].actions@[b].name@ == n);
                    }
                }
            }
        }
        i += 1;
    }
    let mut out: Vec<ActionEntry> = Vec::new();
    let mut k: usize = 0;
    while k < names.len()
        invariant
            k <= names@.len(),
            entry_names(out@) == seqs_of(names@).take(k as int),
            forall|m: int| 0 <= m < out@.len() ==> views_of((#[trigger] out@[m]).repos@) == providers(cfg.manifest.repos@, out@[m].action@),
            forall|m: int| 0 <= m < out@.len() ==> opt_view((#[trigger] out@[m]).display) == match cfg.task_index(out@[m].action@) {
                Some(t) => opt_view(cfg.manifest.tasks@[t].display),
                None => None,
            },
        decreases names@.len() - k,
    {
        let action = string_of(names[k].as_slice());
        let providers = providers_of(cfg, action.as_str());
        let display = cfg.task_display(action.as_str());
        let ghost before = entry_names(out@);
        out.push(ActionEntry { action, repos: providers, display });
        assert(entry_names(out@) =~= before.push(names@[k as int]@));
        assert(seqs_of(names@).take(k + 1) =~= seqs_of(names@).take(k as int).push(names@[k as int]@));
        k += 1;
    }
    assert(seqs_of(names@).take(names@.len() as int) == seqs_of(names@));
    assert(defined_actions(cfg.manifest.repos@) =~= seqs_of(names@).to_set());
    out
}

/// One repository of an inline action run: its name, directory and the
/// action's commands (`None`: it has no such action and is skipped).
#[derive(Debug)]
pub struct RepoRun {
    pub name: String,
    pub dir: String,
    pub commands: Option<Vec<String>>,
}

impl RepoRun {
    pub open spec fn parts(&self) -> (Seq<char>, Seq<char>, Option<Seq<Seq<char>>>) {
        (self.name@, self.dir@, match self.commands { Some(c) => Some(views_of(c@)), None => None })
    }
}

/// How an action runs.
#[derive(Debug)]
pub enum ActionPlan {
    /// In this per-task tmux display, one pane per repository.
    Tmux { session: String },
    /// In the current terminal, repository after repository.
    Inline { runs: Vec<RepoRun> },
}

/// The inline runs for `action` over the selected repositories.
pub open spec fn inline_runs(base: Seq<char>, sel: Seq<Repo>, action: Seq<char>) -> Seq<(Seq<char>, Seq<char>, Option<Seq<Seq<char>>>)> {
    sel.map_values(|r: Repo| (r.name@, joined(base, r.path@), r.action_commands(action)))
}

fn clone_strings(v: &Vec<String>) -> (r: Vec<String>)
    ensures
        views_of(r@) == views_of(v@),
{
    let mut out: Vec<String> = Vec::new();
    let mut i: usize = 0;
    while i < v.len()
        invariant
            i <= v@.len(),
            views_of(out@) == views_of(v@).take(i as int),
        decreases v@.len() - i,
    {
        let ghost before = views_of(out@);
        out.push(v[i].clone());
        assert(views_of(out@) =~= before.push(v@[i as int]@));
        assert(views_of(v@).take(i + 1) =~= views_of(v@).take(i as int).push(v@[i as int]@));
        i += 1;
    }
    assert(views_of(v@).take(v@.len() as int) == views_of(v@));
    out
}

/// Decides how to run a named action (e.g. `build`) across the selected
/// repos: in a per-task tmux display when one applies (see
/// `resolve_session`); otherwise inline, refusing an unknown repository and
/// a selection in which no repository defines the action.
pub fn run_action(cfg: &Config, action: &str, args: &RunArgs) -> (r: Result<ActionPlan, Error>)
    ensures
        match session_for(args.no_tmux, args.tmux,
            match cfg.task_index(action@) { Some(i) => opt_view(cfg.manifest.tasks@[i].display), None => None },
            cfg.manifest.constellation@, action@) {
            Some(s) => r matches Ok(ActionPlan::Tmux { session }) && session@ == s,
            None => match first_unknown(cfg.manifest.repos@, args.repos@) {
                Some(k) => r matches Err(e) && e@ == ErrorView::UnknownRepo(args.repos@[k]@),
                None => {
                    let sel = selection(cfg.manifest.repos@, args.repos@);
                    if forall|i: int| 0 <= i < sel.len() ==> (#[trigger] sel[i]).action_commands(action@).is_none() {
                        r matches Err(e) && e@ == ErrorView::NoActionDefined(action@)
                    } else {
                        r matches Ok(ActionPlan::Inline { runs })
                            && runs@.map_values(|x: RepoRun| x.parts()) == inline_runs(cfg.base_dir@, sel, action@)
                    }
                },
            },
        },
{
    if let Some(session) = resolve_session(cfg, action, args) {
        return Ok(ActionPlan::Tmux { session });
    }
    let sel = match cfg.select(args.repos.as_slice()) {
        Err(e) => return Err(e),
        Ok(s) => s,
    };
    let ghost sv = sel@.map_values(|r: &Repo| *r);
    assert(sv =~= selection(cfg.manifest.repos@, args.repos@));
    let mut runs: Vec<RepoRun> = Vec::new();
    let mut any = false;
    let mut i: usize = 0;
    while i < sel.len()
        invariant
            i <= sel@.len(),
            sv == sel@.map_values(|r: &Repo| *r),
            runs@.map_values(|x: RepoRun| x.parts()) == inline_runs(cfg.base_dir@, sv.take(i as int), action@),
            any == exists|k: int| 0 <= k < i && (#[trigger] sv[k]).action_commands(action@).is_some(),
        decreases sel@.len() - i,
    {
        let repo = sel[i];
        assert(sv[i as int] == *repo);
        let ghost any_before = any;
        let commands = match repo.action(action) {
            Some(c) => {
                any = true;
                Some(clone_strings(c))
            },
            None => None,
        };
        assert(any == exists|k: int| 0 <= k < i + 1 && (#[trigger] sv[k]).action_commands(action@).is_some()) by {
            if any_before {
                let k = choose|k: int| 0 <= k < i && (#[trigger] sv[k]).action_commands(action@).is_some();
                assert(0 <= k < i + 1 && sv[k].action_commands(action@).is_some());
            }
            if sv[i as int].action_commands(action@).is_some() {
                assert(0 <= i < i + 1);
            }
        }
        let ghost before = runs@.map_values(|x: RepoRun| x.parts());
        runs.push(RepoRun { name: repo.name.clone(), dir: cfg.repo_dir(repo), commands });
        assert(runs@.map_values(|x: RepoRun| x.parts()) =~= before.push(runs@[i as int].parts()));
        assert(inline_runs(cfg.base_dir@, sv.take(i + 1), action@)
            =~= inline_runs(cfg.base_dir@, sv.take(i as int), action@).push(runs@[i as int].parts()));
        i += 1;
    }
    assert(sv.take(sel@.len() as int) == sv);
    if !any {
        return Err(Error::NoActionDefined(String::from_str(action)));
    }
    Ok(ActionPlan::Inline { runs })
}

/// What a missing repository directory does to an inline run: with
/// `--keep-going` or `--dry-run` it is a warning (the repository is counted
/// as failed and skipped); otherwise the run stops with an error.
pub fn on_missing_dir(args: &RunArgs, repo: &str, dir: &str) -> (r: Result<(), Error>)
    ensures
        (args.keep_going || args.dry_run) <==> r is Ok,
        r matches Err(e) ==> e@ == (ErrorView::MissingDirectory { repo: repo@, dir: dir@ }),
{
    if args.keep_going || args.dry_run {
        Ok(())
    } else {
        Err(Error::MissingDirectory { repo: String::from_str(repo), dir: String::from_str(dir) })
    }
}

/// What a failed command does to an inline run: with `--keep-going` the
/// repository is counted as failed and the run goes on with the next one;
/// otherwise the run stops with an error naming the command.
pub fn on_command_failure(args: &RunArgs, repo: &str, command: &str, detail: &str) -> (r: Result<(), Error>)
    ensures
        args.keep_going <==> r is Ok,
        r matches Err(e) ==> e@ == (ErrorView::CommandFailed { repo: repo@, command: command@, detail: detail@ }),
{
    if args.keep_going {
        Ok(())
    } else {
        Err(Error::CommandFailed {
            repo: String::from_str(repo),
            command: String::from_str(command),
            detail: String::from_str(detail),
        })
    }
}

/// The outcome of a run once every repository has been visited: it fails,
/// naming them, when some repositories failed.
pub fn run_outcome(failures: Vec<String>) -> (r: Result<(), Error>)
    ensures
        failures@.len() == 0 <==> r is Ok,
        r matches Err(e) ==> e@ == ErrorView::ReposFailed(failures@.map_values(|n: String| n@)),
{
    if failures.len() == 0 {
        Ok(())
    } else {
        Err(Error::ReposFailed(failures))
    }
}

/// Where an inline run stands.
#[derive(Debug)]
pub struct RunState {
    /// The run (repository) being worked on.
    pub repo: usize,
    /// Whether it has been announced and its directory checked.
    pub entered: bool,
    /// The next of its commands.
    pub command: usize,
    /// The repositories that failed so far.
    pub failures: Vec<String>,
}

impl RunState {
    /// The state before the first repository.
    pub fn start() -> (r: RunState)
        ensures
            r.repo == 0 && !r.entered && r.command == 0 && r.failures@.len() == 0,
    {
        RunState { repo: 0, entered: false, command: 0, failures: Vec::new() }
    }

    /// Repository, entered, command and failed repositories.
    pub open spec fn parts(&self) -> (int, bool, int, Seq<Seq<char>>) {
        (self.repo as int, self.entered, self.command as int, views_of(self.failures@))
    }
}

/// What happened since the last step.
#[derive(Debug)]
pub enum RunEvent {
    /// Go on: at the start, and after a step that needs no answer.
    Next,
    /// Whether the current repository's directory exists.
    Directory(bool),
    /// The command just executed succeeded (`None`) or failed (`Some(detail)`).
    Finished(Option<String>),
}

/// What to do next in an inline run.
#[derive(Debug)]
pub enum RunNext {
    /// The repository has no such action: say it is skipped.
    Skip { repo: usize },
    /// Announce the repository and check that its directory exists.
    Enter { repo: usize },
    /// Its directory is missing: warn; the repository counts as failed.
    Missing { repo: usize },
    /// Print the command without executing it (dry run).
    Show { repo: usize, command: usize },
    /// Print and execute the command in the repository's directory.
    Execute { repo: usize, command: usize },
    /// The command failed and the run keeps going: the repository counts as
    /// failed and its remaining commands are not run.
    Failed { repo: usize, detail: String },
    /// The run is over, with this outcome.
    Finish(Result<(), Error>),
}

/// A step, with the error taken by its view.
pub enum NextView {
    Skip(int),
    Enter(int),
    Missing(int),
    Show(int, int),
    Execute(int, int),
    Failed(int, Seq<char>),
    Finish(Result<(), ErrorView>),
}

impl View for RunNext {
    type V = NextView;

    open spec fn view(&self) -> NextView {
        match self {
            RunNext::Skip { repo } => NextView::Skip(*repo as int),
            RunNext::Enter { repo } => NextView::Enter(*repo as int),
            RunNext::Missing { repo } => NextView::Missing(*repo as int),
            RunNext::Show { repo, command } => NextView::Show(*repo as int, *command as int),
            RunNext::Execute { repo, command } => NextView::Execute(*repo as int, *command as int),
            RunNext::Failed { repo, detail } => NextView::Failed(*repo as int, detail@),
            RunNext::Finish(r) => NextView::Finish(match r {
                Ok(()) => Ok(()),
                Err(e) => Err(e@),
            }),
        }
    }
}

/// The outcome of a run with these failed repositories: `Ok` when there is
/// none, else an error naming them.
pub open spec fn outcome_of(failures: Seq<Seq<char>>) -> Result<(), ErrorView> {
    if failures.len() == 0 { Ok(()) } else { Err(ErrorView::ReposFailed(failures)) }
}

/// Going on from state `(i, entered, c, failures)`: a repository without the
/// action is skipped; a repository is first entered (its directory
/// checked); then its commands come in order, shown on a dry run and
/// executed otherwise; after its last command the next repository comes;
/// after the last repository the run finishes.
pub open spec fn advanced(dry_run: bool, runs: Seq<RepoRun>, st: (int, bool, int, Seq<Seq<char>>)) -> ((int, bool, int, Seq<Seq<char>>), NextView) {
    let (i, entered, c, fails) = st;
    if i >= runs.len() {
        (st, NextView::Finish(outcome_of(fails)))
    } else {
        match runs[i].commands {
            None => ((i + 1, false, 0, fails), NextView::Skip(i)),
            Some(cs) => if !entered {
                ((i, true, 0, fails), NextView::Enter(i))
            } else if c < cs.len() {
                ((i, true, c + 1, fails), if dry_run { NextView::Show(i, c) } else { NextView::Execute(i, c) })
            } else if i + 1 >= runs.len() {
                ((i + 1, false, 0, fails), NextView::Finish(outcome_of(fails)))
            } else {
                match runs[i + 1].commands {
                    None => ((i + 2, false, 0, fails), NextView::Skip(i + 1)),
                    Some(_) => ((i + 1, true, 0, fails), NextView::Enter(i + 1)),
                }
            },
        }
    }
}

/// Whether a state fits the runs: the repository index is in range, and an
/// entered repository has the action with the command index in range.
pub open spec fn state_fits(runs: Seq<RepoRun>, st: RunState) -> bool {
    &&& st.repo <= runs.len()
    &&& st.entered ==> (st.repo < runs.len() && (runs[st.repo as int].commands matches Some(cs) && st.command <= cs@.len()))
}

/// One step of an inline run (`runs` as `run_action` planned them): from
/// the state and what just happened, the next state and what to do. A
/// missing directory and a failed command stop the run with an error
/// unless `--keep-going` (or, for a missing directory, `--dry-run`) goes
/// on, counting the repository as failed; a dry run never executes a
/// command; the run finishes with an error naming the failed repositories,
/// or `Ok` when none failed.
pub fn run_step(args: &RunArgs, runs: &Vec<RepoRun>, state: RunState, event: RunEvent) -> (r: (RunState, RunNext))
    requires
        state_fits(runs@, state),
        event is Directory ==> state.entered && state.command == 0,
        event matches RunEvent::Finished(Some(_)) ==> state.entered && state.command > 0,
    ensures
        state_fits(runs@, r.0),
        args.dry_run ==> !(r.1 is Execute),
        match event {
            RunEvent::Directory(false) => {
                let run = runs@[state.repo as int];
                if args.keep_going || args.dry_run {
                    &&& r.0.parts() == (state.repo + 1, false, 0int, views_of(state.failures@).push(run.name@))
                    &&& r.1@ == NextView::Missing(state.repo as int)
                } else {
                    r.1@ == NextView::Finish(Err(ErrorView::MissingDirectory { repo: run.name@, dir: run.dir@ }))
                }
            },
            RunEvent::Finished(Some(detail)) => {
                let run = runs@[state.repo as int];
                if args.keep_going {
                    &&& r.0.parts() == (state.repo + 1, false, 0int, views_of(state.failures@).push(run.name@))
                    &&& r.1@ == NextView::Failed(state.repo as int, detail@)
                } else {
                    r.1@ == NextView::Finish(Err(ErrorView::CommandFailed {
                        repo: run.name@,
                        command: run.commands->Some_0@[state.command - 1]@,
                        detail: detail@,
                    }))
                }
            },
            _ => (r.0.parts(), r.1@) == advanced(args.dry_run, runs@, state.parts()),
        },
{
    let total = runs.len();
    let RunState { repo, entered, command, mut failures } = state;
    match event {
        RunEvent::Directory(false) => {
            assert(repo < total);
            let run = &runs[repo];
            match on_missing_dir(args, run.name.as_str(), run.dir.as_str()) {
                Err(e) => {
                    return (RunState { repo, entered, command, failures }, RunNext::Finish(Err(e)));
                },
                Ok(()) => {
                    failures.push(run.name.clone());
                    return (RunState { repo: repo + 1, entered: false, command: 0, failures }, RunNext::Missing { repo });
                },
            }
        },
        RunEvent::Finished(Some(detail)) => {
            assert(repo < total);
            let run = &runs[repo];
            let cs = match &run.commands {
                Some(cs) => cs,
                None => {
                    return (RunState { repo, entered, command, failures }, RunNext::Finish(Ok(())));
                },
            };
            match on_command_failure(args, run.name.as_str(), cs[command - 1].as_str(), detail.as_str()) {
                Err(e) => {
                    return (RunState { repo, entered, command, failures }, RunNext::Finish(Err(e)));
                },
                Ok(()) => {
                    failures.push(run.name.clone());
                    return (RunState { repo: repo + 1, entered: false, command: 0, failures }, RunNext::Failed { repo, detail });
                },
            }
        },
        _ => {},
    }
    if repo >= runs.len() {
        let done = clone_strings(&failures);
        return (RunState { repo, entered, command, failures }, RunNext::Finish(run_outcome(done)));
    }
    let cs = match &runs[repo].commands {
        None => {
            return (RunState { repo: repo + 1, entered: false, command: 0, failures }, RunNext::Skip { repo });
        },
        Some(cs) => cs,
    };
    if !entered {
        return (RunState { repo, entered: true, command: 0, failures }, RunNext::Enter { repo });
    }
    if command < cs.len() {
        let next = if args.dry_run { RunNext::Show { repo, command } } else { RunNext::Execute { repo, command } };
        return (RunState { repo, entered: true, command: command + 1, failures }, next);
    }
    if repo + 1 >= runs.len() {
        let done = clone_strings(&failures);
        return (RunState { repo: repo + 1, entered: false, command: 0, failures }, RunNext::Finish(run_outcome(done)));
    }
    match &runs[repo + 1].commands {
        None => (RunState { repo: repo + 2, entered: false, command: 0, failures }, RunNext::Skip { repo: repo + 1 }),
        Some(_) => (RunState { repo: repo + 1, entered: true, command: 0, failures }, RunNext::Enter { repo: repo + 1 }),
    }
}

} // verus!
