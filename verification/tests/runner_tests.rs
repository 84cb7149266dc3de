use basis::cli::RunArgs;
use basis::config::{ActionDef, Config, DisplayDef, FileDef, Lang, Manifest, Repo, TaskDef};
use basis::error::Error;
use basis::runner::{
    list_actions, on_command_failure, on_missing_dir, run_action, run_outcome, run_step, ActionPlan, RepoRun, RunEvent, RunNext,
    RunState,
};

fn repo(name: &str, actions: Vec<(&str, Vec<&str>)>) -> Repo {
    Repo {
        name: name.to_string(),
        path: name.to_string(),
        lang: Lang::Rust,
        url: None,
        provides: None,
        version_file: None,
        cmake_file: None,
        email_domain: None,
        email_domains: vec![],
        actions: actions
            .into_iter()
            .map(|(n, cs)| ActionDef { name: n.to_string(), commands: cs.into_iter().map(|c| c.to_string()).collect() })
            .collect(),
    }
}

fn config(repos: Vec<Repo>, tasks: Vec<TaskDef>) -> Config {
    let m = Manifest {
        constellation: "demo".to_string(),
        version: None,
        email_domain: None,
        email_domains: vec![],
        repos,
        tasks,
        displays: Vec::<DisplayDef>::new(),
        files: Vec::<FileDef>::new(),
    };
    Config::new(m, "ws/basis.yaml").unwrap()
}

fn args() -> RunArgs {
    RunArgs { repos: vec![], keep_going: false, dry_run: false, tmux: false, no_tmux: false, detached: false, layout: None }
}

fn sample() -> Config {
    config(
        vec![
            repo("core", vec![("_postclone", vec!["make gen"]), ("build", vec!["cargo build --release"]), ("clean", vec!["cargo clean"])]),
            repo("engine", vec![("build", vec!["cmake -B build -S .", "cmake --build build"]), ("run", vec!["./engine"])]),
        ],
        vec![TaskDef { name: "run".to_string(), display: Some("services".to_string()), layout: None }],
    )
}

#[test]
fn actions_are_listed_sorted_without_hooks() {
    let entries = list_actions(&sample());
    let names: Vec<&str> = entries.iter().map(|e| e.action.as_str()).collect();
    assert_eq!(names, vec!["build", "clean", "run"]);
    assert_eq!(entries[0].repos, vec!["core".to_string(), "engine".to_string()]);
    assert_eq!(entries[1].repos, vec!["core".to_string()]);
    assert_eq!(entries[0].display, None);
    assert_eq!(entries[2].display, Some("services".to_string()));
}

#[test]
fn no_actions_gives_an_empty_list() {
    assert!(list_actions(&config(vec![repo("core", vec![])], vec![])).is_empty());
}

#[test]
fn inline_run_visits_every_selected_repo() {
    let cfg = sample();
    match run_action(&cfg, "clean", &args()).unwrap() {
        ActionPlan::Inline { runs } => {
            assert_eq!(runs.len(), 2);
            assert_eq!(runs[0].name, "core");
            assert_eq!(runs[0].dir, "ws/core");
            assert_eq!(runs[0].commands, Some(vec!["cargo clean".to_string()]));
            assert_eq!(runs[1].name, "engine");
            assert_eq!(runs[1].commands, None);
        },
        other => panic!("expected an inline run, got {other:?}"),
    }
}

#[test]
fn task_with_display_runs_in_tmux() {
    match run_action(&sample(), "run", &args()).unwrap() {
        ActionPlan::Tmux { session } => assert_eq!(session, "services"),
        other => panic!("expected tmux, got {other:?}"),
    }
    let mut a = args();
    a.no_tmux = true;
    assert!(matches!(run_action(&sample(), "run", &a).unwrap(), ActionPlan::Inline { .. }));
}

#[test]
fn run_errors() {
    let cfg = sample();
    assert_eq!(run_action(&cfg, "deploy", &args()).unwrap_err(), Error::NoActionDefined("deploy".to_string()));
    let mut a = args();
    a.repos = vec!["core".to_string()];
    assert_eq!(run_action(&cfg, "run", &RunArgs { no_tmux: true, ..a }).unwrap_err(), Error::NoActionDefined("run".to_string()));
    let mut b = args();
    b.repos = vec!["ghost".to_string()];
    assert_eq!(run_action(&cfg, "build", &b).unwrap_err(), Error::UnknownRepo("ghost".to_string()));
}

#[test]
fn missing_directory_is_a_warning_only_when_keeping_going() {
    assert_eq!(
        on_missing_dir(&args(), "core", "ws/core"),
        Err(Error::MissingDirectory { repo: "core".to_string(), dir: "ws/core".to_string() })
    );
    let mut k = args();
    k.keep_going = true;
    assert_eq!(on_missing_dir(&k, "core", "ws/core"), Ok(()));
    let mut n = args();
    n.dry_run = true;
    assert_eq!(on_missing_dir(&n, "core", "ws/core"), Ok(()));
}

#[test]
fn failed_commands_stop_the_run_unless_keeping_going() {
    assert_eq!(
        on_command_failure(&args(), "core", "cargo build", "exited with exit status: 1"),
        Err(Error::CommandFailed {
            repo: "core".to_string(),
            command: "cargo build".to_string(),
            detail: "exited with exit status: 1".to_string(),
        })
    );
    let mut k = args();
    k.keep_going = true;
    assert_eq!(on_command_failure(&k, "core", "cargo build", "x"), Ok(()));
}

#[test]
fn run_outcome_names_the_failed_repositories() {
    assert_eq!(run_outcome(vec![]), Ok(()));
    assert_eq!(
        run_outcome(vec!["core".to_string(), "engine".to_string()]),
        Err(Error::ReposFailed(vec!["core".to_string(), "engine".to_string()]))
    );
}

fn inline_runs(cfg: &Config, action: &str, a: &RunArgs) -> Vec<RepoRun> {
    match run_action(cfg, action, a).unwrap() {
        ActionPlan::Inline { runs } => runs,
        other => panic!("expected an inline run, got {other:?}"),
    }
}

/// Drives a run to its end: `dirs` says which directories exist, `fail`
/// which (repository, command) executions fail. Returns the steps taken and
/// the outcome.
fn drive(a: &RunArgs, runs: &Vec<RepoRun>, dirs: &[bool], fail: &[(usize, usize)]) -> (Vec<String>, Result<(), Error>) {
    let mut steps = Vec::new();
    let mut state = RunState::start();
    let mut event = RunEvent::Next;
    loop {
        let (s, next) = run_step(a, runs, state, event);
        state = s;
        event = RunEvent::Next;
        match next {
            RunNext::Skip { repo } => steps.push(format!("skip {repo}")),
            RunNext::Enter { repo } => {
                steps.push(format!("enter {repo}"));
                event = RunEvent::Directory(dirs[repo]);
            },
            RunNext::Missing { repo } => steps.push(format!("missing {repo}")),
            RunNext::Show { repo, command } => steps.push(format!("show {repo}.{command}")),
            RunNext::Execute { repo, command } => {
                steps.push(format!("run {repo}.{command}"));
                let failed = fail.contains(&(repo, command));
                event = RunEvent::Finished(if failed { Some("exited with 1".to_string()) } else { None });
            },
            RunNext::Failed { repo, .. } => steps.push(format!("failed {repo}")),
            RunNext::Finish(r) => return (steps, r),
        }
    }
}

fn three() -> Config {
    config(
        vec![
            repo("core", vec![("build", vec!["a", "b"])]),
            repo("docs", vec![]),
            repo("engine", vec![("build", vec!["c"])]),
        ],
        vec![],
    )
}

#[test]
fn inline_run_executes_commands_in_order() {
    let cfg = three();
    let runs = inline_runs(&cfg, "build", &args());
    let (steps, r) = drive(&args(), &runs, &[true, true, true], &[]);
    assert_eq!(steps, vec!["enter 0", "run 0.0", "run 0.1", "skip 1", "enter 2", "run 2.0"]);
    assert_eq!(r, Ok(()));
}

#[test]
fn dry_run_executes_nothing_and_names_missing_directories() {
    let cfg = three();
    let mut a = args();
    a.dry_run = true;
    let runs = inline_runs(&cfg, "build", &a);
    let (steps, r) = drive(&a, &runs, &[false, true, true], &[]);
    assert_eq!(steps, vec!["enter 0", "missing 0", "skip 1", "enter 2", "show 2.0"]);
    assert_eq!(r, Err(Error::ReposFailed(vec!["core".to_string()])));
}

#[test]
fn first_failure_stops_the_run_without_keep_going() {
    let cfg = three();
    let runs = inline_runs(&cfg, "build", &args());
    let (steps, r) = drive(&args(), &runs, &[true, true, true], &[(0, 0)]);
    assert_eq!(steps, vec!["enter 0", "run 0.0"]);
    assert_eq!(
        r,
        Err(Error::CommandFailed { repo: "core".to_string(), command: "a".to_string(), detail: "exited with 1".to_string() })
    );
}

#[test]
fn keep_going_attempts_every_repository() {
    let cfg = three();
    let mut a = args();
    a.keep_going = true;
    let runs = inline_runs(&cfg, "build", &a);
    let (steps, r) = drive(&a, &runs, &[true, true, false], &[(0, 0)]);
    assert_eq!(steps, vec!["enter 0", "run 0.0", "failed 0", "skip 1", "enter 2", "missing 2"]);
    assert_eq!(r, Err(Error::ReposFailed(vec!["core".to_string(), "engine".to_string()])));
}

#[test]
fn missing_directory_stops_a_plain_run() {
    let cfg = three();
    let runs = inline_runs(&cfg, "build", &args());
    let (_, r) = drive(&args(), &runs, &[false, true, true], &[]);
    assert_eq!(r, Err(Error::MissingDirectory { repo: "core".to_string(), dir: "ws/core".to_string() }));
}
