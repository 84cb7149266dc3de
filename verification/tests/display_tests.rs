use basis::cli::RunArgs;
use basis::config::{ActionDef, Config, DisplayDef, FileDef, Lang, Manifest, PaneDef, Repo, TaskDef};
use basis::display::{
    kill_step, launch_task, layout_args, new_session_args, resolve_panes, resolve_session, run, sanitize, send_args, session_name,
    sh_wrap, split_window_args, statuses, title_args, up_step, window_target, DisplayAction,
};
use basis::error::Error;

fn repo(name: &str, actions: Vec<(&str, Vec<&str>)>) -> Repo {
    Repo {
        name: name.to_string(),
        path: name.to_string(),
        lang: Lang::Rust,
        url: None,
        provides: None,
        version_file: None,
        cmake_file: None,
        email_domain: None,
        email_domains: vec![],
        actions: actions
            .into_iter()
            .map(|(n, cs)| ActionDef { name: n.to_string(), commands: cs.into_iter().map(|c| c.to_string()).collect() })
            .collect(),
    }
}

fn pane(name: Option<&str>, repo: Option<&str>, cwd: Option<&str>, command: Option<&str>, action: Option<&str>) -> PaneDef {
    PaneDef {
        name: name.map(|s| s.to_string()),
        repo: repo.map(|s| s.to_string()),
        cwd: cwd.map(|s| s.to_string()),
        command: command.map(|s| s.to_string()),
        action: action.map(|s| s.to_string()),
    }
}

fn config(repos: Vec<Repo>, tasks: Vec<TaskDef>, displays: Vec<DisplayDef>) -> Config {
    let m = Manifest {
        constellation: "demo".to_string(),
        version: None,
        email_domain: None,
        email_domains: vec![],
        repos,
        tasks,
        displays,
        files: Vec::<FileDef>::new(),
    };
    Config::new(m, "ws/basis.yaml").unwrap()
}

fn args() -> RunArgs {
    RunArgs { repos: vec![], keep_going: false, dry_run: false, tmux: false, no_tmux: false, detached: false, layout: None }
}

fn services() -> Config {
    config(
        vec![
            repo("api", vec![("run", vec!["cargo run --bin api"])]),
            repo("lib", vec![("build", vec!["cargo build"])]),
            repo("web", vec![("run", vec!["npm install", "npm run dev"])]),
        ],
        vec![TaskDef { name: "run".to_string(), display: Some("services".to_string()), layout: Some("even-vertical".to_string()) }],
        vec![],
    )
}

#[test]
fn sanitize_replaces_dots_colons_and_spaces() {
    assert_eq!(sanitize("my.proj:dev run"), "my-proj-dev-run");
    assert_eq!(sanitize("plain"), "plain");
}

#[test]
fn sh_wrap_quotes_single_quotes() {
    assert_eq!(sh_wrap("echo hi"), "sh -c 'echo hi'");
    assert_eq!(sh_wrap("echo 'x'"), "sh -c 'echo '\\''x'\\'''");
}

#[test]
fn session_name_defaults_to_constellation_and_display() {
    let d = DisplayDef { name: "dev".to_string(), session: None, layout: "tiled".to_string(), panes: vec![] };
    let cfg = config(vec![], vec![], vec![]);
    assert_eq!(session_name(&cfg, "dev", &d), "demo-dev");
    let d2 = DisplayDef { name: "dev".to_string(), session: Some("my.proj".to_string()), layout: "tiled".to_string(), panes: vec![] };
    assert_eq!(session_name(&cfg, "dev", &d2), "my-proj");
}

#[test]
fn task_display_decides_the_session() {
    let cfg = services();
    assert_eq!(resolve_session(&cfg, "run", &args()), Some("services".to_string()));
    assert_eq!(resolve_session(&cfg, "build", &args()), None);
    let mut forced = args();
    forced.tmux = true;
    assert_eq!(resolve_session(&cfg, "build", &forced), Some("demo-build".to_string()));
    let mut inline = args();
    inline.no_tmux = true;
    inline.tmux = true;
    assert_eq!(resolve_session(&cfg, "run", &inline), None);
}

#[test]
fn task_launch_gives_one_pane_per_repo_with_the_action() {
    let cfg = services();
    let t = launch_task(&cfg, "run", &args(), true).unwrap();
    assert_eq!(t.layout, "even-vertical");
    assert_eq!(t.window, "run");
    assert!(t.attach);
    assert_eq!(t.panes.len(), 2);
    assert_eq!(t.panes[0].title, "api");
    assert_eq!(t.panes[0].dir, "ws/api");
    assert_eq!(t.panes[1].commands, vec!["npm install".to_string(), "npm run dev".to_string()]);
    let mut a = args();
    a.layout = Some("tiled".to_string());
    assert_eq!(launch_task(&cfg, "run", &a, true).unwrap().layout, "tiled");
}

#[test]
fn task_launch_errors() {
    let cfg = services();
    assert_eq!(launch_task(&cfg, "run", &args(), false).unwrap_err(), Error::TmuxMissing);
    assert_eq!(launch_task(&cfg, "deploy", &args(), true).unwrap_err(), Error::NoActionDefined("deploy".to_string()));
    let mut a = args();
    a.repos = vec!["nope".to_string()];
    assert_eq!(launch_task(&cfg, "run", &a, true).unwrap_err(), Error::UnknownRepo("nope".to_string()));
}

#[test]
fn task_layout_defaults_to_tiled() {
    let cfg = config(vec![repo("api", vec![("test", vec!["cargo test"])])], vec![], vec![]);
    assert_eq!(launch_task(&cfg, "test", &args(), true).unwrap().layout, "tiled");
}

#[test]
fn pane_resolution_order() {
    let cfg = config(
        vec![repo("core", vec![("build", vec!["cargo build", "cargo test"])])],
        vec![],
        vec![DisplayDef {
            name: "dev".to_string(),
            session: None,
            layout: "tiled".to_string(),
            panes: vec![
                pane(None, Some("core"), None, Some("cargo watch -x run"), None),
                pane(None, Some("core"), None, None, Some("build")),
                pane(Some("logs"), None, Some("log"), Some("tail -f dev.log"), None),
                pane(Some("shell"), None, None, None, None),
                pane(None, None, None, None, None),
            ],
        }],
    );
    let panes = resolve_panes(&cfg, &cfg.manifest.displays[0]).unwrap();
    assert_eq!(panes[0].title, "core");
    assert_eq!(panes[0].dir, "ws/core");
    assert_eq!(panes[0].commands, vec!["cargo watch -x run".to_string()]);
    assert_eq!(panes[1].commands, vec!["cargo build".to_string(), "cargo test".to_string()]);
    assert_eq!(panes[2].title, "logs");
    assert_eq!(panes[2].dir, "ws/log");
    assert_eq!(panes[3].dir, "ws");
    assert!(panes[3].commands.is_empty());
    assert_eq!(panes[4].title, "shell");
}

#[test]
fn pane_errors() {
    let make = |p: PaneDef| {
        config(
            vec![repo("core", vec![])],
            vec![],
            vec![DisplayDef { name: "dev".to_string(), session: None, layout: "tiled".to_string(), panes: vec![p] }],
        )
    };
    let cfg = make(pane(None, None, None, None, Some("build")));
    assert_eq!(resolve_panes(&cfg, &cfg.manifest.displays[0]).unwrap_err(), Error::PaneActionWithoutRepo("build".to_string()));
    let cfg = make(pane(None, Some("core"), None, None, Some("build")));
    assert_eq!(
        resolve_panes(&cfg, &cfg.manifest.displays[0]).unwrap_err(),
        Error::MissingAction { repo: "core".to_string(), action: "build".to_string() }
    );
    let cfg = make(pane(None, Some("ghost"), None, Some("ls"), None));
    assert_eq!(resolve_panes(&cfg, &cfg.manifest.displays[0]).unwrap_err(), Error::UnknownRepo("ghost".to_string()));
}

#[test]
fn display_run_decisions() {
    let dev = DisplayDef {
        name: "dev".to_string(),
        session: None,
        layout: "main-vertical".to_string(),
        panes: vec![pane(Some("shell"), None, None, None, None)],
    };
    let empty = DisplayDef { name: "empty".to_string(), session: None, layout: "tiled".to_string(), panes: vec![] };
    let cfg = config(vec![], vec![], vec![dev, empty]);
    assert!(matches!(run(&cfg, None, false, false, false), Ok(DisplayAction::List)));
    assert_eq!(run(&cfg, Some("x".to_string()), false, false, true).unwrap_err(), Error::UnknownDisplay("x".to_string()));
    assert_eq!(run(&cfg, Some("dev".to_string()), false, false, false).unwrap_err(), Error::TmuxMissing);
    match run(&cfg, Some("dev".to_string()), true, false, true) {
        Ok(DisplayAction::Kill { session }) => assert_eq!(session, "demo-dev"),
        other => panic!("expected a kill, got {other:?}"),
    }
    match run(&cfg, Some("dev".to_string()), false, true, true) {
        Ok(DisplayAction::Up { session, window, panes, layout, attach }) => {
            assert!(!attach);
            assert_eq!(session, "demo-dev");
            assert_eq!(window, "dev");
            assert_eq!(panes.len(), 1);
            assert_eq!(layout, "main-vertical");
        },
        other => panic!("expected a session, got {other:?}"),
    }
    assert_eq!(run(&cfg, Some("empty".to_string()), false, false, true).unwrap_err(), Error::NoPanes("empty".to_string()));
}

#[test]
fn statuses_pair_displays_with_running_flags() {
    let dev = DisplayDef { name: "dev".to_string(), session: None, layout: "tiled".to_string(), panes: vec![pane(None, None, None, None, None)] };
    let cfg = config(vec![], vec![], vec![dev]);
    let st = statuses(&cfg, &vec![true]);
    assert_eq!(st.len(), 1);
    assert_eq!(st[0].session, "demo-dev");
    assert_eq!(st[0].panes, 1);
    assert!(st[0].running);
}

#[test]
fn tmux_argument_lists() {
    assert_eq!(window_target("demo-dev", "dev"), "demo-dev:dev");
    assert_eq!(
        new_session_args("s", "w", "/d"),
        vec!["new-session", "-d", "-P", "-F", "#{pane_id}", "-s", "s", "-n", "w", "-c", "/d"]
    );
    assert_eq!(split_window_args("s:w", "/d"), vec!["split-window", "-P", "-F", "#{pane_id}", "-t", "s:w", "-c", "/d"]);
    assert_eq!(layout_args("s:w", "tiled"), vec!["select-layout", "-t", "s:w", "tiled"]);
    assert_eq!(title_args("%1", "api"), vec!["select-pane", "-t", "%1", "-T", "api"]);
    assert_eq!(send_args("%1", "ls"), vec!["send-keys", "-t", "%1", "sh -c 'ls'", "Enter"]);
}

#[test]
fn running_sessions_are_reused_and_detached_ones_not_attached() {
    let fresh = up_step(false, false);
    assert!(fresh.build && fresh.attach);
    let again = up_step(true, true);
    assert!(!again.build && !again.attach);
    assert!(kill_step(true));
    assert!(!kill_step(false));
}

#[test]
fn detached_task_launch_does_not_attach() {
    let cfg = services();
    let mut a = args();
    a.detached = true;
    assert!(!launch_task(&cfg, "run", &a, true).unwrap().attach);
}
