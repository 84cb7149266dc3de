use basis::config::{ActionDef, Config, DisplayDef, FileDef, Lang, Manifest, Repo, TaskDef};
use basis::install::{clone_args, derive_name, file_step, manifest_in, member_step, postclone_commands, resolve, FileStep, MemberStep};
use basis::git::status;
use basis::status::{git_column, id_mark, remote_state, summarize, GitColumn, IdMark, RemoteState};
use basis::verify::{Check, Identity, State};
use basis::version::VersionInfo;

fn repo(name: &str, url: Option<&str>) -> Repo {
    Repo {
        name: name.to_string(),
        path: name.to_string(),
        lang: Lang::Rust,
        url: url.map(|u| u.to_string()),
        provides: None,
        version_file: None,
        cmake_file: None,
        email_domain: None,
        email_domains: vec![],
        actions: vec![],
    }
}

fn config(repos: Vec<Repo>, files: Vec<FileDef>) -> Config {
    let m = Manifest {
        constellation: "platform".to_string(),
        version: None,
        email_domain: None,
        email_domains: vec![],
        repos,
        tasks: Vec::<TaskDef>::new(),
        displays: Vec::<DisplayDef>::new(),
        files,
    };
    Config::new(m, "platform/basis.yaml").unwrap()
}

fn info(version: Option<&str>) -> VersionInfo {
    VersionInfo { name: "r".to_string(), lang: Lang::Rust, version: version.map(|v| v.to_string()) }
}

#[test]
fn org_repo_shorthand_resolves_to_github() {
    assert_eq!(resolve("acme/platform"), ("https://github.com/acme/platform".to_string(), "platform".to_string()));
    assert_eq!(resolve(" acme/platform/ "), ("https://github.com/acme/platform".to_string(), "platform".to_string()));
}

#[test]
fn full_urls_are_kept() {
    assert_eq!(
        resolve("git@github.com:acme/platform.git"),
        ("git@github.com:acme/platform.git".to_string(), "platform".to_string())
    );
    assert_eq!(resolve("file:///srv/git/plat.git"), ("file:///srv/git/plat.git".to_string(), "plat".to_string()));
}

#[test]
fn derived_names() {
    assert_eq!(derive_name("https://host/org/repo.git/"), "repo");
    assert_eq!(derive_name("host:repo"), "repo");
    assert_eq!(derive_name("x.git.git"), "x");
    assert_eq!(derive_name("plain"), "plain");
}

#[test]
fn member_steps() {
    let cfg = config(vec![repo("core", Some("https://github.com/acme/core")), repo("local", None)], vec![]);
    match member_step(&cfg, &cfg.manifest.repos[0], false) {
        MemberStep::Clone { url, dest } => {
            assert_eq!(url, "https://github.com/acme/core");
            assert_eq!(dest, "platform/core");
        },
        other => panic!("expected a clone, got {other:?}"),
    }
    assert!(matches!(member_step(&cfg, &cfg.manifest.repos[0], true), MemberStep::Present));
    assert!(matches!(member_step(&cfg, &cfg.manifest.repos[1], false), MemberStep::NoUrl));
}

#[test]
fn file_steps() {
    let f = FileDef { path: "tools/gen.sh".to_string(), url: "https://x/gen.sh".to_string(), executable: true };
    let cfg = config(vec![], vec![]);
    match file_step(&cfg, &f, false) {
        FileStep::Fetch { dest, url, executable } => {
            assert_eq!(dest, "platform/tools/gen.sh");
            assert_eq!(url, "https://x/gen.sh");
            assert!(executable);
        },
        other => panic!("expected a fetch, got {other:?}"),
    }
    assert!(matches!(file_step(&cfg, &f, true), FileStep::Present { .. }));
}

#[test]
fn git_clone_arguments() {
    assert_eq!(clone_args("u", "d", None), vec!["clone", "u", "d"]);
    assert_eq!(clone_args("u", "d", Some("main".to_string())), vec!["clone", "--branch", "main", "u", "d"]);
}

#[test]
fn manifest_inside_the_clone() {
    assert_eq!(manifest_in("platform", "basis.yaml"), "platform/basis.yaml");
    assert_eq!(manifest_in("platform", "conf/other.yaml"), "platform/other.yaml");
    assert_eq!(manifest_in("platform", ".."), "platform/basis.yaml");
}

#[test]
fn postclone_hook() {
    let mut r = repo("core", None);
    assert_eq!(postclone_commands(&r), None);
    r.actions.push(ActionDef { name: "_postclone".to_string(), commands: vec!["make gen".to_string()] });
    assert_eq!(postclone_commands(&r), Some(&vec!["make gen".to_string()]));
}

#[test]
fn remote_states() {
    let with = repo("core", Some("https://github.com/acme/core"));
    assert!(matches!(remote_state(&repo("x", None), true, None), RemoteState::Unchecked));
    assert!(matches!(remote_state(&with, false, None), RemoteState::Missing));
    assert!(matches!(remote_state(&with, true, Some("git@github.com:acme/core.git".to_string())), RemoteState::Matches));
    match remote_state(&with, true, Some("git@github.com:fork/core.git".to_string())) {
        RemoteState::Differs(actual) => assert_eq!(actual, "git@github.com:fork/core.git"),
        other => panic!("expected a mismatch, got {other:?}"),
    }
    assert!(matches!(remote_state(&with, true, None), RemoteState::NoOrigin));
}

#[test]
fn identity_marks() {
    let id = |applies: bool, states: Vec<State>| Identity {
        applies,
        domains: vec![],
        checks: states.into_iter().map(|s| Check { state: s, label: "c", detail: String::new() }).collect(),
    };
    assert_eq!(id_mark(&id(false, vec![])), IdMark::NotApplicable);
    assert_eq!(id_mark(&id(true, vec![State::Pass, State::Pass])), IdMark::Pass);
    assert_eq!(id_mark(&id(true, vec![State::Pass, State::Warn])), IdMark::Warn);
    assert_eq!(id_mark(&id(true, vec![State::Warn, State::Fail])), IdMark::Fail);
}

#[test]
fn summary_counts() {
    let infos = vec![info(Some("1.0.0")), info(Some("1.0.0")), info(None)];
    let marks = vec![IdMark::Pass, IdMark::Fail, IdMark::Warn, IdMark::NotApplicable];
    let remotes = vec![
        RemoteState::Matches,
        RemoteState::Differs("x".to_string()),
        RemoteState::NoOrigin,
        RemoteState::Missing,
        RemoteState::Unchecked,
    ];
    let s = summarize(&infos, &marks, &remotes);
    assert_eq!(s.synced, Some("1.0.0".to_string()));
    assert_eq!((s.id_pass, s.id_fail), (2, 1));
    assert_eq!((s.url_ok, s.url_bad), (1, 3));
    let t = summarize(&[info(Some("1.0.0")), info(Some("2.0.0"))], &[], &[]);
    assert_eq!(t.synced, None);
    assert_eq!((t.id_pass, t.id_fail, t.url_ok, t.url_bad), (0, 0, 0, 0));
}

#[test]
fn git_columns() {
    let tree = status(Some("true".to_string()), Some("main".to_string()), None, None);
    let plain = status(None, None, None, None);
    assert_eq!(git_column(false, &tree), GitColumn::Missing);
    assert_eq!(git_column(true, &plain), GitColumn::NotRepo);
    assert_eq!(git_column(true, &tree), GitColumn::Tree);
}
