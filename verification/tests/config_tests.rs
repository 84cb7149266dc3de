use basis::config::{join_path, ActionDef, Config, DisplayDef, FileDef, Lang, Manifest, Repo, TaskDef};
use basis::error::Error;

fn repo(name: &str, path: &str, lang: Lang) -> Repo {
    Repo {
        name: name.to_string(),
        path: path.to_string(),
        lang,
        url: None,
        provides: None,
        version_file: None,
        cmake_file: None,
        email_domain: None,
        email_domains: vec![],
        actions: vec![],
    }
}

fn manifest(repos: Vec<Repo>) -> Manifest {
    Manifest {
        constellation: "demo".to_string(),
        version: None,
        email_domain: None,
        email_domains: vec![],
        repos,
        tasks: Vec::<TaskDef>::new(),
        displays: Vec::<DisplayDef>::new(),
        files: Vec::<FileDef>::new(),
    }
}

#[test]
fn base_dir_is_the_manifest_parent() {
    let cfg = Config::new(manifest(vec![repo("core", "core", Lang::Rust)]), "work/demo/basis.yaml").unwrap();
    assert_eq!(cfg.base_dir, "work/demo");
}

#[test]
fn bare_manifest_name_lives_in_dot() {
    let cfg = Config::new(manifest(vec![]), "basis.yaml").unwrap();
    assert_eq!(cfg.base_dir, ".");
}

#[test]
fn duplicate_repository_names_are_refused() {
    let m = manifest(vec![
        repo("core", "core", Lang::Rust),
        repo("app", "app", Lang::Rust),
        repo("core", "core2", Lang::Cpp),
    ]);
    let err = Config::new(m, "basis.yaml").unwrap_err();
    assert_eq!(err, Error::DuplicateRepo("core".to_string()));
}

#[test]
fn repo_dir_joins_the_path_onto_the_base() {
    let cfg = Config::new(manifest(vec![repo("core", "libs/core", Lang::Rust)]), "demo/basis.yaml").unwrap();
    assert_eq!(cfg.repo_dir(&cfg.manifest.repos[0]), "demo/libs/core");
}

#[test]
fn join_path_follows_unix_rules() {
    assert_eq!(join_path("a", "b"), "a/b");
    assert_eq!(join_path("a/", "b"), "a/b");
    assert_eq!(join_path("", "b"), "b");
    assert_eq!(join_path("a", "/abs"), "/abs");
}

#[test]
fn empty_selection_takes_every_repo_in_order() {
    let cfg = Config::new(
        manifest(vec![repo("core", "core", Lang::Rust), repo("engine", "engine", Lang::Cpp)]),
        "basis.yaml",
    )
    .unwrap();
    let sel = cfg.select(&[]).unwrap();
    let names: Vec<&str> = sel.iter().map(|r| r.name.as_str()).collect();
    assert_eq!(names, vec!["core", "engine"]);
}

#[test]
fn selection_keeps_manifest_order() {
    let cfg = Config::new(
        manifest(vec![repo("core", "core", Lang::Rust), repo("engine", "engine", Lang::Cpp)]),
        "basis.yaml",
    )
    .unwrap();
    let sel = cfg.select(&["engine".to_string(), "core".to_string(), "engine".to_string()]).unwrap();
    let names: Vec<&str> = sel.iter().map(|r| r.name.as_str()).collect();
    assert_eq!(names, vec!["core", "engine"]);
    let one = cfg.select(&["engine".to_string()]).unwrap();
    assert_eq!(one.len(), 1);
    assert_eq!(one[0].name, "engine");
}

#[test]
fn unknown_repository_in_selection_is_refused() {
    let cfg = Config::new(manifest(vec![repo("core", "core", Lang::Rust)]), "basis.yaml").unwrap();
    let err = cfg.select(&["core".to_string(), "nope".to_string(), "other".to_string()]).unwrap_err();
    assert_eq!(err, Error::UnknownRepo("nope".to_string()));
}

#[test]
fn find_repo_by_name() {
    let cfg = Config::new(manifest(vec![repo("core", "core", Lang::Rust)]), "basis.yaml").unwrap();
    assert_eq!(cfg.find_repo("core").unwrap().path, "core");
    assert_eq!(cfg.find_repo("x").unwrap_err(), Error::UnknownRepo("x".to_string()));
}

#[test]
fn task_display_and_layout() {
    let mut m = manifest(vec![]);
    m.tasks.push(TaskDef { name: "run".to_string(), display: Some("services".to_string()), layout: None });
    let cfg = Config::new(m, "basis.yaml").unwrap();
    assert_eq!(cfg.task_display("run"), Some("services".to_string()));
    assert_eq!(cfg.task_layout("run"), None);
    assert_eq!(cfg.task_display("build"), None);
}

#[test]
fn repo_policy_overrides_manifest_policy_in_lower_case() {
    let mut m = manifest(vec![repo("core", "core", Lang::Rust), repo("app", "app", Lang::Rust)]);
    m.email_domain = Some("Corp.com".to_string());
    m.repos[1].email_domains = vec!["Other.ORG".to_string(), "x.io".to_string()];
    let cfg = Config::new(m, "basis.yaml").unwrap();
    assert_eq!(cfg.allowed_domains(&cfg.manifest.repos[0]), vec!["corp.com".to_string()]);
    assert_eq!(cfg.allowed_domains(&cfg.manifest.repos[1]), vec!["other.org".to_string(), "x.io".to_string()]);
}

#[test]
fn lang_names() {
    assert_eq!(Lang::Rust.name(), "rust");
    assert_eq!(Lang::Cpp.name(), "cpp");
}

#[test]
fn repo_actions_are_found_by_name() {
    let mut r = repo("core", "core", Lang::Rust);
    r.actions.push(ActionDef { name: "build".to_string(), commands: vec!["cargo build".to_string()] });
    assert_eq!(r.find_action("build"), Some(0));
    assert_eq!(r.action("build"), Some(&vec!["cargo build".to_string()]));
    assert_eq!(r.action("clean"), None);
}
