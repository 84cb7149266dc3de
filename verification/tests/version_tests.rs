use basis::config::{Config, DisplayDef, FileDef, Lang, Manifest, Repo, TaskDef};
use basis::error::Error;
use basis::version::{
    apply, apply_bump, bump, bump_kind, collect, consensus, highest, marker, provided_name, read_repo, set_all, sync,
    validate_semver, version_pairs, write_repo, ApplyStep, Bump, Marker, RepoFiles, VersionInfo,
};

fn repo(name: &str, lang: Lang) -> Repo {
    Repo {
        name: name.to_string(),
        path: name.to_string(),
        lang,
        url: None,
        provides: None,
        version_file: None,
        cmake_file: None,
        email_domain: None,
        email_domains: vec![],
        actions: vec![],
    }
}

fn config(repos: Vec<Repo>, version: Option<&str>) -> Config {
    let m = Manifest {
        constellation: "demo".to_string(),
        version: version.map(|v| v.to_string()),
        email_domain: None,
        email_domains: vec![],
        repos,
        tasks: Vec::<TaskDef>::new(),
        displays: Vec::<DisplayDef>::new(),
        files: Vec::<FileDef>::new(),
    };
    Config::new(m, "ws/basis.yaml").unwrap()
}

fn cargo(name: &str, version: &str) -> RepoFiles {
    RepoFiles {
        cargo: Some(format!("[package]\nname = \"{name}\" # the crate\nversion = \"{version}\"\n")),
        version_file: None,
        cmake: None,
    }
}

fn cpp(version: Option<&str>, cmake: Option<&str>) -> RepoFiles {
    RepoFiles { cargo: None, version_file: version.map(|v| v.to_string()), cmake: cmake.map(|c| c.to_string()) }
}

fn info(name: &str, version: Option<&str>) -> VersionInfo {
    VersionInfo { name: name.to_string(), lang: Lang::Rust, version: version.map(|v| v.to_string()) }
}

fn after(files: &RepoFiles, step: &ApplyStep) -> RepoFiles {
    match step {
        ApplyStep::Already => RepoFiles { cargo: files.cargo.clone(), version_file: files.version_file.clone(), cmake: files.cmake.clone() },
        ApplyStep::Write { write, .. } => RepoFiles {
            cargo: write.cargo.clone().or(files.cargo.clone()),
            version_file: write.version_file.clone().or(files.version_file.clone()),
            cmake: write.cmake.clone().or(files.cmake.clone()),
        },
    }
}

#[test]
fn semver_is_validated() {
    assert!(validate_semver("1.2.3").is_ok());
    assert!(validate_semver("1.2.3-rc.1+build").is_ok());
    assert_eq!(validate_semver("1.2"), Err(Error::InvalidSemver("1.2".to_string())));
}

#[test]
fn minor_bump_of_one_zero_zero() {
    assert_eq!(apply_bump("1.0.0", &Bump::Minor), Ok("1.1.0".to_string()));
}

#[test]
fn bumps_reset_lower_numbers_and_drop_metadata() {
    assert_eq!(apply_bump("1.2.3", &Bump::Major), Ok("2.0.0".to_string()));
    assert_eq!(apply_bump("1.2.3-rc.1+b7", &Bump::Patch), Ok("1.2.4".to_string()));
    assert_eq!(apply_bump("0.9.9", &Bump::Minor), Ok("0.10.0".to_string()));
    assert_eq!(apply_bump("1.2.3", &Bump::To("4.0.0".to_string())), Ok("4.0.0".to_string()));
}

#[test]
fn apply_bump_refusals() {
    assert_eq!(apply_bump("abc", &Bump::Patch), Err(Error::CurrentNotSemver("abc".to_string())));
    assert_eq!(apply_bump("1.0.0", &Bump::To("x".to_string())), Err(Error::InvalidSemver("x".to_string())));
    let top = format!("1.2.{}", u64::MAX);
    assert_eq!(apply_bump(&top, &Bump::Patch), Err(Error::VersionOverflow(top.clone())));
}

#[test]
fn bump_kind_prefers_to_then_major_then_minor() {
    assert!(matches!(bump_kind(true, true, Some("2.0.0".to_string())), Bump::To(v) if v == "2.0.0"));
    assert!(matches!(bump_kind(true, true, None), Bump::Major));
    assert!(matches!(bump_kind(false, true, None), Bump::Minor));
    assert!(matches!(bump_kind(false, false, None), Bump::Patch));
}

#[test]
fn consensus_and_highest() {
    let same = vec![info("a", Some("1.0.0")), info("b", None), info("c", Some("1.0.0"))];
    assert_eq!(consensus(&same), Some("1.0.0".to_string()));
    let differ = vec![info("a", Some("1.0.0")), info("b", Some("1.10.0")), info("c", Some("1.9.0")), info("d", Some("junk"))];
    assert_eq!(consensus(&differ), None);
    assert_eq!(highest(&differ), Some("1.10.0".to_string()));
    assert_eq!(consensus(&[info("a", None)]), None);
    assert_eq!(highest(&[info("a", Some("junk"))]), None);
}

#[test]
fn markers_and_pairs() {
    let t = Some("1.0.0".to_string());
    assert_eq!(marker(&Some("1.0.0".to_string()), &t), Marker::Agrees);
    assert_eq!(marker(&Some("0.9.0".to_string()), &t), Marker::Differs);
    assert_eq!(marker(&None, &t), Marker::Unknown);
    assert_eq!(marker(&Some("1.0.0".to_string()), &None), Marker::Unknown);
    let infos = vec![info("a", Some("1.0.0")), info("b", None), info("c", Some("2.0.0"))];
    assert_eq!(version_pairs(&infos), vec!["a=1.0.0".to_string(), "c=2.0.0".to_string()]);
}

#[test]
fn rust_version_is_read_from_cargo_toml() {
    let cfg = config(vec![repo("core", Lang::Rust)], None);
    assert_eq!(read_repo(&cfg, &cfg.manifest.repos[0], &cargo("core", "1.2.3")), Ok(Some("1.2.3".to_string())));
    let none = RepoFiles { cargo: None, version_file: None, cmake: None };
    assert_eq!(read_repo(&cfg, &cfg.manifest.repos[0], &none), Ok(None));
    let broken = RepoFiles { cargo: Some("[package\n".to_string()), version_file: None, cmake: None };
    assert_eq!(read_repo(&cfg, &cfg.manifest.repos[0], &broken), Err(Error::TomlParse("ws/core/Cargo.toml".to_string())));
}

#[test]
fn cpp_version_prefers_the_version_file() {
    let cfg = config(vec![repo("engine", Lang::Cpp)], None);
    let r = &cfg.manifest.repos[0];
    let cm = "cmake_minimum_required(VERSION 3.20)\nproject(engine VERSION 2.4.1 LANGUAGES CXX)\n";
    assert_eq!(read_repo(&cfg, r, &cpp(Some(" 3.0.0\n"), Some(cm))), Ok(Some("3.0.0".to_string())));
    assert_eq!(read_repo(&cfg, r, &cpp(Some("  \n"), Some(cm))), Ok(Some("2.4.1".to_string())));
    assert_eq!(read_repo(&cfg, r, &cpp(None, Some("project(x)\n"))), Ok(None));
}

#[test]
fn rust_write_preserves_formatting_and_reads_back() {
    let cfg = config(vec![repo("core", Lang::Rust)], None);
    let r = &cfg.manifest.repos[0];
    let files = cargo("core", "1.0.0");
    let w = write_repo(&cfg, r, &files, "1.1.0").unwrap();
    let text = w.cargo.clone().unwrap();
    assert!(text.contains("# the crate"));
    assert!(text.contains("version = \"1.1.0\""));
    assert!(w.version_file.is_none() && w.cmake.is_none());
    let again = RepoFiles { cargo: w.cargo, version_file: None, cmake: None };
    assert_eq!(read_repo(&cfg, r, &again), Ok(Some("1.1.0".to_string())));
}

#[test]
fn rust_write_errors() {
    let cfg = config(vec![repo("core", Lang::Rust)], None);
    let r = &cfg.manifest.repos[0];
    let none = RepoFiles { cargo: None, version_file: None, cmake: None };
    assert_eq!(write_repo(&cfg, r, &none, "1.0.0").unwrap_err(), Error::NoCargoToml("ws/core".to_string()));
    let noversion = RepoFiles { cargo: Some("[package]\nname = \"core\"\n".to_string()), version_file: None, cmake: None };
    assert_eq!(write_repo(&cfg, r, &noversion, "1.0.0").unwrap_err(), Error::NoPackageVersion("ws/core/Cargo.toml".to_string()));
}

#[test]
fn cpp_write_patches_the_project_version() {
    let cfg = config(vec![repo("engine", Lang::Cpp)], None);
    let r = &cfg.manifest.repos[0];
    let cm = "project(engine\n  VERSION 2.4.1\n  LANGUAGES CXX)\n";
    let w = write_repo(&cfg, r, &cpp(Some("2.4.1\n"), Some(cm)), "2.5.0").unwrap();
    assert_eq!(w.version_file, Some("2.5.0\n".to_string()));
    assert_eq!(w.cmake, Some("project(engine\n  VERSION 2.5.0\n  LANGUAGES CXX)\n".to_string()));
    let plain = write_repo(&cfg, r, &cpp(None, Some("project(x)\n")), "1.0.0").unwrap();
    assert_eq!(plain.version_file, Some("1.0.0\n".to_string()));
    assert_eq!(plain.cmake, None);
}

#[test]
fn collect_reads_every_repository() {
    let cfg = config(vec![repo("core", Lang::Rust), repo("engine", Lang::Cpp)], None);
    let files = vec![cargo("core", "1.0.0"), cpp(None, None)];
    let infos = collect(&cfg, &files);
    assert_eq!(infos.len(), 2);
    assert_eq!(infos[0].name, "core");
    assert_eq!(infos[0].version, Some("1.0.0".to_string()));
    assert_eq!(infos[1].lang, Lang::Cpp);
    assert_eq!(infos[1].version, None);
}

#[test]
fn apply_skips_repositories_already_at_the_version() {
    let cfg = config(vec![repo("core", Lang::Rust), repo("engine", Lang::Cpp)], None);
    let files = vec![cargo("core", "1.2.0"), cpp(Some("1.0.0\n"), None)];
    let plan = apply(&cfg, &files, "1.2.0");
    assert!(plan.error.is_none());
    assert_eq!(plan.steps.len(), 2);
    assert!(matches!(plan.steps[0], ApplyStep::Already));
    match &plan.steps[1] {
        ApplyStep::Write { before, write } => {
            assert_eq!(before, &Some("1.0.0".to_string()));
            assert_eq!(write.version_file, Some("1.2.0\n".to_string()));
        },
        ApplyStep::Already => panic!("engine must be written"),
    }
}

#[test]
fn apply_stops_at_the_first_refused_write() {
    let cfg = config(vec![repo("engine", Lang::Cpp), repo("core", Lang::Rust), repo("app", Lang::Rust)], None);
    let files = vec![cpp(None, None), RepoFiles { cargo: None, version_file: None, cmake: None }, cargo("app", "0.1.0")];
    let plan = apply(&cfg, &files, "1.0.0");
    assert_eq!(plan.steps.len(), 1);
    assert_eq!(plan.error, Some(Error::NoCargoToml("ws/core".to_string())));
}

#[test]
fn set_all_synchronises_every_repository() {
    let cfg = config(vec![repo("core", Lang::Rust), repo("engine", Lang::Cpp)], None);
    let files = vec![cargo("core", "1.0.0"), cpp(Some("0.3.0"), None)];
    let plan = set_all(&cfg, &files, "2.0.0").unwrap();
    assert!(plan.error.is_none());
    let now: Vec<RepoFiles> = files.iter().zip(plan.steps.iter()).map(|(f, s)| after(f, s)).collect();
    let infos = collect(&cfg, &now);
    assert_eq!(consensus(&infos), Some("2.0.0".to_string()));
}

#[test]
fn set_all_refuses_a_non_semver_version() {
    let cfg = config(vec![repo("core", Lang::Rust)], None);
    let files = vec![cargo("core", "1.0.0")];
    assert_eq!(set_all(&cfg, &files, "v2").unwrap_err(), Error::InvalidSemver("v2".to_string()));
}

#[test]
fn sync_target_prefers_to_then_manifest_then_highest() {
    let files = vec![cargo("core", "1.0.0"), cargo("app", "1.4.0")];
    let cfg = config(vec![repo("core", Lang::Rust), repo("app", Lang::Rust)], Some("1.2.0"));
    let (t, _) = sync(&cfg, &files, Some("3.0.0".to_string())).unwrap();
    assert_eq!(t, "3.0.0");
    let (t, _) = sync(&cfg, &files, None).unwrap();
    assert_eq!(t, "1.2.0");
    let cfg = config(vec![repo("core", Lang::Rust), repo("app", Lang::Rust)], None);
    let (t, plan) = sync(&cfg, &files, None).unwrap();
    assert_eq!(t, "1.4.0");
    assert!(matches!(plan.steps[1], ApplyStep::Already));
}

#[test]
fn sync_errors() {
    let cfg = config(vec![repo("engine", Lang::Cpp)], None);
    let files = vec![cpp(None, None)];
    assert_eq!(sync(&cfg, &files, None).unwrap_err(), Error::NoSyncTarget);
    assert_eq!(sync(&cfg, &files, Some("x.y".to_string())).unwrap_err(), Error::InvalidSemver("x.y".to_string()));
}

#[test]
fn provided_name_prefers_provides_then_crate_name() {
    let mut r0 = repo("engine", Lang::Cpp);
    r0.provides = Some("eng".to_string());
    let cfg = config(vec![r0, repo("core", Lang::Rust), repo("tool", Lang::Cpp)], None);
    let none = RepoFiles { cargo: None, version_file: None, cmake: None };
    assert_eq!(provided_name(&cfg, &cfg.manifest.repos[0], &none), "eng");
    assert_eq!(provided_name(&cfg, &cfg.manifest.repos[1], &cargo("core-lib", "1.0.0")), "core-lib");
    assert_eq!(provided_name(&cfg, &cfg.manifest.repos[1], &none), "core");
    assert_eq!(provided_name(&cfg, &cfg.manifest.repos[2], &none), "tool");
}

#[test]
fn bump_propagates_to_rust_and_cpp_dependents() {
    let cfg = config(vec![repo("core", Lang::Rust), repo("app", Lang::Rust), repo("engine", Lang::Cpp)], None);
    let app = "[package]\nname = \"app\"\nversion = \"0.1.0\"\n\n[dependencies]\ncore = { path = \"../core\", version = \"1.0.0\", features = [\"x\"] }\n";
    let engine = "project(engine VERSION 0.2.0)\nfind_package(core 1.0.0 REQUIRED)\n";
    let files = vec![
        cargo("core", "1.0.0"),
        RepoFiles { cargo: Some(app.to_string()), version_file: None, cmake: None },
        cpp(Some("0.2.0"), Some(engine)),
    ];
    let plan = bump(&cfg, &files, "core", &Bump::Minor).unwrap();
    assert_eq!(plan.current, "1.0.0");
    assert_eq!(plan.new_version, "1.1.0");
    assert_eq!(plan.dep_name, "core");
    assert!(plan.error.is_none());
    assert!(plan.target_write.as_ref().unwrap().cargo.as_ref().unwrap().contains("version = \"1.1.0\""));
    assert_eq!(plan.dependents.len(), 2);
    assert_eq!(plan.dependents[0].index, 1);
    let app_new = plan.dependents[0].write.cargo.clone().unwrap();
    assert!(app_new.contains("path = \"../core\""));
    assert!(app_new.contains("version = \"1.1.0\""));
    assert!(app_new.contains("features = [\"x\"]"));
    assert_eq!(plan.dependents[1].index, 2);
    assert_eq!(plan.dependents[1].write.cmake, Some("project(engine VERSION 0.2.0)\nfind_package(core 1.1.0 REQUIRED)\n".to_string()));
}

#[test]
fn bump_follows_package_renames() {
    let cfg = config(vec![repo("core", Lang::Rust), repo("app", Lang::Rust)], None);
    let app = "[package]\nname = \"app\"\nversion = \"0.1.0\"\n\n[dev-dependencies]\nc = { package = \"core\", version = \"1.0.0\" }\nother = \"1.0.0\"\n";
    let files = vec![cargo("core", "1.0.0"), RepoFiles { cargo: Some(app.to_string()), version_file: None, cmake: None }];
    let plan = bump(&cfg, &files, "core", &Bump::Major).unwrap();
    assert_eq!(plan.new_version, "2.0.0");
    assert_eq!(plan.dependents.len(), 1);
    let text = plan.dependents[0].write.cargo.clone().unwrap();
    assert!(text.contains("c = { package = \"core\", version = \"2.0.0\" }"));
    assert!(text.contains("other = \"1.0.0\""));
}

#[test]
fn bump_refusals() {
    let cfg = config(vec![repo("core", Lang::Rust), repo("engine", Lang::Cpp)], None);
    let files = vec![cargo("core", "1.0.0"), cpp(None, None)];
    assert_eq!(bump(&cfg, &files, "nope", &Bump::Patch).unwrap_err(), Error::UnknownRepo("nope".to_string()));
    assert_eq!(bump(&cfg, &files, "engine", &Bump::Patch).unwrap_err(), Error::NoReadableVersion("engine".to_string()));
}

#[test]
fn repinning_twice_changes_nothing() {
    let text = "find_package(core 1.0 REQUIRED)\nfind_package( core\t0.9)\nfind_package(corelib 1.0)\n";
    let (once, n1) = basis::version::cpp::repin(text, "core", "2.0.0-rc.1");
    assert_eq!(n1, 2);
    assert_eq!(once, "find_package(core 2.0.0-rc.1 REQUIRED)\nfind_package( core\t2.0.0-rc.1)\nfind_package(corelib 1.0)\n");
    let (twice, n2) = basis::version::cpp::repin(&once, "core", "2.0.0-rc.1");
    assert_eq!(n2, 0);
    assert_eq!(twice, once);
}

#[test]
fn cpp_dependency_update_reports_no_change_for_absent_files() {
    assert_eq!(basis::version::cpp::update_dependency(&None, "core", "1.0.0"), (0, None));
    let same = Some("find_package(core 1.0.0)\n".to_string());
    assert_eq!(basis::version::cpp::update_dependency(&same, "core", "1.0.0"), (0, None));
}

#[test]
fn rust_dependency_update_keeps_other_keys_and_is_idempotent() {
    let text = "[package]\nname = \"app\"\nversion = \"0.1.0\"\n\n[dependencies]\nmycore = { package = \"core\", version = \"1.0.0\", path = \"../core\" }\n\n[dev-dependencies]\ncore = { version = \"1.1.0\" }\n\n[build-dependencies]\ncore = \"1.0.0\"\n";
    let first = basis::version::rust::update_dependency("app", &Some(text.to_string()), "core", "1.1.0").unwrap();
    assert_eq!(first.0, 2);
    let new_text = first.1.unwrap();
    assert!(new_text.contains("mycore = { package = \"core\", version = \"1.1.0\", path = \"../core\" }"));
    assert!(new_text.contains("core = { version = \"1.1.0\" }"));
    assert!(new_text.contains("core = \"1.1.0\""));
    assert!(new_text.contains("name = \"app\""));
    let second = basis::version::rust::update_dependency("app", &Some(new_text), "core", "1.1.0").unwrap();
    assert_eq!(second, (0, None));
}

#[test]
fn rust_dependency_update_counts_stale_entries_of_the_file_read() {
    let text = "# workspace member\n[package]\nname = \"app\"\nversion = \"0.3.0\"\n\n[features]\nfast = []\n\n[dependencies]\ncore = { version = \"1.0.0\", path = \"../core\", features = [\"x\"] }\nother = \"2.0.0\"\n\n[dev-dependencies]\ncore = \"1.1.0\"\n\n[build-dependencies]\nk = { package = \"core\", version = \"0.9.0\" }\n";
    let (n, written) = basis::version::rust::update_dependency("app", &Some(text.to_string()), "core", "1.1.0").unwrap();
    // Two entries named another version; the dev-dependency already had it.
    assert_eq!(n, 2);
    let new_text = written.unwrap();
    assert!(new_text.contains("core = { version = \"1.1.0\", path = \"../core\", features = [\"x\"] }"));
    assert!(new_text.contains("k = { package = \"core\", version = \"1.1.0\" }"));
    assert!(new_text.contains("other = \"2.0.0\""));
    assert!(new_text.contains("[features]\nfast = []"));
    assert!(new_text.contains("# workspace member"));
    assert_eq!(basis::version::rust::read_version("app", &Some(new_text.clone())).unwrap(), Some("0.3.0".to_string()));
    assert_eq!(basis::version::rust::read_package_name("app", &Some(new_text)).unwrap(), Some("app".to_string()));
}

#[test]
fn rust_dependency_update_without_a_manifest_or_with_a_broken_one() {
    assert_eq!(basis::version::rust::update_dependency("app", &None, "core", "1.1.0").unwrap(), (0, None));
    let err = basis::version::rust::update_dependency("app", &Some("[dependencies\n".to_string()), "core", "1.1.0").unwrap_err();
    assert_eq!(err, Error::TomlParse(basis::config::join_path("app", "Cargo.toml")));
}

#[test]
fn rust_version_write_keeps_the_other_tables() {
    let text = "[package]\nname = \"core\"\nversion = \"1.0.0\" # current\nedition = \"2021\"\nauthors = [\"me\"]\n\n[dependencies]\nserde = \"1\"\n";
    let new_text = basis::version::rust::write_version("core", &Some(text.to_string()), "1.2.0").unwrap();
    assert!(new_text.contains("[dependencies]\nserde = \"1\""));
    assert!(new_text.contains("edition = \"2021\""));
    assert!(new_text.contains("authors = [\"me\"]"));
    assert_eq!(basis::version::rust::read_version("core", &Some(new_text)).unwrap(), Some("1.2.0".to_string()));
}

#[test]
fn rust_version_write_into_an_inline_package_table() {
    let text = "package = { name = \"core\", version = \"1.0.0\" }\n";
    let new_text = basis::version::rust::write_version("core", &Some(text.to_string()), "1.0.1").unwrap();
    assert_eq!(basis::version::rust::read_version("core", &Some(new_text.clone())).unwrap(), Some("1.0.1".to_string()));
    assert_eq!(basis::version::rust::read_package_name("core", &Some(new_text)).unwrap(), Some("core".to_string()));
    let none = "package = { name = \"core\" }\n";
    assert!(matches!(basis::version::rust::write_version("core", &Some(none.to_string()), "1.0.1"), Err(Error::NoPackageVersion(_))));
}
