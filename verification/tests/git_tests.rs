use basis::git::{answer, config, normalize_url, remote_url, same_remote, status};

#[test]
fn ssh_and_https_spellings_name_the_same_repository() {
    assert!(same_remote("git@github.com:acme/core.git", "https://github.com/acme/core"));
}

#[test]
fn different_repositories_differ() {
    assert!(!same_remote("https://github.com/acme/core", "https://github.com/acme/engine"));
}

#[test]
fn normalisation_drops_scheme_userinfo_and_git_suffix() {
    assert_eq!(normalize_url("git@github.com:org/repo.git"), "github.com/org/repo");
    assert_eq!(normalize_url("https://github.com/org/repo"), "github.com/org/repo");
    assert_eq!(normalize_url("ssh://git@github.com/org/repo.git/"), "github.com/org/repo");
    assert_eq!(normalize_url("  HTTPS://GitHub.com/Org/Repo/  "), "github.com/org/repo");
}

#[test]
fn normalisation_keeps_ports_after_the_host() {
    assert_eq!(normalize_url("ssh://git@host:2222/org/repo.git"), "host/2222/org/repo");
}

#[test]
fn answers_are_trimmed() {
    assert_eq!(answer(Some("  main\n".to_string())), Some("main".to_string()));
    assert_eq!(answer(None), None);
}

#[test]
fn empty_config_values_are_unset() {
    assert_eq!(config(Some("dev@corp.com\n".to_string())), Some("dev@corp.com".to_string()));
    assert_eq!(config(Some("\n".to_string())), None);
    assert_eq!(config(None), None);
}

#[test]
fn remote_url_of_git_output() {
    assert_eq!(remote_url(Some("git@github.com:acme/core.git\n".to_string())), Some("git@github.com:acme/core.git".to_string()));
    assert_eq!(remote_url(None), None);
}

#[test]
fn status_outside_a_work_tree() {
    let st = status(None, Some("main".to_string()), None, None);
    assert!(!st.is_repo);
    assert_eq!(st.branch, "");
    assert!(!st.dirty);
    assert_eq!((st.ahead, st.behind), (0, 0));
}

#[test]
fn status_of_a_dirty_tree_with_upstream_counts() {
    let st = status(
        Some("true".to_string()),
        Some("main".to_string()),
        Some("M src/lib.rs".to_string()),
        Some("2\t5".to_string()),
    );
    assert!(st.is_repo);
    assert_eq!(st.branch, "main");
    assert!(st.dirty);
    assert_eq!(st.behind, 2);
    assert_eq!(st.ahead, 5);
}

#[test]
fn status_without_upstream_has_no_counts() {
    let st = status(Some("true".to_string()), Some("dev".to_string()), Some(String::new()), None);
    assert!(st.is_repo);
    assert!(!st.dirty);
    assert_eq!((st.ahead, st.behind), (0, 0));
}

#[test]
fn unparseable_counts_are_zero() {
    let st = status(Some("true".to_string()), None, None, Some("x y".to_string()));
    assert_eq!(st.branch, "");
    assert_eq!((st.ahead, st.behind), (0, 0));
}

#[test]
fn same_remote_is_an_equivalence_on_examples() {
    let a = "git@github.com:acme/core.git";
    let b = "https://github.com/acme/core";
    let c = "ssh://git@github.com/acme/core/";
    assert!(same_remote(a, a));
    assert_eq!(same_remote(a, b), same_remote(b, a));
    assert!(same_remote(a, b) && same_remote(b, c) && same_remote(a, c));
}

#[test]
fn scheme_and_user_are_ignored_on_examples() {
    assert!(same_remote("https://host/org/repo", "host/org/repo"));
    assert!(same_remote("ssh://host/org/repo", "host/org/repo"));
    assert!(same_remote("git@host/org/repo", "host/org/repo"));
}

#[test]
fn any_scheme_without_its_separator_is_dropped() {
    assert_eq!(normalize_url("git+ssh://host/org/repo"), normalize_url("host/org/repo"));
    assert_eq!(normalize_url("a:b://host/org/repo"), normalize_url("host/org/repo"));
    assert_eq!(normalize_url("://host/org/repo"), "host/org/repo");
}
