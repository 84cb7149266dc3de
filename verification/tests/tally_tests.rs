use basis::error::Error;
use basis::tally::{should_pull, Tally};

#[test]
fn a_clone_pass_counts_and_names_its_failures() {
    let mut t = Tally::new();
    t.skip();
    t.cloned("core", true, true);
    t.cloned("app", true, false);
    t.cloned("ui", false, true);
    assert_eq!((t.done, t.skipped), (2, 1));
    assert_eq!(t.failed, vec!["app".to_string(), "ui".to_string()]);
    assert_eq!(t.clone_result(), Err(Error::CloneFailed(vec!["app".to_string(), "ui".to_string()])));
}

#[test]
fn a_clean_pass_succeeds() {
    let mut t = Tally::new();
    t.cloned("core", true, true);
    assert_eq!(t.clone_result(), Ok(()));
    let mut u = Tally::new();
    u.pulled("core", true);
    u.skip();
    assert_eq!((u.done, u.skipped), (1, 1));
    assert_eq!(u.update_result(), Ok(()));
}

#[test]
fn an_update_pass_names_what_failed() {
    let mut u = Tally::new();
    u.pulled("core", false);
    assert_eq!(u.done, 0);
    assert_eq!(u.update_result(), Err(Error::UpdateFailed(vec!["core".to_string()])));
}

#[test]
fn only_cloned_work_trees_are_pulled() {
    assert!(should_pull(true, true));
    assert!(!should_pull(true, false));
    assert!(!should_pull(false, false));
}
