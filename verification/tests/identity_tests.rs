use basis::config::{Config, DisplayDef, FileDef, Lang, Manifest, Repo, TaskDef};
use basis::gpg::{extract_email, parse_uid_emails, secret_key_emails, GpgOutput, KeyLookup};
use basis::verify::{
    check, check_git_email, check_gpg_key, domain_allowed, email_on_domain, gpg_query, Check, GpgFinding, GpgQuery,
    Identity, IdentityFacts, State,
};

const LISTING: &str = "sec:u:255:22:ABCD1234ABCD1234:1700000000:::u:::scESC:::+:::23::0:\n\
fpr:::::::::0123456789ABCDEF0123456789ABCDEFABCD1234:\n\
uid:u::::1700000000::HASH::Dev Person <Dev@Corp.com>::::::::::0:\n\
uid:u::::1700000000::HASH::Dev (home) <dev@home.org>::::::::::0:\n\
uid:u::::1700000000::HASH::Dev Again <dev@corp.com>::::::::::0:\n\
ssb:u:255:18:FFFF0000FFFF0000:1700000000::::::e:::+:::23:\n";

fn domains(ds: &[&str]) -> Vec<String> {
    ds.iter().map(|d| d.to_string()).collect()
}

fn lookup(found: bool, emails: &[&str], missing: bool) -> KeyLookup {
    KeyLookup { found, emails: emails.iter().map(|e| e.to_string()).collect(), gpg_missing: missing }
}

fn repo(name: &str) -> Repo {
    Repo {
        name: name.to_string(),
        path: name.to_string(),
        lang: Lang::Rust,
        url: None,
        provides: None,
        version_file: None,
        cmake_file: None,
        email_domain: None,
        email_domains: vec![],
        actions: vec![],
    }
}

fn config(policy: Option<&str>, repos: Vec<Repo>) -> Config {
    let m = Manifest {
        constellation: "demo".to_string(),
        version: None,
        email_domain: policy.map(|p| p.to_string()),
        email_domains: vec![],
        repos,
        tasks: Vec::<TaskDef>::new(),
        displays: Vec::<DisplayDef>::new(),
        files: Vec::<FileDef>::new(),
    };
    Config::new(m, "basis.yaml").unwrap()
}

fn check_of(state: State, label: &'static str, detail: &str) -> Check {
    Check { state, label, detail: detail.to_string() }
}

#[test]
fn email_is_taken_from_angle_brackets() {
    let e = extract_email(&"Dev Person (work) <dev@corp.com>".chars().collect::<Vec<char>>());
    assert_eq!(e.map(|v| v.into_iter().collect::<String>()), Some("dev@corp.com".to_string()));
    assert_eq!(extract_email(&"no address".chars().collect::<Vec<char>>()), None);
    assert_eq!(extract_email(&"open <only".chars().collect::<Vec<char>>()), None);
}

#[test]
fn uid_emails_are_lower_case_sorted_and_unique() {
    assert_eq!(parse_uid_emails(LISTING), vec!["dev@corp.com".to_string(), "dev@home.org".to_string()]);
    assert!(parse_uid_emails("").is_empty());
}

#[test]
fn secret_key_lookup_results() {
    let k = secret_key_emails(GpgOutput::Listing(LISTING.to_string()));
    assert!(k.found && !k.gpg_missing);
    assert_eq!(k.emails.len(), 2);
    let none = secret_key_emails(GpgOutput::Listing("uid:u::::::::A <a@b.c>:\n".to_string()));
    assert!(!none.found);
    let failed = secret_key_emails(GpgOutput::Failed);
    assert!(!failed.found && !failed.gpg_missing && failed.emails.is_empty());
    let missing = secret_key_emails(GpgOutput::Unavailable);
    assert!(missing.gpg_missing && !missing.found);
}

#[test]
fn domains_are_compared_case_insensitively_after_the_last_at() {
    let ds = domains(&["corp.com"]);
    assert!(email_on_domain("Dev@CORP.com", &ds));
    assert!(email_on_domain("a@b@corp.com", &ds));
    assert!(!email_on_domain("dev@corp.com.evil", &ds));
    assert!(!email_on_domain("nobody", &ds));
    assert!(domain_allowed("corp.com", &ds));
    assert!(!domain_allowed("Corp.com", &ds));
    assert!(email_on_domain("dev@corp.com", &domains(&["Corp.com"])));
    assert!(domain_allowed("corp.com", &domains(&["CORP.COM"])));
}

#[test]
fn git_email_check() {
    let ds = domains(&["corp.com"]);
    let pass = check_git_email(Some("dev@corp.com".to_string()), &ds);
    assert_eq!((pass.state, pass.label, pass.detail.as_str()), (State::Pass, "git email", "dev@corp.com"));
    let fail = check_git_email(Some("dev@gmail.com".to_string()), &ds);
    assert_eq!(fail.state, State::Fail);
    let unset = check_git_email(None, &ds);
    assert_eq!((unset.state, unset.detail.as_str()), (State::Fail, "unset (git config user.email)"));
}

#[test]
fn gpg_query_prefers_signing_key_then_email() {
    assert!(matches!(gpg_query(Some("ssh".to_string()), Some("K".to_string()), None), GpgQuery::Ssh));
    assert!(matches!(gpg_query(Some("openpgp".to_string()), Some("K".to_string()), Some("e@x".to_string())), GpgQuery::Key(q) if q == "K"));
    assert!(matches!(gpg_query(None, None, Some("e@x".to_string())), GpgQuery::Key(q) if q == "e@x"));
    assert!(matches!(gpg_query(None, None, None), GpgQuery::NoKey));
}

#[test]
fn gpg_key_checks() {
    let ds = domains(&["corp.com"]);
    let ssh = check_gpg_key(GpgFinding::Ssh, &ds);
    assert_eq!((ssh.state, ssh.detail.as_str()), (State::Warn, "gpg.format=ssh, cannot verify key e-mail domain"));
    assert_eq!(check_gpg_key(GpgFinding::NoKey, &ds).state, State::Fail);
    let missing = check_gpg_key(GpgFinding::Looked { query: "K".to_string(), lookup: lookup(false, &[], true) }, &ds);
    assert_eq!((missing.state, missing.detail.as_str()), (State::Fail, "gpg binary not found in PATH"));
    let absent = check_gpg_key(GpgFinding::Looked { query: "K".to_string(), lookup: lookup(false, &[], false) }, &ds);
    assert_eq!(absent.detail, "K — no secret key in keyring");
    let bare = check_gpg_key(GpgFinding::Looked { query: "K".to_string(), lookup: lookup(true, &[], false) }, &ds);
    assert_eq!(bare.detail, "K — key has no e-mail user ID");
    let good = check_gpg_key(
        GpgFinding::Looked { query: "ABCD1234".to_string(), lookup: lookup(true, &["dev@corp.com", "dev@home.org"], false) },
        &ds,
    );
    assert_eq!((good.state, good.label, good.detail.as_str()), (State::Pass, "gpg key", "ABCD1234 [dev@corp.com, dev@home.org]"));
    let bad = check_gpg_key(GpgFinding::Looked { query: "K".to_string(), lookup: lookup(true, &["dev@home.org"], false) }, &ds);
    assert_eq!((bad.state, bad.detail.as_str()), (State::Fail, "K [dev@home.org]"));
}

#[test]
fn worst_and_ok() {
    let id = Identity {
        applies: true,
        domains: domains(&["corp.com"]),
        checks: vec![check_of(State::Pass, "git email", "a"), check_of(State::Warn, "gpg key", "b")],
    };
    assert_eq!(id.worst(), State::Warn);
    assert!(id.ok());
    let bad = Identity {
        applies: true,
        domains: domains(&["corp.com"]),
        checks: vec![check_of(State::Fail, "git email", "a"), check_of(State::Warn, "gpg key", "b")],
    };
    assert_eq!(bad.worst(), State::Fail);
    assert!(!bad.ok());
    let empty = Identity { applies: false, domains: vec![], checks: vec![] };
    assert_eq!(empty.worst(), State::Pass);
}

#[test]
fn check_without_policy_applies_to_nothing() {
    let cfg = config(None, vec![repo("core")]);
    let id = check(&cfg, &cfg.manifest.repos[0], IdentityFacts { git_email: None, gpg: GpgFinding::NoKey });
    assert!(!id.applies);
    assert!(id.checks.is_empty());
}

#[test]
fn check_with_policy_runs_both_checks() {
    let cfg = config(Some("Corp.com"), vec![repo("core")]);
    let facts = IdentityFacts {
        git_email: Some("dev@corp.com".to_string()),
        gpg: GpgFinding::Looked { query: "dev@corp.com".to_string(), lookup: lookup(true, &["dev@corp.com"], false) },
    };
    let id = check(&cfg, &cfg.manifest.repos[0], facts);
    assert!(id.applies);
    assert_eq!(id.domains, vec!["corp.com".to_string()]);
    assert_eq!(id.checks.len(), 2);
    assert_eq!(id.checks[0].label, "git email");
    assert_eq!(id.checks[1].label, "gpg key");
    assert!(id.ok());
}

#[test]
fn verify_summary_counts_checked_and_failed() {
    let pass = Identity { applies: true, domains: domains(&["corp.com"]), checks: vec![check_of(State::Pass, "git email", "a")] };
    let fail = Identity { applies: true, domains: domains(&["corp.com"]), checks: vec![check_of(State::Fail, "git email", "a")] };
    let none = Identity { applies: false, domains: vec![], checks: vec![] };
    let s = basis::verify::verify_summary(&[pass, fail, none]);
    assert_eq!((s.checked, s.failed), (2, 1));
}
