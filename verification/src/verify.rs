//! Identity verification: whether a repository's git e-mail and signing key
//! are on an allowed e-mail domain.
use vstd::prelude::*;
use vstd::string::*;

use crate::config::{Config, Repo, domain_policy};
use crate::gpg::KeyLookup;
use crate::text::{
    chars_of, join_with, joined_seqs, last_index_of_char, lemma_rfind_char, lower_chars, lowercase,
    rfind_char, slice_chars, string_of, to_lower, views_of,
};

verus! {

/// Outcome of a single identity check.
#[derive(Debug, Clone, Copy, PartialEq, Eq, Structural)]
pub enum State {
    Pass,
    /// Unverifiable, but not a policy violation (e.g. SSH-signed commits).
    Warn,
    Fail,
}

/// One named check (git e-mail, gpg key, ...) with a human-readable detail.
#[derive(Debug)]
pub struct Check {
    pub state: State,
    pub label: &'static str,
    pub detail: String,
}

impl Check {
    /// State, label and detail.
    pub open spec fn parts(&self) -> (State, Seq<char>, Seq<char>) {
        (self.state, self.label@, self.detail@)
    }
}

/// The identity outcome for a repository.
#[derive(Debug)]
pub struct Identity {
    /// Whether an e-mail-domain policy applies to this repo at all.
    pub applies: bool,
    pub domains: Vec<String>,
    pub checks: Vec<Check>,
}

/// The most severe state among `states` (Pass < Warn < Fail); Pass when empty.
pub open spec fn worst_of(states: Seq<State>) -> State {
    if exists|i: int| 0 <= i < states.len() && states[i] == State::Fail {
        State::Fail
    } else if exists|i: int| 0 <= i < states.len() && states[i] == State::Warn {
        State::Warn
    } else {
        State::Pass
    }
}

impl Identity {
    /// The states of the checks, in order.
    pub open spec fn states(&self) -> Seq<State> {
        self.checks@.map_values(|c: Check| c.state)
    }

    /// The most severe state among the checks (Pass < Warn < Fail).
    pub fn worst(&self) -> (r: State)
        ensures
            r == worst_of(self.states()),
    {
        let mut any_fail = false;
        let mut any_warn = false;
        let mut i: usize = 0;
        while i < self.checks.len()
            invariant
                i <= self.checks@.len(),
                any_fail == exists|k: int| 0 <= k < i && self.checks@[k].state == State::Fail,
                any_warn == exists|k: int| 0 <= k < i && self.checks@[k].state == State::Warn,
            decreases self.checks@.len() - i,
        {
            if self.checks[i].state == State::Fail {
                any_fail = true;
            }
            if self.checks[i].state == State::Warn {
                any_warn = true;
            }
            i += 1;
        }
        proof {
            let st = self.states();
            assert(any_fail == exists|k: int| 0 <= k < st.len() && st[k] == State::Fail) by {
                if any_fail {
                    let k = choose|k: int| 0 <= k < i && self.checks@[k].state == State::Fail;
                    assert(st[k] == State::Fail);
                }
            }
            assert(any_warn == exists|k: int| 0 <= k < st.len() && st[k] == State::Warn) by {
                if any_warn {
                    let k = choose|k: int| 0 <= k < i && self.checks@[k].state == State::Warn;
                    assert(st[k] == State::Warn);
                }
            }
        }
        if any_fail {
            State::Fail
        } else if any_warn {
            State::Warn
        } else {
            State::Pass
        }
    }

    /// True if no check failed (warnings are tolerated).
    pub fn ok(&self) -> (r: bool)
        ensures
            r == (worst_of(self.states()) != State::Fail),
            r == forall|i: int| 0 <= i < self.checks@.len() ==> self.checks@[i].state != State::Fail,
    {
        let w = self.worst();
        proof {
            let st = self.states();
            if w == State::Fail {
                let k = choose|k: int| 0 <= k < st.len() && st[k] == State::Fail;
                assert(self.checks@[k].state == State::Fail);
            } else {
                assert forall|i: int| 0 <= i < self.checks@.len() implies self.checks@[i].state != State::Fail by {
                    assert(st[i] == self.checks@[i].state);
                }
            }
        }
        w != State::Fail
    }
}

/// The allowed domains in lower case.
pub open spec fn lowered(domains: Seq<Seq<char>>) -> Seq<Seq<char>> {
    domains.map_values(|d: Seq<char>| lowercase(d))
}

/// Whether the domain of `email` (after its last `@`) is one of `domains`,
/// both compared in lower case.
pub open spec fn on_domain(email: Seq<char>, domains: Seq<Seq<char>>) -> bool {
    match rfind_char(email, '@') {
        Some(i) => lowered(domains).contains(lowercase(email.skip(i + 1))),
        None => false,
    }
}

/// Whether `domain`, already in lower case, is one of the allowed domains
/// taken in lower case.
pub fn domain_allowed(domain: &str, domains: &[String]) -> (r: bool)
    ensures
        r == lowered(views_of(domains@)).contains(domain@),
{
    let target = String::from_str(domain);
    let ghost low = lowered(views_of(domains@));
    let mut i: usize = 0;
    while i < domains.len()
        invariant
            i <= domains@.len(),
            target@ == domain@,
            low == lowered(views_of(domains@)),
            forall|k: int| 0 <= k < i ==> low[k] != domain@,
        decreases domains@.len() - i,
    {
        let allowed = to_lower(domains[i].as_str());
        assert(low[i as int] == lowercase(domains@[i as int]@));
        if allowed == target {
            assert(low[i as int] == domain@);
            return true;
        }
        i += 1;
    }
    false
}

/// Whether `email`'s domain is one of the allowed domains (case-insensitive).
pub fn email_on_domain(email: &str, domains: &[String]) -> (r: bool)
    ensures
        r == on_domain(email@, views_of(domains@)),
{
    let chars = chars_of(email);
    proof { lemma_rfind_char(chars@, '@'); }
    match last_index_of_char(chars.as_slice(), '@') {
        Some(i) => {
            let d = slice_chars(chars.as_slice(), i + 1, chars.len());
            assert(d@ =~= email@.skip(i + 1));
            let low = lower_chars(d.as_slice());
            let ls = string_of(low.as_slice());
            domain_allowed(ls.as_str(), domains)
        },
        None => false,
    }
}

/// The git e-mail check: passes when `user.email` is set and on an allowed
/// domain; the detail is the e-mail, or a note that it is unset.
pub open spec fn git_email_check(email: Option<Seq<char>>, domains: Seq<Seq<char>>) -> (State, Seq<char>, Seq<char>) {
    match email {
        Some(e) => (if on_domain(e, domains) { State::Pass } else { State::Fail }, "git email"@, e),
        None => (State::Fail, "git email"@, "unset (git config user.email)"@),
    }
}

/// Checks the git `user.email` (`None` when unset) against the domains.
pub fn check_git_email(email: Option<String>, domains: &[String]) -> (r: Check)
    ensures
        r.parts() == git_email_check(crate::git::opt_view(email), views_of(domains@)),
{
    match email {
        Some(email) => {
            let state = if email_on_domain(email.as_str(), domains) { State::Pass } else { State::Fail };
            Check { state, label: "git email", detail: email }
        },
        None => Check {
            state: State::Fail,
            label: "git email",
            detail: String::from_str("unset (git config user.email)"),
        },
    }
}

/// How the signing key is to be looked up, from git's `gpg.format`,
/// `user.signingkey` and `user.email`.
#[derive(Debug)]
pub enum GpgQuery {
    /// SSH signing: the key carries no e-mail.
    Ssh,
    /// Neither a signing key nor an e-mail to locate a key.
    NoKey,
    /// Look the key up by this id, fingerprint or e-mail.
    Key(String),
}

/// Decides how to look up the signing key: SSH-format signing cannot be
/// checked; otherwise the configured signing key, falling back to the git
/// e-mail.
pub fn gpg_query(format: Option<String>, signing_key: Option<String>, email: Option<String>) -> (r: GpgQuery)
    ensures
        (match format { Some(f) => f@ == "ssh"@, None => false }) ==> r is Ssh,
        !(match format { Some(f) => f@ == "ssh"@, None => false }) ==> match (signing_key, email) {
            (Some(k), _) => r matches GpgQuery::Key(q) && q == k,
            (None, Some(e)) => r matches GpgQuery::Key(q) && q == e,
            (None, None) => r is NoKey,
        },
{
    let ssh = String::from_str("ssh");
    let is_ssh = match &format {
        Some(f) => *f == ssh,
        None => false,
    };
    if is_ssh {
        return GpgQuery::Ssh;
    }
    match signing_key {
        Some(k) => GpgQuery::Key(k),
        None => match email {
            Some(e) => GpgQuery::Key(e),
            None => GpgQuery::NoKey,
        },
    }
}

/// The signing-key lookup that was made.
#[derive(Debug)]
pub enum GpgFinding {
    /// SSH signing: nothing was looked up.
    Ssh,
    /// There was nothing to look the key up by.
    NoKey,
    /// The key was looked up by `query`, with this result.
    Looked { query: String, lookup: KeyLookup },
}

/// The signing-key check: a warning for SSH signing; a failure when there is
/// no key to look up, `gpg` is missing, no secret key was found or it has
/// no e-mail; otherwise a pass exactly when one of its e-mails is on an
/// allowed domain.
pub open spec fn gpg_key_check(finding: GpgFinding, domains: Seq<Seq<char>>) -> (State, Seq<char>, Seq<char>) {
    match finding {
        GpgFinding::Ssh => (State::Warn, "gpg key"@, "gpg.format=ssh, cannot verify key e-mail domain"@),
        GpgFinding::NoKey => (State::Fail, "gpg key"@, "no user.signingkey or user.email to locate a key"@),
        GpgFinding::Looked { query, lookup } => {
            let q = query@;
            let emails = views_of(lookup.emails@);
            let listed = q + " ["@ + joined_seqs(emails, ", "@) + "]"@;
            if lookup.gpg_missing {
                (State::Fail, "gpg key"@, "gpg binary not found in PATH"@)
            } else if !lookup.found {
                (State::Fail, "gpg key"@, q + " — no secret key in keyring"@)
            } else if emails.len() == 0 {
                (State::Fail, "gpg key"@, q + " — key has no e-mail user ID"@)
            } else if exists|i: int| 0 <= i < emails.len() && on_domain(#[trigger] emails[i], domains) {
                (State::Pass, "gpg key"@, listed)
            } else {
                (State::Fail, "gpg key"@, listed)
            }
        },
    }
}

/// The signing key was looked up with `gpg` present, found, and one of its
/// e-mails, at whatever position, is on an allowed domain.
pub open spec fn key_on_domain(finding: GpgFinding, domains: Seq<Seq<char>>) -> bool {
    &&& finding is Looked
    &&& !finding->lookup.gpg_missing
    &&& finding->lookup.found
    &&& exists|i: int| 0 <= i < finding->lookup.emails@.len()
        && on_domain(#[trigger] finding->lookup.emails@[i]@, domains)
}

/// The signing-key check passes exactly when the key was found and one of
/// its e-mails, whichever it is, is on an allowed domain; it never passes
/// otherwise.
pub proof fn lemma_gpg_key_passes(finding: GpgFinding, domains: Seq<Seq<char>>)
    ensures
        (gpg_key_check(finding, domains).0 == State::Pass) <==> key_on_domain(finding, domains),
{
    if let GpgFinding::Looked { query, lookup } = finding {
        let emails = views_of(lookup.emails@);
        if exists|i: int| 0 <= i < lookup.emails@.len() && on_domain(#[trigger] lookup.emails@[i]@, domains) {
            let i = choose|i: int| 0 <= i < lookup.emails@.len() && on_domain(#[trigger] lookup.emails@[i]@, domains);
            assert(emails[i] == lookup.emails@[i]@);
        }
        if exists|i: int| 0 <= i < emails.len() && on_domain(#[trigger] emails[i], domains) {
            let i = choose|i: int| 0 <= i < emails.len() && on_domain(#[trigger] emails[i], domains);
            assert(emails[i] == lookup.emails@[i]@);
        }
    }
}

/// Checks the signing key that was looked up against the domains: it
/// passes exactly when the key was found and one of its e-mails is on an
/// allowed domain.
pub fn check_gpg_key(finding: GpgFinding, domains: &[String]) -> (r: Check)
    ensures
        r.parts() == gpg_key_check(finding, views_of(domains@)),
        (r.state == State::Pass) <==> key_on_domain(finding, views_of(domains@)),
{
    proof { lemma_gpg_key_passes(finding, views_of(domains@)); }
    match finding {
        GpgFinding::Ssh => Check {
            state: State::Warn,
            label: "gpg key",
            detail: String::from_str("gpg.format=ssh, cannot verify key e-mail domain"),
        },
        GpgFinding::NoKey => Check {
            state: State::Fail,
            label: "gpg key",
            detail: String::from_str("no user.signingkey or user.email to locate a key"),
        },
        GpgFinding::Looked { query, lookup } => {
            if lookup.gpg_missing {
                return Check {
                    state: State::Fail,
                    label: "gpg key",
                    detail: String::from_str("gpg binary not found in PATH"),
                };
            }
            if !lookup.found {
                let detail = query.clone().concat(" — no secret key in keyring");
                return Check { state: State::Fail, label: "gpg key", detail };
            }
            if lookup.emails.len() == 0 {
                let detail = query.clone().concat(" — key has no e-mail user ID");
                return Check { state: State::Fail, label: "gpg key", detail };
            }
            let mut any = false;
            let mut i: usize = 0;
            while i < lookup.emails.len()
                invariant
                    i <= lookup.emails@.len(),
                    any == exists|k: int| 0 <= k < i && on_domain(#[trigger] views_of(lookup.emails@)[k], views_of(domains@)),
                decreases lookup.emails@.len() - i,
            {
                if email_on_domain(lookup.emails[i].as_str(), domains) {
                    any = true;
                }
                assert(views_of(lookup.emails@)[i as int] == lookup.emails@[i as int]@);
                i += 1;
            }
            let list = join_with(&lookup.emails, ", ");
            let detail = query.clone().concat(" [").concat(list.as_str()).concat("]");
            let state = if any { State::Pass } else { State::Fail };
            Check { state, label: "gpg key", detail }
        },
    }
}

/// What git and gpg report about a repository's identity.
#[derive(Debug)]
pub struct IdentityFacts {
    /// `git config user.email`, if set.
    pub git_email: Option<String>,
    /// The signing-key lookup made for the query that `gpg_query` chose.
    pub gpg: GpgFinding,
}

/// Computes the identity outcome for a repo from what git and gpg report.
/// Without a domain policy nothing is checked (and `facts` is not looked
/// at); otherwise the git e-mail is checked, then the signing key.
pub fn check(cfg: &Config, repo: &Repo, facts: IdentityFacts) -> (r: Identity)
    ensures
        views_of(r.domains@) == (if repo.email_domain.is_some() || repo.email_domains@.len() > 0 {
            domain_policy(repo.email_domain, repo.email_domains@)
        } else {
            domain_policy(cfg.manifest.email_domain, cfg.manifest.email_domains@)
        }),
        r.applies == (r.domains@.len() > 0),
        !r.applies ==> r.checks@.len() == 0,
        r.applies ==> {
            &&& r.checks@.len() == 2
            &&& r.checks@[0].parts() == git_email_check(crate::git::opt_view(facts.git_email), views_of(r.domains@))
            &&& r.checks@[1].parts() == gpg_key_check(facts.gpg, views_of(r.domains@))
        },
{
    let domains = cfg.allowed_domains(repo);
    if domains.len() == 0 {
        return Identity { applies: false, domains, checks: Vec::new() };
    }
    let first = check_git_email(facts.git_email, domains.as_slice());
    let second = check_gpg_key(facts.gpg, domains.as_slice());
    let mut checks: Vec<Check> = Vec::new();
    checks.push(first);
    checks.push(second);
    Identity { applies: true, domains, checks }
}

/// How many of the outcomes have a policy that applies.
pub open spec fn checked_count(ids: Seq<Identity>) -> nat
    decreases ids.len(),
{
    if ids.len() == 0 {
        0
    } else {
        checked_count(ids.drop_last()) + if ids.last().applies { 1nat } else { 0nat }
    }
}

/// How many of the outcomes have a policy that applies and a failed check.
pub open spec fn failed_count(ids: Seq<Identity>) -> nat
    decreases ids.len(),
{
    if ids.len() == 0 {
        0
    } else {
        failed_count(ids.drop_last()) + if ids.last().applies && worst_of(ids.last().states()) == State::Fail { 1nat } else { 0nat }
    }
}

/// The tally of `basis verify`: the run fails exactly when `failed > 0`;
/// with `checked == 0` there was nothing to verify.
#[derive(Debug)]
pub struct VerifySummary {
    pub checked: usize,
    pub failed: usize,
}

/// Tallies the identity outcomes of the repositories.
pub fn verify_summary(ids: &[Identity]) -> (r: VerifySummary)
    ensures
        r.checked == checked_count(ids@),
        r.failed == failed_count(ids@),
{
    let mut checked: usize = 0;
    let mut failed: usize = 0;
    let mut i: usize = 0;
    while i < ids.len()
        invariant
            i <= ids@.len(),
            checked == checked_count(ids@.take(i as int)),
            failed == failed_count(ids@.take(i as int)),
            failed <= checked <= i,
        decreases ids@.len() - i,
    {
        assert(ids@.take(i + 1).drop_last() == ids@.take(i as int));
        if ids[i].applies {
            checked += 1;
            if !ids[i].ok() {
                failed += 1;
            }
        }
        i += 1;
    }
    assert(ids@.take(ids@.len() as int) == ids@);
    VerifySummary { checked, failed }
}

} // verus!
