//! Git facts: normalised remote URLs and the status summary of a working tree.
use vstd::prelude::*;
use vstd::string::*;

use crate::text::{
    chars_eq, chars_of, find, find_char, index_of, index_of_char, lemma_find_char_from, lower_chars,
    lowercase, parse_usize, parse_usize_chars, split_ws, strip_suffix, string_of, trim, trim_end_char,
    trim_end_matching, trim_ws, ws_tokens, has_suffix, slice_chars, occurs_at, white_space, trim_start_ws,
    trim_end_ws, lemma_find_from, find_char_from,
};

verus! {

/// Summary of a repository's working tree, as reported by git.
#[derive(Debug)]
pub struct GitStatus {
    pub is_repo: bool,
    pub branch: String,
    pub dirty: bool,
    pub ahead: usize,
    pub behind: usize,
}

/// `s` without a leading `scheme://`.
pub open spec fn drop_scheme(s: Seq<char>) -> Seq<char> {
    match find(s, "://"@) {
        Some(i) => s.skip(i + 3),
        None => s,
    }
}

/// Where the authority section of `s` ends: at the first `/`, else the end.
pub open spec fn authority_end(s: Seq<char>) -> int {
    match find_char(s, '/') {
        Some(i) => i,
        None => s.len() as int,
    }
}

/// `s` without `user@` in its authority section.
pub open spec fn drop_userinfo(s: Seq<char>) -> Seq<char> {
    match find_char(s.take(authority_end(s)), '@') {
        Some(a) => s.skip(a + 1),
        None => s,
    }
}

/// `s` with the `:` of an scp-like `host:path` turned into `/`.
pub open spec fn scp_to_path(s: Seq<char>) -> Seq<char> {
    match find_char(s.take(authority_end(s)), ':') {
        Some(c) => s.update(c, '/'),
        None => s,
    }
}

/// `s` without trailing slashes and one trailing `.git`.
pub open spec fn drop_git_suffix(s: Seq<char>) -> Seq<char> {
    let t = trim_end_char(s, '/');
    let u = match strip_suffix(t, ".git"@) {
        Some(x) => x,
        None => t,
    };
    trim_end_char(u, '/')
}

/// The normal form of a git URL, before case folding.
pub open spec fn url_key(url: Seq<char>) -> Seq<char> {
    drop_git_suffix(scp_to_path(drop_userinfo(drop_scheme(trim_ws(url)))))
}

/// The normal form of a git URL: trimmed, without scheme and user, with an
/// scp-like `host:` turned into `host/`, without trailing slashes and
/// `.git`, in lower case.
pub open spec fn normalized(url: Seq<char>) -> Seq<char> {
    lowercase(url_key(url))
}

fn authority_end_of(v: &Vec<char>) -> (r: usize)
    ensures
        r == authority_end(v@),
        r <= v@.len(),
{
    proof { lemma_find_char_from(v@, '/', 0); }
    match index_of_char(v.as_slice(), '/') {
        Some(i) => i,
        None => v.len(),
    }
}

/// Normalizes a git URL so equivalent spellings compare equal, e.g.
/// `git@github.com:org/repo.git` and `https://github.com/org/repo` both
/// become `github.com/org/repo`.
pub fn normalize_url(url: &str) -> (r: String)
    ensures
        r@ == normalized(url@),
{
    let chars = chars_of(url);
    let mut s = trim(chars.as_slice());

    // Drop the scheme (https://, ssh://, git://, ...).
    let sep = chars_of("://");
    proof { reveal_strlit("://"); }
    match index_of(s.as_slice(), sep.as_slice()) {
        Some(idx) => {
            proof {
                crate::text::lemma_find_from(s@, sep@, 0);
            }
            s = slice_chars(s.as_slice(), idx + 3, s.len());
            assert(s@ =~= trim_ws(url@).skip(idx + 3));
        },
        None => {},
    }
    let ghost s1 = s@;
    assert(s1 == drop_scheme(trim_ws(url@)));

    // Drop userinfo (git@host) in the authority section.
    let end = authority_end_of(&s);
    let head = slice_chars(s.as_slice(), 0, end);
    assert(head@ =~= s@.take(end as int));
    proof { lemma_find_char_from(head@, '@', 0); }
    match index_of_char(head.as_slice(), '@') {
        Some(at) => {
            s = slice_chars(s.as_slice(), at + 1, s.len());
            assert(s@ =~= s1.skip(at + 1));
        },
        None => {},
    }
    let ghost s2 = s@;
    assert(s2 == drop_userinfo(s1));

    // scp-like `host:path` -> `host/path`.
    let end = authority_end_of(&s);
    let head = slice_chars(s.as_slice(), 0, end);
    assert(head@ =~= s@.take(end as int));
    proof { lemma_find_char_from(head@, ':', 0); }
    match index_of_char(head.as_slice(), ':') {
        Some(colon) => {
            s.set(colon, '/');
        },
        None => {},
    }
    let ghost s3 = s@;
    assert(s3 == scp_to_path(s2));

    // Drop trailing `.git` and slashes.
    let t = trim_end_matching(s.as_slice(), '/');
    let git = chars_of(".git");
    proof { reveal_strlit(".git"); }
    let u = if has_suffix(t.as_slice(), git.as_slice()) {
        slice_chars(t.as_slice(), 0, t.len() - git.len())
    } else {
        t
    };
    let w = trim_end_matching(u.as_slice(), '/');
    assert(w@ == drop_git_suffix(s3));
    let low = lower_chars(w.as_slice());
    string_of(low.as_slice())
}

/// Whether two git URLs refer to the same repository: their normal forms agree.
pub fn same_remote(a: &str, b: &str) -> (r: bool)
    ensures
        r == (normalized(a@) == normalized(b@)),
{
    let na = normalize_url(a);
    let nb = normalize_url(b);
    na == nb
}

/// `same_remote` is an equivalence relation: every URL names the same
/// repository as itself, the relation is symmetric, and it is transitive.
pub proof fn lemma_same_remote_equivalence(a: Seq<char>, b: Seq<char>, c: Seq<char>)
    ensures
        normalized(a) == normalized(a),
        (normalized(a) == normalized(b)) == (normalized(b) == normalized(a)),
        normalized(a) == normalized(b) && normalized(b) == normalized(c) ==> normalized(a) == normalized(c),
{
}

/// A text whose ends are not white space is its own trimmed form.
proof fn lemma_trimmed(s: Seq<char>)
    requires
        s.len() > 0 ==> !white_space(s[0]) && !white_space(s.last()),
    ensures
        trim_ws(s) == s,
{
    assert(trim_start_ws(s) == s);
}

/// `"://"` does not occur in `head + tail` when `head` holds no `:` and
/// `tail` holds no `"://"`.
proof fn lemma_find_sep(head: Seq<char>, tail: Seq<char>)
    requires
        forall|j: int| 0 <= j < head.len() ==> head[j] != ':',
        find(tail, "://"@) is None,
    ensures
        find(head + tail, "://"@) is None,
{
    reveal_strlit("://");
    let w = head + tail;
    lemma_find_from(tail, "://"@, 0);
    lemma_find_from(w, "://"@, 0);
    assert forall|j: int| 0 <= j implies !occurs_at(w, "://"@, j) by {
        if occurs_at(w, "://"@, j) {
            assert(w[j] == w.subrange(j, j + 3)[0]);
            if j < head.len() {
                assert(w[j] == head[j]);
            } else {
                assert(tail.subrange(j - head.len(), j - head.len() + 3) =~= w.subrange(j, j + 3));
                assert(occurs_at(tail, "://"@, j - head.len()));
            }
        }
    }
}

/// A leading `scheme://` is ignored when URLs are compared: for a scheme
/// without `"://"` and without white space in front, and a rest without
/// `"://"` and without white space at its ends, `scheme://rest` names the
/// same repository as `rest`.
pub proof fn lemma_scheme_ignored(scheme: Seq<char>, rest: Seq<char>)
    requires
        find(scheme, "://"@) is None,
        scheme.len() > 0 ==> !white_space(scheme[0]),
        find(rest, "://"@) is None,
        rest.len() > 0 ==> !white_space(rest[0]) && !white_space(rest.last()),
    ensures
        normalized(scheme + "://"@ + rest) == normalized(rest),
{
    reveal_strlit("://");
    let w = scheme + "://"@ + rest;
    let k = scheme.len() as int;
    lemma_trimmed(rest);
    assert(!white_space(w[0])) by {
        if k > 0 { assert(w[0] == scheme[0]); } else { assert(w[0] == ':'); }
    }
    assert(!white_space(w.last())) by {
        if rest.len() > 0 { assert(w.last() == rest.last()); } else { assert(w.last() == '/'); }
    }
    lemma_trimmed(w);
    lemma_first_sep(scheme, rest);
    assert(drop_scheme(w) == w.skip(k + 3));
    assert(w.skip(k + 3) =~= rest);
    assert(drop_scheme(rest) == rest);
    lemma_same_key(w, rest);
}

/// In `scheme://rest`, with no `"://"` in the scheme, `"://"` first occurs
/// right after the scheme: an occurrence that began inside the scheme would
/// lie in it, or have `/` where the separator has its `:`.
proof fn lemma_first_sep(scheme: Seq<char>, rest: Seq<char>)
    requires
        find(scheme, "://"@) is None,
    ensures
        find(scheme + "://"@ + rest, "://"@) == Some(scheme.len() as int),
{
    reveal_strlit("://");
    let w = scheme + "://"@ + rest;
    let k = scheme.len() as int;
    lemma_find_from(w, "://"@, 0);
    lemma_find_from(scheme, "://"@, 0);
    assert(occurs_at(w, "://"@, k)) by {
        assert(w.subrange(k, k + 3) =~= "://"@);
    }
    assert forall|j: int| 0 <= j < k implies !occurs_at(w, "://"@, j) by {
        if occurs_at(w, "://"@, j) {
            assert(w.subrange(j, j + 3)[0] == ':' && w.subrange(j, j + 3)[1] == '/' && w.subrange(j, j + 3)[2] == '/');
            if j + 3 <= k {
                assert(scheme.subrange(j, j + 3) =~= w.subrange(j, j + 3));
                assert(occurs_at(scheme, "://"@, j));
            } else if j + 2 == k {
                assert(w[j + 2] == ':');
            } else {
                assert(w[j + 1] == ':');
            }
        }
    }
}

/// Two URLs that are the same once trimmed and stripped of their scheme
/// normalise alike.
proof fn lemma_same_key(a: Seq<char>, b: Seq<char>)
    requires
        drop_scheme(trim_ws(a)) == drop_scheme(trim_ws(b)),
    ensures
        normalized(a) == normalized(b),
{
}

/// A `user@` in front of the host is ignored when URLs are compared: for a
/// user without `/`, `@`, `:` or white space, and a rest without `"://"`,
/// without `@` before its first `/` and without white space at its ends,
/// `user@rest` names the same repository as `rest`.
pub proof fn lemma_userinfo_ignored(user: Seq<char>, rest: Seq<char>)
    requires
        forall|j: int| 0 <= j < user.len()
            ==> #[trigger] user[j] != '/' && user[j] != '@' && user[j] != ':' && !white_space(user[j]),
        find(rest, "://"@) is None,
        forall|j: int| 0 <= j < authority_end(rest) && j < rest.len() ==> #[trigger] rest[j] != '@',
        rest.len() > 0 ==> !white_space(rest[0]) && !white_space(rest.last()),
    ensures
        normalized(user + "@"@ + rest) == normalized(rest),
{
    reveal_strlit("@");
    reveal_strlit("://");
    let w = user + "@"@ + rest;
    let k = user.len() as int;
    lemma_trimmed(rest);
    assert(!white_space(w[0])) by {
        if k > 0 { assert(w[0] == user[0]); } else { assert(w[0] == '@'); }
    }
    assert(!white_space(w.last())) by {
        if rest.len() > 0 { assert(w.last() == rest.last()); } else { assert(w.last() == '@'); }
    }
    lemma_trimmed(w);
    // No scheme in either.
    let head = user + "@"@;
    assert(w =~= head + rest);
    assert forall|j: int| 0 <= j < head.len() implies head[j] != ':' by {
        if j < k { assert(head[j] == user[j]); }
    }
    lemma_find_sep(head, rest);
    lemma_find_from(rest, "://"@, 0);
    assert(drop_scheme(trim_ws(w)) == w);
    assert(drop_scheme(trim_ws(rest)) == rest);
    // The authority of `w` reaches past the `@`; its first `@` is the user's.
    lemma_find_char_from(w, '/', 0);
    lemma_find_char_from(rest, '/', 0);
    assert(w[k] == '@');
    assert forall|j: int| 0 <= j <= k implies w[j] != '/' by {
        if j < k { assert(w[j] == user[j]); }
    }
    assert(authority_end(w) > k);
    let wa = w.take(authority_end(w));
    lemma_find_char_from(wa, '@', 0);
    assert forall|j: int| 0 <= j < k implies wa[j] != '@' by {
        assert(wa[j] == user[j]);
    }
    assert(wa[k] == '@');
    assert(find_char(wa, '@') == Some(k));
    assert(w.skip(k + 1) =~= rest);
    assert(drop_userinfo(w) == rest);
    let ra = rest.take(authority_end(rest));
    lemma_find_char_from(ra, '@', 0);
    assert forall|j: int| 0 <= j < ra.len() implies ra[j] != '@' by {
        assert(ra[j] == rest[j]);
    }
    assert(drop_userinfo(rest) == rest);
    lemma_same_host_key(w, rest);
}

/// Two URLs that are the same once trimmed and stripped of their scheme and
/// user normalise alike.
proof fn lemma_same_host_key(a: Seq<char>, b: Seq<char>)
    requires
        drop_userinfo(drop_scheme(trim_ws(a))) == drop_userinfo(drop_scheme(trim_ws(b))),
    ensures
        normalized(a) == normalized(b),
{
}

/// What a git command answered: its standard output with surrounding white
/// space trimmed, or `None` where the command failed.
pub open spec fn answer_of(stdout: Option<Seq<char>>) -> Option<Seq<char>> {
    match stdout {
        Some(out) => Some(trim_ws(out)),
        None => None,
    }
}

/// The answer of a git command, where it is not empty.
pub open spec fn nonempty_answer(stdout: Option<Seq<char>>) -> Option<Seq<char>> {
    match answer_of(stdout) {
        Some(a) => if a.len() > 0 { Some(a) } else { None },
        None => None,
    }
}

/// Trims the standard output of a git command (`None` where it failed).
pub fn answer(stdout: Option<String>) -> (r: Option<String>)
    ensures
        opt_view(r) == answer_of(opt_view(stdout)),
{
    match stdout {
        Some(out) => {
            let cs = chars_of(out.as_str());
            let t = trim(cs.as_slice());
            Some(string_of(t.as_slice()))
        },
        None => None,
    }
}

/// An effective git config value from the output of `git config --get key`
/// (`None` where git failed): `None` if unset or empty.
pub fn config(stdout: Option<String>) -> (r: Option<String>)
    ensures
        opt_view(r) == nonempty_answer(opt_view(stdout)),
{
    match answer(stdout) {
        Some(a) => if a.as_str().is_empty() { None } else { Some(a) },
        None => None,
    }
}

/// The URL of a remote from the output of `git remote get-url <remote>`
/// (`None` where git failed): `None` if the remote has none.
pub fn remote_url(stdout: Option<String>) -> (r: Option<String>)
    ensures
        opt_view(r) == nonempty_answer(opt_view(stdout)),
{
    config(stdout)
}

/// The status summary that git's answers give: `inside` is the output of
/// `rev-parse --is-inside-work-tree`, `branch` that of
/// `rev-parse --abbrev-ref HEAD`, `porcelain` that of `status --porcelain`
/// and `counts` that of `rev-list --left-right --count @{upstream}...HEAD`
/// (each trimmed, `None` where git failed). Outside a work tree everything
/// is empty; without upstream counts, ahead and behind are 0.
pub open spec fn status_of(
    inside: Option<Seq<char>>,
    branch: Option<Seq<char>>,
    porcelain: Option<Seq<char>>,
    counts: Option<Seq<char>>,
) -> (bool, Seq<char>, bool, usize, usize) {
    if inside != Some("true"@) {
        (false, Seq::empty(), false, 0, 0)
    } else {
        let toks = match counts {
            Some(c) => ws_tokens(c),
            None => Seq::empty(),
        };
        let behind = if toks.len() > 0 { match parse_usize(toks[0]) { Some(n) => n, None => 0 } } else { 0 };
        let ahead = if toks.len() > 1 { match parse_usize(toks[1]) { Some(n) => n, None => 0 } } else { 0 };
        (
            true,
            match branch { Some(b) => b, None => Seq::empty() },
            match porcelain { Some(p) => p.len() > 0, None => false },
            ahead,
            behind,
        )
    }
}

/// The view of an optional string.
pub open spec fn opt_view(o: Option<String>) -> Option<Seq<char>> {
    match o {
        Some(s) => Some(s@),
        None => None,
    }
}

impl GitStatus {
    /// The summary as a tuple, in field order.
    pub open spec fn parts(&self) -> (bool, Seq<char>, bool, usize, usize) {
        (self.is_repo, self.branch@, self.dirty, self.ahead, self.behind)
    }
}

/// Collects the git status from git's answers (see `status_of`). Never
/// fails: outside a work tree `is_repo` is false.
pub fn status(
    inside: Option<String>,
    branch: Option<String>,
    porcelain: Option<String>,
    counts: Option<String>,
) -> (r: GitStatus)
    ensures
        r.parts() == status_of(opt_view(inside), opt_view(branch), opt_view(porcelain), opt_view(counts)),
{
    let is_true = match &inside {
        Some(s) => {
            let t = String::from_str("true");
            *s == t
        },
        None => false,
    };
    proof { reveal_strlit("true"); }
    if !is_true {
        return GitStatus { is_repo: false, branch: String::new(), dirty: false, ahead: 0, behind: 0 };
    }
    let branch = match branch {
        Some(b) => b,
        None => String::new(),
    };
    let dirty = match &porcelain {
        Some(p) => !p.as_str().is_empty(),
        None => false,
    };
    let mut ahead: usize = 0;
    let mut behind: usize = 0;
    match &counts {
        Some(c) => {
            let cs = chars_of(c.as_str());
            let toks = split_ws(cs.as_slice());
            if toks.len() > 0 {
                behind = match parse_usize_chars(toks[0].as_slice()) {
                    Some(n) => n,
                    None => 0,
                };
            }
            if toks.len() > 1 {
                ahead = match parse_usize_chars(toks[1].as_slice()) {
                    Some(n) => n,
                    None => 0,
                };
            }
        },
        None => {},
    }
    GitStatus { is_repo: true, branch, dirty, ahead, behind }
}

} // verus!
