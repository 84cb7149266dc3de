//! Installing a constellation: where to clone the manifest from, what to
//! call its directory, and what to do with each member.
use vstd::prelude::*;
use vstd::string::*;

use crate::config::{joined, join_path, Config, FileDef, Repo};
use crate::text::views_of;
use crate::git::opt_view;
use crate::text::{
    chars_of, ends_with, find, has_prefix, has_suffix, index_of, lemma_find_from, slice_chars, starts_with,
    string_of, trim, trim_end_char, trim_end_matching, trim_ws,
};

verus! {

/// `s` with every trailing `suffix` removed, as `str::trim_end_matches` with
/// a string pattern gives it.
pub open spec fn trim_end_suffix(s: Seq<char>, suffix: Seq<char>) -> Seq<char>
    decreases s.len(),
{
    if suffix.len() > 0 && ends_with(s, suffix) {
        trim_end_suffix(s.take(s.len() - suffix.len()), suffix)
    } else {
        s
    }
}

/// The last index of `s` that holds `/` or `:`.
pub open spec fn last_separator(s: Seq<char>) -> Option<int>
    decreases s.len(),
{
    if s.len() == 0 {
        None
    } else if s.last() == '/' || s.last() == ':' {
        Some(s.len() - 1)
    } else {
        last_separator(s.drop_last())
    }
}

/// The last path segment of a spec or URL, without a trailing `.git`.
pub open spec fn derived_name(spec: Seq<char>) -> Seq<char> {
    let t = trim_end_char(spec, '/');
    let last = match last_separator(t) {
        Some(i) => t.skip(i + 1),
        None => t,
    };
    trim_end_suffix(last, ".git"@)
}

/// Last path segment of a spec/URL, without a trailing `.git`.
pub fn derive_name(spec: &str) -> (r: String)
    ensures
        r@ == derived_name(spec@),
{
    let cs = chars_of(spec);
    let t = trim_end_matching(cs.as_slice(), '/');
    let mut hi = t.len();
    assert(t@.take(t@.len() as int) == t@);
    while hi > 0 && t[hi - 1] != '/' && t[hi - 1] != ':'
        invariant
            hi <= t@.len(),
            last_separator(t@) == last_separator(t@.take(hi as int)),
        decreases hi,
    {
        assert(t@.take(hi as int).drop_last() == t@.take(hi - 1));
        hi -= 1;
    }
    proof {
        if hi == 0 {
            assert(last_separator(t@.take(0)).is_none());
        } else {
            assert(last_separator(t@.take(hi as int)) == Some(hi - 1));
        }
    }
    assert(t@.take(t@.len() as int) == t@);
    let mut last = slice_chars(t.as_slice(), hi, t.len());
    proof {
        if hi == 0 {
            assert(last@ == t@);
        } else {
            assert(last@ == t@.skip(hi as int));
        }
    }
    let git = chars_of(".git");
    proof { reveal_strlit(".git"); }
    while has_suffix(last.as_slice(), git.as_slice())
        invariant
            git@ == ".git"@,
            trim_end_suffix(last@, ".git"@) == derived_name(spec@),
        decreases last@.len(),
    {
        proof { reveal_strlit(".git"); }
        assert(git@.len() == 4);
        last = slice_chars(last.as_slice(), 0, last.len() - git.len());
    }
    string_of(last.as_slice())
}

/// The URL to clone a spec from: the spec itself when it is a URL (holds
/// `://` or starts with `git@`), else `https://github.com/<org/repo>`.
pub open spec fn clone_url(spec: Seq<char>) -> Seq<char> {
    let s = trim_ws(spec);
    if find(s, "://"@).is_some() || starts_with(s, "git@"@) {
        s
    } else {
        "https://github.com/"@ + trim_end_char(s, '/')
    }
}

/// Resolves a spec into a `(clone_url, default_directory_name)` pair:
/// `org/repo` is shorthand for GitHub over HTTPS; a full git URL is kept.
pub fn resolve(spec: &str) -> (r: (String, String))
    ensures
        r.0@ == clone_url(spec@),
        r.1@ == derived_name(trim_ws(spec@)),
{
    let s = trim(chars_of(spec).as_slice());
    let sep = chars_of("://");
    let at = chars_of("git@");
    proof { reveal_strlit("://"); reveal_strlit("git@"); }
    let is_url = index_of(s.as_slice(), sep.as_slice()).is_some() || has_prefix(s.as_slice(), at.as_slice());
    let trimmed = string_of(s.as_slice());
    let url = if is_url {
        string_of(s.as_slice())
    } else {
        let rest = string_of(trim_end_matching(s.as_slice(), '/').as_slice());
        String::from_str("https://github.com/").concat(rest.as_str())
    };
    (url, derive_name(trimmed.as_str()))
}

/// What installing does with one member repository.
#[derive(Debug)]
pub enum MemberStep {
    /// It has no `url`: skipped.
    NoUrl,
    /// Its directory already has content: skipped.
    Present,
    /// Clone `url` into `dest`.
    Clone { url: String, dest: String },
}

/// Decides what to do with a member repository whose directory is (or is
/// not) `present` (non-empty): skip it without a `url` or when present,
/// else clone its `url` into its directory.
pub fn member_step(cfg: &Config, repo: &Repo, present: bool) -> (r: MemberStep)
    ensures
        match repo.url {
            None => r is NoUrl,
            Some(u) => if present {
                r is Present
            } else {
                r matches MemberStep::Clone { url, dest } && url@ == u@ && dest@ == joined(cfg.base_dir@, repo.path@)
            },
        },
{
    match &repo.url {
        None => MemberStep::NoUrl,
        Some(u) => {
            if present {
                MemberStep::Present
            } else {
                MemberStep::Clone { url: u.clone(), dest: cfg.repo_dir(repo) }
            }
        },
    }
}

/// What installing does with one auxiliary file.
#[derive(Debug)]
pub enum FileStep {
    /// Something is already at its destination: left alone.
    Present { dest: String },
    /// Download `url` to `dest` (made executable if asked).
    Fetch { dest: String, url: String, executable: bool },
}

/// Decides what to do with an auxiliary file whose destination (its path
/// under the manifest directory) is `present` or not.
pub fn file_step(cfg: &Config, file: &FileDef, present: bool) -> (r: FileStep)
    ensures
        if present {
            r matches FileStep::Present { dest } && dest@ == joined(cfg.base_dir@, file.path@)
        } else {
            r matches FileStep::Fetch { dest, url, executable } && dest@ == joined(cfg.base_dir@, file.path@)
                && url@ == file.url@ && executable == file.executable
        },
{
    let dest = join_path(cfg.base_dir.as_str(), file.path.as_str());
    if present {
        FileStep::Present { dest }
    } else {
        FileStep::Fetch { dest, url: file.url.clone(), executable: file.executable }
    }
}

/// `git` arguments that clone `url` into `dest`, on `branch` if one is given.
pub fn clone_args(url: &str, dest: &str, branch: Option<String>) -> (r: Vec<String>)
    ensures
        views_of(r@) == seq!["clone"@] + (match branch {
            Some(b) => seq!["--branch"@, b@],
            None => Seq::empty(),
        }) + seq![url@, dest@],
{
    let mut r: Vec<String> = Vec::new();
    r.push(String::from_str("clone"));
    match &branch {
        Some(b) => {
            r.push(String::from_str("--branch"));
            r.push(b.clone());
        },
        None => {},
    }
    r.push(String::from_str(url));
    r.push(String::from_str(dest));
    assert(views_of(r@) =~= seq!["clone"@] + (match branch {
        Some(b) => seq!["--branch"@, b@],
        None => Seq::empty(),
    }) + seq![url@, dest@]);
    r
}

/// What `Path::file_name` returns for `path` (its final component, unless
/// the path ends in `..` or has none), taken as characters.
pub uninterp spec fn path_file_name(path: Seq<char>) -> Option<Seq<char>>;

/// `Path::file_name` of `path`. The contract names the result.
#[verifier::external_body]
fn file_name_of(path: &str) -> (r: Option<String>)
    ensures
        opt_view(r) == path_file_name(path@),
{
    std::path::Path::new(path).file_name().map(|n| n.to_string_lossy().into_owned())
}

/// The manifest file inside a freshly cloned manifest repository: the file
/// name of `manifest_file` (`basis.yaml` if it has none) under `target`.
pub fn manifest_in(target: &str, manifest_file: &str) -> (r: String)
    ensures
        r@ == joined(target@, match path_file_name(manifest_file@) {
            Some(n) => n,
            None => "basis.yaml"@,
        }),
{
    let name = match file_name_of(manifest_file) {
        Some(n) => n,
        None => String::from_str("basis.yaml"),
    };
    join_path(target, name.as_str())
}

/// The commands of a repository's `_postclone` hook, run right after it is
/// cloned.
pub fn postclone_commands(repo: &Repo) -> (r: Option<&Vec<String>>)
    ensures
        match r {
            Some(c) => repo.action_commands("_postclone"@) == Some(crate::text::views_of(c@)),
            None => repo.action_commands("_postclone"@).is_none(),
        },
{
    repo.action("_postclone")
}

} // verus!
