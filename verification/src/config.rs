//! The constellation manifest: repositories, tasks, displays and the
//! directory the manifest lives in.
use vstd::prelude::*;

use crate::error::Error;
use vstd::string::*;

use crate::text::{
    chars_of, first_where, lemma_first_where, lowercase, starts_with, string_of, to_lower, views_of, sorted_strict,
};

verus! {

/// Language of a repository, which decides how versions are read and written.
#[derive(Debug, Clone, Copy, PartialEq, Eq, Structural)]
pub enum Lang {
    Rust,
    Cpp,
}

impl Lang {
    /// The name of the language as the manifest and reports spell it.
    pub open spec fn label(self) -> Seq<char> {
        match self {
            Lang::Rust => "rust"@,
            Lang::Cpp => "cpp"@,
        }
    }

    /// The name of the language (`rust` or `cpp`).
    pub fn name(&self) -> (r: &'static str)
        ensures
            r@ == self.label(),
    {
        match self {
            Lang::Rust => "rust",
            Lang::Cpp => "cpp",
        }
    }
}

/// One named action of a repository: an ordered list of shell commands.
#[derive(Debug)]
pub struct ActionDef {
    pub name: String,
    pub commands: Vec<String>,
}

/// A repository of the constellation.
#[derive(Debug)]
pub struct Repo {
    /// Human-readable, unique name used on the command line.
    pub name: String,
    /// Path to the repository, relative to the manifest.
    pub path: String,
    /// Language, determines versioning strategy.
    pub lang: Lang,
    /// Canonical git URL, if declared.
    pub url: Option<String>,
    /// Package name exposed to dependents, if it differs from the default.
    pub provides: Option<String>,
    /// C++ only: file holding the plain version string (default `.version`).
    pub version_file: Option<String>,
    /// C++ only: CMake file whose `project(... VERSION ...)` is patched.
    pub cmake_file: Option<String>,
    /// Allowed e-mail domain (overrides the manifest's policy).
    pub email_domain: Option<String>,
    /// Allowed e-mail domains (overrides the manifest's policy).
    pub email_domains: Vec<String>,
    /// Action name -> ordered list of shell commands.
    pub actions: Vec<ActionDef>,
}

/// The names of a repository's actions, in order.
pub open spec fn action_names(actions: Seq<ActionDef>) -> Seq<Seq<char>> {
    actions.map_values(|a: ActionDef| a.name@)
}

/// Every repository lists its actions in strictly increasing order of
/// name, as a map keyed by name holds them: no name occurs twice.
pub open spec fn actions_sorted(repos: Seq<Repo>) -> bool {
    forall|i: int| 0 <= i < repos.len() ==> sorted_strict(action_names(#[trigger] repos[i].actions@))
}

/// The index of the first action of `actions` called `name`.
pub open spec fn action_index(actions: Seq<ActionDef>, name: Seq<char>) -> Option<int> {
    first_where(actions, |a: ActionDef| a.name@ == name)
}

impl Repo {
    /// The commands of the action `name`, if the repository defines it.
    pub open spec fn action_commands(&self, name: Seq<char>) -> Option<Seq<Seq<char>>> {
        match action_index(self.actions@, name) {
            Some(i) => Some(views_of(self.actions@[i].commands@)),
            None => None,
        }
    }

    /// The position of the action `name` among the repository's actions.
    pub fn find_action(&self, name: &str) -> (r: Option<usize>)
        ensures
            match r {
                Some(i) => i < self.actions@.len() && action_index(self.actions@, name@) == Some(i as int),
                None => action_index(self.actions@, name@).is_none(),
            },
    {
        let target = String::from_str(name);
        let ghost p = |a: ActionDef| a.name@ == name@;
        let mut i: usize = 0;
        while i < self.actions.len()
            invariant
                i <= self.actions@.len(),
                target@ == name@,
                p == (|a: ActionDef| a.name@ == name@),
                forall|k: int| 0 <= k < i ==> !p(#[trigger] self.actions@[k]),
            decreases self.actions@.len() - i,
        {
            if self.actions[i].name == target {
                proof { lemma_first_where(self.actions@, p); }
                return Some(i);
            }
            i += 1;
        }
        proof { lemma_first_where(self.actions@, p); }
        None
    }

    /// The commands of the action `name`, if the repository defines it.
    pub fn action(&self, name: &str) -> (r: Option<&Vec<String>>)
        ensures
            match r {
                Some(c) => self.action_commands(name@) == Some(views_of(c@)),
                None => self.action_commands(name@).is_none(),
            },
    {
        match self.find_action(name) {
            Some(i) => Some(&self.actions[i].commands),
            None => None,
        }
    }
}

/// Per-task settings: the display a task runs in and its layout.
#[derive(Debug)]
pub struct TaskDef {
    pub name: String,
    pub display: Option<String>,
    pub layout: Option<String>,
}

/// One pane of a predefined display.
#[derive(Debug)]
pub struct PaneDef {
    pub name: Option<String>,
    pub repo: Option<String>,
    pub cwd: Option<String>,
    pub command: Option<String>,
    pub action: Option<String>,
}

/// A predefined display: a named tmux session with panes.
#[derive(Debug)]
pub struct DisplayDef {
    pub name: String,
    pub session: Option<String>,
    pub layout: String,
    pub panes: Vec<PaneDef>,
}

/// An auxiliary file downloaded when the constellation is installed.
#[derive(Debug)]
pub struct FileDef {
    pub path: String,
    pub url: String,
    pub executable: bool,
}

/// The parsed manifest.
#[derive(Debug)]
pub struct Manifest {
    pub constellation: String,
    /// Optional canonical version of the whole constellation.
    pub version: Option<String>,
    pub email_domain: Option<String>,
    pub email_domains: Vec<String>,
    pub repos: Vec<Repo>,
    pub tasks: Vec<TaskDef>,
    pub displays: Vec<DisplayDef>,
    pub files: Vec<FileDef>,
}

/// A loaded manifest together with the directory it lives in.
#[derive(Debug)]
pub struct Config {
    pub manifest: Manifest,
    /// Directory of the manifest; all repo paths are resolved against it.
    pub base_dir: String,
}

/// `Path::join` on Unix: an absolute `rel` replaces `base`; otherwise `rel`
/// is appended, with a `/` between them unless `base` is empty or already
/// ends with one.
pub open spec fn joined(base: Seq<char>, rel: Seq<char>) -> Seq<char> {
    if rel.len() > 0 && rel[0] == '/' {
        rel
    } else if base.len() == 0 || base.last() == '/' {
        base + rel
    } else {
        base + seq!['/'] + rel
    }
}

/// Joins `rel` onto `base` as a path.
pub fn join_path(base: &str, rel: &str) -> (r: String)
    ensures
        r@ == joined(base@, rel@),
{
    let b = chars_of(base);
    let rl = chars_of(rel);
    if rl.len() > 0 && rl[0] == '/' {
        return string_of(rl.as_slice());
    }
    let mut out = b.clone();
    if b.len() > 0 && b[b.len() - 1] != '/' {
        out.push('/');
    }
    let mut i: usize = 0;
    let ghost start = out@;
    while i < rl.len()
        invariant
            i <= rl@.len(),
            out@ == start + rl@.take(i as int),
        decreases rl@.len() - i,
    {
        out.push(rl[i]);
        assert(rl@.take(i + 1) == rl@.take(i as int).push(rl@[i as int]));
        i += 1;
    }
    assert(rl@.take(rl@.len() as int) == rl@);
    string_of(out.as_slice())
}

/// The index of the first repository called `name`.
pub open spec fn repo_index(repos: Seq<Repo>, name: Seq<char>) -> Option<int>
    decreases repos.len(),
{
    if repos.len() == 0 {
        None
    } else {
        match repo_index(repos.drop_last(), name) {
            Some(i) => Some(i),
            None => if repos.last().name@ == name { Some(repos.len() - 1) } else { None },
        }
    }
}

/// What `repo_index` returns is the first repository with that name.
pub proof fn lemma_repo_index(repos: Seq<Repo>, name: Seq<char>)
    ensures
        match repo_index(repos, name) {
            Some(i) => 0 <= i < repos.len() && repos[i].name@ == name
                && forall|j: int| 0 <= j < i ==> repos[j].name@ != name,
            None => forall|j: int| 0 <= j < repos.len() ==> repos[j].name@ != name,
        },
    decreases repos.len(),
{
    if repos.len() > 0 {
        let init = repos.drop_last();
        lemma_repo_index(init, name);
        assert forall|j: int| 0 <= j < init.len() implies init[j] == repos[j] by {}
    }
}

/// The index of the first name in `names` that no repository has.
pub open spec fn first_unknown(repos: Seq<Repo>, names: Seq<String>) -> Option<int> {
    first_where(names, |n: String| repo_index(repos, n@).is_none())
}

/// Whether some name of `names` is `name`.
pub open spec fn named(names: Seq<String>, name: Seq<char>) -> bool {
    exists|k: int| 0 <= k < names.len() && #[trigger] names[k]@ == name
}

/// The repositories that an empty filter or one of `names` picks, in
/// manifest order.
pub open spec fn picked(repos: Seq<Repo>, names: Seq<String>) -> Seq<Repo>
    decreases repos.len(),
{
    if repos.len() == 0 {
        Seq::empty()
    } else {
        let prev = picked(repos.drop_last(), names);
        if names.len() == 0 || named(names, repos.last().name@) { prev.push(repos.last()) } else { prev }
    }
}

/// The repositories that a selection picks: every repository for an empty
/// filter, else those that the filter names, in manifest order.
pub open spec fn selection(repos: Seq<Repo>, names: Seq<String>) -> Seq<Repo> {
    picked(repos, names)
}

fn is_named(names: &[String], name: &str) -> (r: bool)
    ensures
        r == named(names@, name@),
{
    let target = String::from_str(name);
    let mut i: usize = 0;
    while i < names.len()
        invariant
            i <= names@.len(),
            target@ == name@,
            forall|k: int| 0 <= k < i ==> names@[k]@ != name@,
        decreases names@.len() - i,
    {
        if names[i] == target {
            return true;
        }
        i += 1;
    }
    false
}

/// The index of the first repository whose name already occurred before it.
pub open spec fn first_duplicate(repos: Seq<Repo>) -> Option<int>
    decreases repos.len(),
{
    if repos.len() == 0 {
        None
    } else {
        match first_duplicate(repos.drop_last()) {
            Some(i) => Some(i),
            None => if repo_index(repos.drop_last(), repos.last().name@).is_some() {
                Some(repos.len() - 1)
            } else {
                None
            },
        }
    }
}

/// Repository names are unique.
pub open spec fn names_unique(repos: Seq<Repo>) -> bool {
    forall|i: int, j: int| 0 <= i < j < repos.len() ==> repos[i].name@ != repos[j].name@
}

/// `first_duplicate` finds nothing exactly when the names are unique.
pub proof fn lemma_first_duplicate(repos: Seq<Repo>)
    ensures
        first_duplicate(repos).is_none() <==> names_unique(repos),
        first_duplicate(repos) matches Some(j) ==> 0 <= j < repos.len(),
    decreases repos.len(),
{
    if repos.len() > 0 {
        let init = repos.drop_last();
        lemma_first_duplicate(init);
        lemma_repo_index(init, repos.last().name@);
        if first_duplicate(init).is_some() {
            let k = first_duplicate(init).unwrap();
            assert(!names_unique(init));
            let (a, b) = choose|a: int, b: int| 0 <= a < b < init.len() && init[a].name@ == init[b].name@;
            assert(repos[a] == init[a] && repos[b] == init[b]);
        } else if repo_index(init, repos.last().name@).is_some() {
            let a = repo_index(init, repos.last().name@).unwrap();
            assert(repos[a] == init[a]);
        } else {
            assert forall|i: int, j: int| 0 <= i < j < repos.len() implies repos[i].name@ != repos[j].name@ by {
                assert(repos[i] == init[i]);
                if j < repos.len() - 1 {
                    assert(repos[j] == init[j]);
                }
            }
        }
    }
}

/// A duplicate found in a prefix is the first duplicate of the whole list.
pub proof fn lemma_first_duplicate_prefix(repos: Seq<Repo>, n: int)
    requires
        0 <= n <= repos.len(),
        first_duplicate(repos.take(n)).is_some(),
    ensures
        first_duplicate(repos) == first_duplicate(repos.take(n)),
    decreases repos.len(),
{
    if repos.len() == n {
        assert(repos.take(n) == repos);
    } else {
        assert(repos.drop_last().take(n) == repos.take(n));
        lemma_first_duplicate_prefix(repos.drop_last(), n);
    }
}

/// What `Path::parent` returns for `path` (the path without its final
/// component), taken as characters.
pub uninterp spec fn path_parent(path: Seq<char>) -> Option<Seq<char>>;

/// `Path::parent` of `path`. The contract names the result and states what
/// the implementation shows: the parent is a prefix of the path.
#[verifier::external_body]
fn parent_of(path: &str) -> (r: Option<String>)
    ensures
        match r {
            Some(p) => path_parent(path@) == Some(p@) && starts_with(path@, p@),
            None => path_parent(path@).is_none(),
        },
{
    std::path::Path::new(path).parent().map(|p| p.to_string_lossy().into_owned())
}

/// The domains of a policy: the single domain, then the listed ones, each in
/// lower case.
pub open spec fn domain_policy(single: Option<String>, list: Seq<String>) -> Seq<Seq<char>> {
    (match single {
        Some(d) => seq![lowercase(d@)],
        None => Seq::<Seq<char>>::empty(),
    }) + list.map_values(|d: String| lowercase(d@))
}

fn policy_list(single: &Option<String>, list: &Vec<String>) -> (r: Vec<String>)
    ensures
        views_of(r@) == domain_policy(*single, list@),
{
    let mut out: Vec<String> = Vec::new();
    match single {
        Some(d) => out.push(to_lower(d.as_str())),
        None => {},
    }
    let ghost head = views_of(out@);
    let mut i: usize = 0;
    while i < list.len()
        invariant
            i <= list@.len(),
            head == (match *single {
                Some(d) => seq![lowercase(d@)],
                None => Seq::<Seq<char>>::empty(),
            }),
            views_of(out@) == head + list@.take(i as int).map_values(|d: String| lowercase(d@)),
        decreases list@.len() - i,
    {
        let ghost before = views_of(out@);
        let low = to_lower(list[i].as_str());
        out.push(low);
        assert(views_of(out@) =~= before.push(lowercase(list@[i as int]@)));
        assert(list@.take(i + 1).map_values(|d: String| lowercase(d@))
            == list@.take(i as int).map_values(|d: String| lowercase(d@)).push(lowercase(list@[i as int]@)));
        assert(views_of(out@) == head + list@.take(i + 1).map_values(|d: String| lowercase(d@)));
        i += 1;
    }
    assert(list@.take(list@.len() as int) == list@);
    out
}

/// The manifest directory for a manifest whose parent directory is
/// `parent`: the parent itself, or `.` when it is missing or empty.
pub open spec fn base_dir_for(parent: Option<Seq<char>>) -> Seq<char> {
    match parent {
        Some(p) => if p.len() > 0 { p } else { "."@ },
        None => "."@,
    }
}

impl Config {
    /// Repository names are unique, and each repository's action names are
    /// sorted and unique.
    pub open spec fn wf(&self) -> bool {
        &&& names_unique(self.manifest.repos@)
        &&& actions_sorted(self.manifest.repos@)
    }

    /// A configuration for `manifest`, whose file has the parent directory
    /// `parent`. Refuses a manifest in which two repositories share a name,
    /// naming the first repository whose name occurred before. Each
    /// repository's actions come keyed by name, in order.
    pub fn from_parent(manifest: Manifest, parent: Option<String>) -> (r: Result<Config, Error>)
        requires
            actions_sorted(manifest.repos@),
        ensures
            match r {
                Ok(cfg) => {
                    &&& first_duplicate(manifest.repos@).is_none()
                    &&& cfg.manifest == manifest
                    &&& cfg.base_dir@ == base_dir_for(match parent { Some(p) => Some(p@), None => None })
                    &&& cfg.wf()
                },
                Err(e) => match first_duplicate(manifest.repos@) {
                    Some(j) => e == Error::DuplicateRepo(manifest.repos@[j].name),
                    None => false,
                },
            },
    {
        let mut j: usize = 0;
        while j < manifest.repos.len()
            invariant
                j <= manifest.repos@.len(),
                first_duplicate(manifest.repos@.take(j as int)).is_none(),
            decreases manifest.repos@.len() - j,
        {
            let ghost prefix = manifest.repos@.take(j as int);
            let mut i: usize = 0;
            while i < j && manifest.repos[i].name != manifest.repos[j].name
                invariant
                    j < manifest.repos@.len(),
                    i <= j,
                    prefix == manifest.repos@.take(j as int),
                    forall|k: int| 0 <= k < i ==> prefix[k].name@ != manifest.repos@[j as int].name@,
                decreases j - i,
            {
                i += 1;
            }
            let ghost next = manifest.repos@.take(j + 1);
            proof {
                assert(next.drop_last() == prefix);
                lemma_repo_index(prefix, manifest.repos@[j as int].name@);
            }
            if i < j {
                proof {
                    assert(prefix[i as int].name@ == manifest.repos@[j as int].name@);
                    assert(first_duplicate(next) == Some(j as int));
                    lemma_first_duplicate_prefix(manifest.repos@, j as int + 1);
                }
                let name = manifest.repos[j].name.clone();
                return Err(Error::DuplicateRepo(name));
            }
            j += 1;
        }
        assert(manifest.repos@.take(manifest.repos@.len() as int) == manifest.repos@);
        proof { lemma_first_duplicate(manifest.repos@); }
        let base_dir = match parent {
            Some(p) => if !p.as_str().is_empty() { p } else { String::from_str(".") },
            None => String::from_str("."),
        };
        proof { reveal_strlit("."); }
        Ok(Config { manifest, base_dir })
    }

    /// Loads the configuration for the manifest text already parsed into
    /// `manifest`, found at `path`: its base directory is the parent of
    /// `path` (or `.`). Each repository's actions come keyed by name, in
    /// order.
    pub fn new(manifest: Manifest, path: &str) -> (r: Result<Config, Error>)
        requires
            actions_sorted(manifest.repos@),
        ensures
            match r {
                Ok(cfg) => {
                    &&& first_duplicate(manifest.repos@).is_none()
                    &&& cfg.manifest == manifest
                    &&& cfg.base_dir@ == base_dir_for(path_parent(path@))
                    &&& cfg.wf()
                },
                Err(e) => match first_duplicate(manifest.repos@) {
                    Some(j) => e == Error::DuplicateRepo(manifest.repos@[j].name),
                    None => false,
                },
            },
    {
        let parent = parent_of(path);
        Config::from_parent(manifest, parent)
    }

    /// The index of the first task called `action`.
    pub open spec fn task_index(&self, action: Seq<char>) -> Option<int> {
        first_where(self.manifest.tasks@, |t: TaskDef| t.name@ == action)
    }

    /// The display that the task `action` runs in, if the manifest gives one.
    pub fn task_display(&self, action: &str) -> (r: Option<String>)
        ensures
            match self.task_index(action@) {
                Some(i) => r == self.manifest.tasks@[i].display,
                None => r.is_none(),
            },
    {
        match self.task_position(action) {
            Some(i) => self.manifest.tasks[i].display.clone(),
            None => None,
        }
    }

    /// The tmux layout of the task `action`, if the manifest gives one.
    pub fn task_layout(&self, action: &str) -> (r: Option<String>)
        ensures
            match self.task_index(action@) {
                Some(i) => r == self.manifest.tasks@[i].layout,
                None => r.is_none(),
            },
    {
        match self.task_position(action) {
            Some(i) => self.manifest.tasks[i].layout.clone(),
            None => None,
        }
    }

    fn task_position(&self, action: &str) -> (r: Option<usize>)
        ensures
            match r {
                Some(i) => i < self.manifest.tasks@.len() && self.task_index(action@) == Some(i as int),
                None => self.task_index(action@).is_none(),
            },
    {
        let target = String::from_str(action);
        let ghost p = |t: TaskDef| t.name@ == action@;
        proof { lemma_first_where(self.manifest.tasks@, p); }
        let mut i: usize = 0;
        while i < self.manifest.tasks.len()
            invariant
                i <= self.manifest.tasks@.len(),
                target@ == action@,
                p == (|t: TaskDef| t.name@ == action@),
                forall|k: int| 0 <= k < i ==> !p(#[trigger] self.manifest.tasks@[k]),
                match first_where(self.manifest.tasks@, p) {
                    Some(f) => 0 <= f < self.manifest.tasks@.len() && p(self.manifest.tasks@[f])
                        && forall|j: int| 0 <= j < f ==> !p(#[trigger] self.manifest.tasks@[j]),
                    None => forall|j: int| 0 <= j < self.manifest.tasks@.len() ==> !p(#[trigger] self.manifest.tasks@[j]),
                },
            decreases self.manifest.tasks@.len() - i,
        {
            if self.manifest.tasks[i].name == target {
                return Some(i);
            }
            i += 1;
        }
        None
    }

    /// The e-mail domains allowed for `repo`: the repository's own policy
    /// (`email_domain` and/or `email_domains`) when it sets one, otherwise the
    /// manifest's; each domain in lower case, the single one first.
    pub fn allowed_domains(&self, repo: &Repo) -> (r: Vec<String>)
        ensures
            views_of(r@) == (if repo.email_domain.is_some() || repo.email_domains@.len() > 0 {
                domain_policy(repo.email_domain, repo.email_domains@)
            } else {
                domain_policy(self.manifest.email_domain, self.manifest.email_domains@)
            }),
    {
        if repo.email_domain.is_some() || repo.email_domains.len() > 0 {
            policy_list(&repo.email_domain, &repo.email_domains)
        } else {
            policy_list(&self.manifest.email_domain, &self.manifest.email_domains)
        }
    }

    /// Selects repositories by name, preserving manifest order. An empty
    /// filter selects every repository. An unknown name is refused: the
    /// first one in `names`.
    pub fn select(&self, names: &[String]) -> (r: Result<Vec<&Repo>, Error>)
        ensures
            match r {
                Ok(v) => first_unknown(self.manifest.repos@, names@).is_none()
                    && v@.map_values(|x: &Repo| *x) == selection(self.manifest.repos@, names@),
                Err(e) => first_unknown(self.manifest.repos@, names@) matches Some(k)
                    && (e matches Error::UnknownRepo(n) && n@ == names@[k]@),
            },
    {
        let ghost p = |n: String| repo_index(self.manifest.repos@, n@).is_none();
        proof { lemma_first_where(names@, p); }
        let mut i: usize = 0;
        while i < names.len()
            invariant
                i <= names@.len(),
                p == (|n: String| repo_index(self.manifest.repos@, n@).is_none()),
                forall|k: int| 0 <= k < i ==> !p(#[trigger] names@[k]),
                match first_where(names@, p) {
                    Some(f) => 0 <= f < names@.len() && p(names@[f])
                        && forall|j: int| 0 <= j < f ==> !p(#[trigger] names@[j]),
                    None => forall|j: int| 0 <= j < names@.len() ==> !p(#[trigger] names@[j]),
                },
            decreases names@.len() - i,
        {
            match self.find_repo(names[i].as_str()) {
                Ok(_) => {},
                Err(e) => {
                    return Err(e);
                },
            }
            i += 1;
        }
        let ghost repos = self.manifest.repos@;
        let mut out: Vec<&Repo> = Vec::new();
        let mut j: usize = 0;
        while j < self.manifest.repos.len()
            invariant
                repos == self.manifest.repos@,
                j <= repos.len(),
                out@.map_values(|x: &Repo| *x) == picked(repos.take(j as int), names@),
            decreases repos.len() - j,
        {
            let repo = &self.manifest.repos[j];
            let wanted = names.len() == 0 || is_named(names, repo.name.as_str());
            assert(repos.take(j + 1).drop_last() == repos.take(j as int));
            assert(repos.take(j + 1).last() == *repo);
            if wanted {
                let ghost before = out@.map_values(|x: &Repo| *x);
                out.push(repo);
                assert(out@.map_values(|x: &Repo| *x) =~= before.push(*repo));
            }
            j += 1;
        }
        assert(repos.take(repos.len() as int) == repos);
        Ok(out)
    }

    /// Absolute (or manifest-relative) directory of a repository.
    pub fn repo_dir(&self, repo: &Repo) -> (r: String)
        ensures
            r@ == joined(self.base_dir@, repo.path@),
    {
        join_path(self.base_dir.as_str(), repo.path.as_str())
    }

    /// The repository called `name`.
    pub fn find_repo(&self, name: &str) -> (r: Result<&Repo, Error>)
        ensures
            match r {
                Ok(repo) => repo_index(self.manifest.repos@, name@) matches Some(i)
                    && *repo == self.manifest.repos@[i],
                Err(e) => repo_index(self.manifest.repos@, name@).is_none()
                    && (e matches Error::UnknownRepo(n) && n@ == name@),
            },
    {
        let mut i: usize = 0;
        let target = String::from_str(name);
        proof { lemma_repo_index(self.manifest.repos@, name@); }
        while i < self.manifest.repos.len()
            invariant
                i <= self.manifest.repos@.len(),
                forall|k: int| 0 <= k < i ==> self.manifest.repos@[k].name@ != name@,
                target@ == name@,
            decreases self.manifest.repos@.len() - i,
        {
            if self.manifest.repos[i].name == target {
                proof { lemma_repo_index(self.manifest.repos@, name@); }
                return Ok(&self.manifest.repos[i]);
            }
            i += 1;
        }
        Err(Error::UnknownRepo(String::from_str(name)))
    }
}

} // verus!
