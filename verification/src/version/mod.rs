//! Versions across the constellation: reading and writing them, choosing a
//! common one, bumping a component and propagating it to dependents.
use vstd::prelude::*;
use vstd::string::*;

use crate::config::{joined, Config, Lang, Repo, repo_index, lemma_repo_index};
use crate::error::{Error, ErrorView};
use crate::git::opt_view;
use crate::text::{views_of, chars_of, decimal, decimal_chars, lemma_trim_line, string_of, trim_ws, white_space};

use cpp::{cpp_version, cpp_written, repin_from};
use repinning::pin_ok;
use rust::{edit_dependencies, requires_everywhere, package_read, toml_package_field, toml_package_has, toml_parses, toml_with_package_version};
use semantic::semver_char;

pub mod cpp;
pub mod repinning;
pub mod rust;
pub mod semantic;

use semantic::{compare_semver, numbers_lt, parse_semver, semver_order, semver_parse};

verus! {

/// How to compute a component's new version in `bump`.
#[derive(Debug)]
pub enum Bump {
    Major,
    Minor,
    Patch,
    To(String),
}

/// The bump that the flags of `version bump` ask for: an explicit version
/// first, then `--major`, then `--minor`; a patch bump otherwise.
pub fn bump_kind(major: bool, minor: bool, to: Option<String>) -> (r: Bump)
    ensures
        match to {
            Some(v) => r matches Bump::To(w) && w@ == v@,
            None => if major { r is Major } else if minor { r is Minor } else { r is Patch },
        },
{
    match to {
        Some(v) => Bump::To(v),
        None => {
            if major {
                Bump::Major
            } else if minor {
                Bump::Minor
            } else {
                Bump::Patch
            }
        },
    }
}

/// A repository's resolved version, plus where it came from.
#[derive(Debug)]
pub struct VersionInfo {
    pub name: String,
    pub lang: Lang,
    pub version: Option<String>,
}

/// Refuses a text that is not a semver version.
pub fn validate_semver(v: &str) -> (r: Result<(), Error>)
    ensures
        match r {
            Ok(()) => semver_parse(v@).is_some() && v@.len() > 0
                && forall|i: int| 0 <= i < v@.len() ==> semver_char(#[trigger] v@[i]),
            Err(e) => semver_parse(v@).is_none() && (e matches Error::InvalidSemver(s) && s@ == v@),
        },
{
    match parse_semver(v) {
        None => Err(Error::InvalidSemver(String::from_str(v))),
        Some(_) => Ok(()),
    }
}

/// `major.minor.patch` in decimal, as `semver::Version` displays a version
/// without pre-release or build metadata.
pub open spec fn release_text(major: nat, minor: nat, patch: nat) -> Seq<char> {
    decimal(major) + "."@ + decimal(minor) + "."@ + decimal(patch)
}

/// The version after bumping `(major, minor, patch)`; `None` when a number
/// would leave `u64`.
pub open spec fn bumped(numbers: (u64, u64, u64), how: Bump) -> Option<Seq<char>> {
    let (major, minor, patch) = numbers;
    match how {
        Bump::Major => if major < u64::MAX { Some(release_text((major + 1) as nat, 0, 0)) } else { None },
        Bump::Minor => if minor < u64::MAX { Some(release_text(major as nat, (minor + 1) as nat, 0)) } else { None },
        Bump::Patch => if patch < u64::MAX { Some(release_text(major as nat, minor as nat, (patch + 1) as nat)) } else { None },
        Bump::To(_) => None,
    }
}

fn release_string(major: u64, minor: u64, patch: u64) -> (r: String)
    ensures
        r@ == release_text(major as nat, minor as nat, patch as nat),
{
    let a = string_of(decimal_chars(major).as_slice());
    let b = string_of(decimal_chars(minor).as_slice());
    let c = string_of(decimal_chars(patch).as_slice());
    a.concat(".").concat(b.as_str()).concat(".").concat(c.as_str())
}

/// What applying `how` to the version `current` gives: `To` takes its
/// target when it is semver; `Major`, `Minor` and `Patch` need `current` to
/// be semver and increment that number, zero the lower ones and drop
/// pre-release and build metadata.
pub open spec fn bump_outcome(current: Seq<char>, how: Bump) -> Result<Seq<char>, ErrorView> {
    match how {
        Bump::To(v) => if semver_parse(v@).is_some() { Ok(v@) } else { Err(ErrorView::InvalidSemver(v@)) },
        _ => match semver_parse(current) {
            None => Err(ErrorView::CurrentNotSemver(current)),
            Some(numbers) => match bumped(numbers, how) {
                Some(t) => Ok(t),
                None => Err(ErrorView::VersionOverflow(current)),
            },
        },
    }
}

/// Applies a `Bump` to a semver string (see `bump_outcome`).
pub fn apply_bump(current: &str, how: &Bump) -> (r: Result<String, Error>)
    ensures
        match r {
            Ok(n) => bump_outcome(current@, *how) == Ok::<Seq<char>, ErrorView>(n@),
            Err(e) => bump_outcome(current@, *how) == Err::<Seq<char>, ErrorView>(e@),
        },
{
    if let Bump::To(v) = how {
        match validate_semver(v.as_str()) {
            Ok(()) => return Ok(v.clone()),
            Err(e) => return Err(e),
        }
    }
    let (major, minor, patch) = match parse_semver(current) {
        Some(n) => n,
        None => return Err(Error::CurrentNotSemver(String::from_str(current))),
    };
    match how {
        Bump::Major => {
            if major == u64::MAX {
                return Err(Error::VersionOverflow(String::from_str(current)));
            }
            Ok(release_string(major + 1, 0, 0))
        },
        Bump::Minor => {
            if minor == u64::MAX {
                return Err(Error::VersionOverflow(String::from_str(current)));
            }
            Ok(release_string(major, minor + 1, 0))
        },
        Bump::Patch => {
            if patch == u64::MAX {
                return Err(Error::VersionOverflow(String::from_str(current)));
            }
            Ok(release_string(major, minor, patch + 1))
        },
        Bump::To(_) => Err(Error::CurrentNotSemver(String::from_str(current))),
    }
}

/// The versions of the infos (`None` where a repository has none).
pub open spec fn versions_of(infos: Seq<VersionInfo>) -> Seq<Option<Seq<char>>> {
    infos.map_values(|i: VersionInfo| opt_view(i.version))
}

/// The versions that are present, in order.
pub open spec fn present_versions(vs: Seq<Option<Seq<char>>>) -> Seq<Seq<char>>
    decreases vs.len(),
{
    if vs.len() == 0 {
        Seq::empty()
    } else {
        let rest = present_versions(vs.drop_last());
        match vs.last() {
            Some(v) => rest.push(v),
            None => rest,
        }
    }
}

/// The version shared by all repos that have one, if there is at least one
/// and they agree.
pub open spec fn consensus_of(vs: Seq<Option<Seq<char>>>) -> Option<Seq<char>> {
    let p = present_versions(vs);
    if p.len() > 0 && forall|i: int| 0 <= i < p.len() ==> #[trigger] p[i] == p[0] {
        Some(p[0])
    } else {
        None
    }
}

/// Some repository has the version `v`, and every repository that has a
/// version has `v`.
pub open spec fn all_at(vs: Seq<Option<Seq<char>>>, v: Seq<char>) -> bool {
    &&& exists|i: int| 0 <= i < vs.len() && #[trigger] vs[i] == Some(v)
    &&& forall|i: int| 0 <= i < vs.len() && (#[trigger] vs[i]) is Some ==> vs[i] == Some(v)
}

/// The present versions are those of the repositories that have one.
proof fn lemma_present_versions(vs: Seq<Option<Seq<char>>>)
    ensures
        forall|k: int| 0 <= k < present_versions(vs).len()
            ==> exists|i: int| 0 <= i < vs.len() && #[trigger] vs[i] == Some(#[trigger] present_versions(vs)[k]),
        forall|i: int| 0 <= i < vs.len() && (#[trigger] vs[i]) is Some
            ==> exists|k: int| 0 <= k < present_versions(vs).len() && #[trigger] present_versions(vs)[k] == vs[i]->Some_0,
    decreases vs.len(),
{
    if vs.len() > 0 {
        let init = vs.drop_last();
        lemma_present_versions(init);
        let rest = present_versions(init);
        let p = present_versions(vs);
        assert forall|k: int| 0 <= k < p.len()
            implies exists|i: int| 0 <= i < vs.len() && #[trigger] vs[i] == Some(#[trigger] p[k]) by {
            if k < rest.len() {
                assert(p[k] == rest[k]);
                let i = choose|i: int| 0 <= i < init.len() && #[trigger] init[i] == Some(rest[k]);
                assert(vs[i] == init[i]);
            } else {
                assert(vs[vs.len() - 1] == Some(p[k]));
            }
        }
        assert forall|i: int| 0 <= i < vs.len() && (#[trigger] vs[i]) is Some
            implies exists|k: int| 0 <= k < p.len() && #[trigger] p[k] == vs[i]->Some_0 by {
            if i < init.len() {
                assert(init[i] == vs[i]);
                let k = choose|k: int| 0 <= k < rest.len() && #[trigger] rest[k] == init[i]->Some_0;
                assert(p[k] == rest[k]);
            } else {
                assert(p[rest.len() as int] == vs[i]->Some_0);
            }
        }
    }
}

/// The consensus is `v` exactly when some repository has the version `v`
/// and every repository that has a version has `v`: one differing version
/// anywhere leaves no consensus.
pub proof fn lemma_consensus_exact(vs: Seq<Option<Seq<char>>>, v: Seq<char>)
    ensures
        consensus_of(vs) == Some(v) <==> all_at(vs, v),
{
    lemma_present_versions(vs);
    let p = present_versions(vs);
    if consensus_of(vs) == Some(v) {
        assert(p[0] == v);
        let i = choose|i: int| 0 <= i < vs.len() && #[trigger] vs[i] == Some(p[0]);
        assert forall|j: int| 0 <= j < vs.len() && (#[trigger] vs[j]) is Some implies vs[j] == Some(v) by {
            let k = choose|k: int| 0 <= k < p.len() && #[trigger] p[k] == vs[j]->Some_0;
        }
    }
    if all_at(vs, v) {
        let i = choose|i: int| 0 <= i < vs.len() && #[trigger] vs[i] == Some(v);
        let k0 = choose|k: int| 0 <= k < p.len() && #[trigger] p[k] == vs[i]->Some_0;
        assert forall|k: int| 0 <= k < p.len() implies #[trigger] p[k] == v by {
            let j = choose|j: int| 0 <= j < vs.len() && #[trigger] vs[j] == Some(p[k]);
        }
        assert(p[0] == v);
    }
}

/// The version shared by all repos that have one, if they agree: `Some(v)`
/// exactly when some repository has `v` and every one with a version has `v`.
pub fn consensus(infos: &[VersionInfo]) -> (r: Option<String>)
    ensures
        opt_view(r) == consensus_of(versions_of(infos@)),
        r matches Some(v) ==> all_at(versions_of(infos@), v@),
        r is None ==> forall|v: Seq<char>| !#[trigger] all_at(versions_of(infos@), v),
{
    proof {
        assert forall|v: Seq<char>| #[trigger] all_at(versions_of(infos@), v) <==> consensus_of(versions_of(infos@)) == Some(v) by {
            lemma_consensus_exact(versions_of(infos@), v);
        }
    }
    let ghost all = versions_of(infos@);
    let mut first: Option<String> = None;
    let mut agree = true;
    let mut i: usize = 0;
    while i < infos.len()
        invariant
            i <= infos@.len(),
            all == versions_of(infos@),
            ({
                let vs = present_versions(all.take(i as int));
                &&& (vs.len() == 0 <==> first.is_none())
                &&& (first matches Some(f) ==> f@ == vs[0])
                &&& agree == forall|k: int| 0 <= k < vs.len() ==> #[trigger] vs[k] == vs[0]
            }),
        decreases infos@.len() - i,
    {
        let ghost before = present_versions(all.take(i as int));
        assert(all.take(i + 1).drop_last() == all.take(i as int));
        assert(all.take(i + 1).last() == opt_view(infos@[i as int].version));
        match &infos[i].version {
            Some(v) => {
                match &first {
                    Some(f) => {
                        if *v != *f {
                            agree = false;
                        }
                    },
                    None => {
                        first = Some(v.clone());
                    },
                }
                proof {
                    let vs = present_versions(all.take(i + 1));
                    assert(vs == before.push(v@));
                    if before.len() > 0 {
                        assert(vs[0] == before[0]);
                        assert((forall|k: int| 0 <= k < vs.len() ==> #[trigger] vs[k] == vs[0])
                            == ((forall|k: int| 0 <= k < before.len() ==> #[trigger] before[k] == before[0]) && v@ == before[0])) by {
                            if forall|k: int| 0 <= k < vs.len() ==> #[trigger] vs[k] == vs[0] {
                                assert forall|k: int| 0 <= k < before.len() implies #[trigger] before[k] == before[0] by {
                                    assert(vs[k] == before[k]);
                                }
                                assert(vs[before.len() as int] == v@);
                            }
                            if (forall|k: int| 0 <= k < before.len() ==> #[trigger] before[k] == before[0]) && v@ == before[0] {
                                assert forall|k: int| 0 <= k < vs.len() implies #[trigger] vs[k] == vs[0] by {
                                    if k < before.len() { assert(vs[k] == before[k]); }
                                }
                            }
                        }
                    } else {
                        assert(vs.len() == 1);
                    }
                }
            },
            None => {
                assert(present_versions(all.take(i + 1)) == before);
            },
        }
        i += 1;
    }
    assert(all.take(infos@.len() as int) == all);
    if agree { first } else { None }
}

/// The last maximum (under `semver_order`) of the parseable versions among
/// the first `n`, as `Iterator::max_by` picks it.
pub open spec fn highest_upto(vs: Seq<Option<Seq<char>>>, n: int) -> Option<Seq<char>>
    decreases n,
{
    if n <= 0 || n > vs.len() {
        None
    } else {
        let best = highest_upto(vs, n - 1);
        match vs[n - 1] {
            Some(v) => if semver_parse(v).is_some() {
                match best {
                    Some(b) => if semver_order(b, v) == 1 { Some(b) } else { Some(v) },
                    None => Some(v),
                }
            } else {
                best
            },
            None => best,
        }
    }
}

/// The highest version among `vs`: among versions that parse, the greatest,
/// and the last of equally great ones.
pub open spec fn highest_of(vs: Seq<Option<Seq<char>>>) -> Option<Seq<char>> {
    highest_upto(vs, vs.len() as int)
}

/// What `highest_upto` picks parses as a version.
pub proof fn lemma_highest_parses(vs: Seq<Option<Seq<char>>>, n: int)
    ensures
        highest_upto(vs, n) matches Some(b) ==> semver_parse(b).is_some(),
    decreases n,
{
    if n > 0 && n <= vs.len() {
        lemma_highest_parses(vs, n - 1);
    }
}

/// How a repository's version compares with the common one in the version
/// table.
#[derive(Debug, Clone, Copy, PartialEq, Eq, Structural)]
pub enum Marker {
    /// It has the common version.
    Agrees,
    /// It has a version, and there is a common one, but they differ.
    Differs,
    /// It has no version, or there is no common one.
    Unknown,
}

/// The marker of a repository with version `version` against `target`.
pub open spec fn marker_of(version: Option<Seq<char>>, target: Option<Seq<char>>) -> Marker {
    match (version, target) {
        (Some(v), Some(t)) => if v == t { Marker::Agrees } else { Marker::Differs },
        _ => Marker::Unknown,
    }
}

/// Compares a repository's version with the common one.
pub fn marker(version: &Option<String>, target: &Option<String>) -> (r: Marker)
    ensures
        r == marker_of(opt_view(*version), opt_view(*target)),
{
    match (version, target) {
        (Some(v), Some(t)) => if *v == *t { Marker::Agrees } else { Marker::Differs },
        _ => Marker::Unknown,
    }
}

/// `name=version` for each repository that has a version, in order.
pub open spec fn version_pairs_of(infos: Seq<VersionInfo>) -> Seq<Seq<char>>
    decreases infos.len(),
{
    if infos.len() == 0 {
        Seq::empty()
    } else {
        let rest = version_pairs_of(infos.drop_last());
        match infos.last().version {
            Some(v) => rest.push(infos.last().name@ + "="@ + v@),
            None => rest,
        }
    }
}

/// The `name=version` pairs listed when the versions are out of sync.
pub fn version_pairs(infos: &[VersionInfo]) -> (r: Vec<String>)
    ensures
        views_of(r@) == version_pairs_of(infos@),
{
    let mut out: Vec<String> = Vec::new();
    let mut i: usize = 0;
    while i < infos.len()
        invariant
            i <= infos@.len(),
            views_of(out@) == version_pairs_of(infos@.take(i as int)),
        decreases infos@.len() - i,
    {
        assert(infos@.take(i + 1).drop_last() == infos@.take(i as int));
        match &infos[i].version {
            Some(v) => {
                let ghost before = views_of(out@);
                let pair = infos[i].name.clone().concat("=").concat(v.as_str());
                out.push(pair);
                assert(views_of(out@) =~= before.push(infos@[i as int].name@ + "="@ + v@));
            },
            None => {},
        }
        i += 1;
    }
    assert(infos@.take(infos@.len() as int) == infos@);
    out
}

/// `t` is one of the versions `vs`, parses, and no version of `vs` that
/// parses has greater `(major, minor, patch)`.
pub open spec fn is_highest(vs: Seq<Option<Seq<char>>>, t: Seq<char>) -> bool {
    &&& semver_parse(t) is Some
    &&& exists|i: int| 0 <= i < vs.len() && #[trigger] vs[i] == Some(t)
    &&& forall|i: int| 0 <= i < vs.len() && (#[trigger] vs[i]) is Some && semver_parse(vs[i]->Some_0) is Some
        ==> !numbers_lt(semver_parse(t)->Some_0, semver_parse(vs[i]->Some_0)->Some_0)
}

/// None of the versions `vs` parses.
pub open spec fn none_parse(vs: Seq<Option<Seq<char>>>) -> bool {
    forall|i: int| 0 <= i < vs.len() && (#[trigger] vs[i]) is Some ==> semver_parse(vs[i]->Some_0) is None
}

/// Highest semver among the repos (used as default sync target): one of
/// their versions that parses, with no parseable version above it in
/// `(major, minor, patch)`; `None` exactly when no version parses.
pub fn highest(infos: &[VersionInfo]) -> (r: Option<String>)
    ensures
        opt_view(r) == highest_of(versions_of(infos@)),
        r matches Some(t) ==> is_highest(versions_of(infos@), t@),
        r is None <==> none_parse(versions_of(infos@)),
{
    let ghost all = versions_of(infos@);
    let mut best: Option<String> = None;
    let mut i: usize = 0;
    while i < infos.len()
        invariant
            i <= infos@.len(),
            all == versions_of(infos@),
            opt_view(best) == highest_upto(all, i as int),
            best matches Some(b) ==> semver_parse(b@).is_some(),
            best matches Some(b) ==> is_highest(all.take(i as int), b@),
            best is None <==> none_parse(all.take(i as int)),
        decreases infos@.len() - i,
    {
        assert(all[i as int] == opt_view(infos@[i as int].version));
        let ghost prev = all.take(i as int);
        let ghost next = all.take(i + 1);
        assert(next == prev.push(all[i as int]));
        let ghost old_best = opt_view(best);
        match &infos[i].version {
            Some(v) => {
                if parse_semver(v.as_str()).is_some() {
                    let replace = match &best {
                        Some(b) => compare_semver(b.as_str(), v.as_str()) != 1,
                        None => true,
                    };
                    if replace {
                        best = Some(v.clone());
                    }
                    proof {
                        let t = opt_view(best)->Some_0;
                        assert(next[i as int] == Some(v@));
                        assert forall|k: int| 0 <= k < next.len() && (#[trigger] next[k]) is Some && semver_parse(next[k]->Some_0) is Some
                            implies !numbers_lt(semver_parse(t)->Some_0, semver_parse(next[k]->Some_0)->Some_0) by {
                            if k < i {
                                assert(next[k] == prev[k]);
                            }
                        }
                        if replace {
                            assert(next[i as int] == Some(t));
                        } else {
                            let j = choose|j: int| 0 <= j < prev.len() && #[trigger] prev[j] == Some(t);
                            assert(next[j] == Some(t));
                        }
                    }
                } else {
                    proof {
                        assert forall|k: int| 0 <= k < next.len() && (#[trigger] next[k]) is Some && semver_parse(next[k]->Some_0) is Some
                            implies k < i by {}
                        if best is Some {
                            let t = opt_view(best)->Some_0;
                            let j = choose|j: int| 0 <= j < prev.len() && #[trigger] prev[j] == Some(t);
                            assert(next[j] == Some(t));
                            assert forall|k: int| 0 <= k < next.len() && (#[trigger] next[k]) is Some && semver_parse(next[k]->Some_0) is Some
                                implies !numbers_lt(semver_parse(t)->Some_0, semver_parse(next[k]->Some_0)->Some_0) by {
                                assert(next[k] == prev[k]);
                            }
                        }
                        assert forall|k: int| 0 <= k < next.len() && (#[trigger] next[k]) is Some && best is None
                            implies semver_parse(next[k]->Some_0) is None by {
                            if k < i { assert(next[k] == prev[k]); }
                        }
                    }
                }
            },
            None => {
                proof {
                    if best is Some {
                        let t = opt_view(best)->Some_0;
                        let j = choose|j: int| 0 <= j < prev.len() && #[trigger] prev[j] == Some(t);
                        assert(next[j] == Some(t));
                    }
                    assert forall|k: int| 0 <= k < next.len() && (#[trigger] next[k]) is Some implies k < i && next[k] == prev[k] by {}
                }
            },
        }
        i += 1;
    }
    assert(all.take(infos@.len() as int) == all);
    best
}


// ---------------------------------------------------------------------------
// Reading and writing one repository
// ---------------------------------------------------------------------------

/// The contents of a repository's version files, as read from disk (`None`
/// for a file that does not exist).
#[derive(Debug)]
pub struct RepoFiles {
    /// `Cargo.toml` (Rust repositories).
    pub cargo: Option<String>,
    /// The plain version file (C++ repositories).
    pub version_file: Option<String>,
    /// The CMake file (C++ repositories).
    pub cmake: Option<String>,
}

/// New contents for a repository's version files (`None`: leave the file alone).
#[derive(Debug)]
pub struct RepoWrite {
    pub cargo: Option<String>,
    pub version_file: Option<String>,
    pub cmake: Option<String>,
}

/// The three files of a repository, each by its characters.
pub struct FilesView {
    pub cargo: Option<Seq<char>>,
    pub version_file: Option<Seq<char>>,
    pub cmake: Option<Seq<char>>,
}

impl View for RepoFiles {
    type V = FilesView;

    open spec fn view(&self) -> FilesView {
        FilesView { cargo: opt_view(self.cargo), version_file: opt_view(self.version_file), cmake: opt_view(self.cmake) }
    }
}

impl View for RepoWrite {
    type V = FilesView;

    open spec fn view(&self) -> FilesView {
        FilesView { cargo: opt_view(self.cargo), version_file: opt_view(self.version_file), cmake: opt_view(self.cmake) }
    }
}

/// The files after the writes `w`.
pub open spec fn written(f: FilesView, w: FilesView) -> FilesView {
    FilesView {
        cargo: if w.cargo.is_some() { w.cargo } else { f.cargo },
        version_file: if w.version_file.is_some() { w.version_file } else { f.version_file },
        cmake: if w.cmake.is_some() { w.cmake } else { f.cmake },
    }
}

/// The version of a repository: Rust reads `[package].version` of
/// `Cargo.toml` (refusing one that does not parse); C++ reads the version
/// file, falling back to the CMake `project()` version.
pub open spec fn repo_read(base: Seq<char>, repo: Repo, f: FilesView) -> Result<Option<Seq<char>>, ErrorView> {
    match repo.lang {
        Lang::Rust => match package_read(joined(base, repo.path@), f.cargo, "version"@) {
            Ok(v) => Ok(v),
            Err(p) => Err(ErrorView::TomlParse(p)),
        },
        Lang::Cpp => Ok(cpp_version(f.version_file, f.cmake)),
    }
}

/// What writing `version` into a repository writes: Rust sets
/// `[package].version` (refusing a missing or unparseable `Cargo.toml`, or
/// one without that key); C++ writes the version file and patches CMake.
pub open spec fn repo_write(base: Seq<char>, repo: Repo, f: FilesView, version: Seq<char>) -> Result<FilesView, ErrorView> {
    match repo.lang {
        Lang::Rust => {
            let dir = joined(base, repo.path@);
            match f.cargo {
                None => Err(ErrorView::NoCargoToml(dir)),
                Some(t) => if !toml_parses(t) {
                    Err(ErrorView::TomlParse(joined(dir, "Cargo.toml"@)))
                } else if !toml_package_has(t, "version"@) {
                    Err(ErrorView::NoPackageVersion(joined(dir, "Cargo.toml"@)))
                } else {
                    Ok(FilesView { cargo: Some(toml_with_package_version(t, version)), version_file: None, cmake: None })
                },
            }
        },
        Lang::Cpp => {
            let (vf, cm) = cpp_written(f.cmake, version);
            Ok(FilesView { cargo: None, version_file: Some(vf), cmake: cm })
        },
    }
}

/// Whether `version` reads back from a version file unchanged: a C++
/// version file is trimmed, so the version must be trimmed and not blank.
pub open spec fn reads_back(repo: Repo, version: Seq<char>) -> bool {
    repo.lang == Lang::Cpp ==> version.len() > 0 && trim_ws(version) == version
}

/// The view of a version read.
pub open spec fn read_result(r: Result<Option<String>, Error>) -> Result<Option<Seq<char>>, ErrorView> {
    match r {
        Ok(v) => Ok(opt_view(v)),
        Err(e) => Err(e@),
    }
}

/// Reads the current version of one repository from its files.
pub fn read_repo(cfg: &Config, repo: &Repo, files: &RepoFiles) -> (r: Result<Option<String>, Error>)
    ensures
        read_result(r) == repo_read(cfg.base_dir@, *repo, files@),
{
    let dir = cfg.repo_dir(repo);
    match repo.lang {
        Lang::Rust => {
            let r = rust::read_version(dir.as_str(), &files.cargo);
            r
        },
        Lang::Cpp => Ok(cpp::read_version(&files.version_file, &files.cmake)),
    }
}

/// Computes what writing a version into one repository writes. Reading the
/// repository after the write gives the version back (for C++, when the
/// version is trimmed and not blank).
pub fn write_repo(cfg: &Config, repo: &Repo, files: &RepoFiles, version: &str) -> (r: Result<RepoWrite, Error>)
    ensures
        match r {
            Ok(w) => repo_write(cfg.base_dir@, *repo, files@, version@) == Ok::<FilesView, ErrorView>(w@),
            Err(e) => repo_write(cfg.base_dir@, *repo, files@, version@) == Err::<FilesView, ErrorView>(e@),
        },
        (r is Ok && reads_back(*repo, version@))
            ==> repo_read(cfg.base_dir@, *repo, written(files@, r->Ok_0@)) == Ok::<Option<Seq<char>>, ErrorView>(Some(version@)),
{
    let dir = cfg.repo_dir(repo);
    match repo.lang {
        Lang::Rust => {
            match rust::write_version(dir.as_str(), &files.cargo, version) {
                Ok(t) => Ok(RepoWrite { cargo: Some(t), version_file: None, cmake: None }),
                Err(e) => Err(e),
            }
        },
        Lang::Cpp => {
            let (vf, cm) = cpp::write_version(&files.cmake, version);
            proof {
                if reads_back(*repo, version@) {
                    lemma_trim_line(version@);
                }
            }
            Ok(RepoWrite { cargo: None, version_file: Some(vf), cmake: cm })
        },
    }
}

/// The version read, or `None` when reading failed.
pub open spec fn read_or_none(r: Result<Option<Seq<char>>, ErrorView>) -> Option<Seq<char>> {
    match r {
        Ok(v) => v,
        Err(_) => None,
    }
}

/// The versions of all repositories, `None` where one has none or reading failed.
pub open spec fn read_versions(base: Seq<char>, repos: Seq<Repo>, files: Seq<RepoFiles>) -> Seq<Option<Seq<char>>> {
    Seq::new(repos.len(), |i: int| read_or_none(repo_read(base, repos[i], files[i]@)))
}

/// Collects the version of every repository in the manifest (`None` where
/// it has none or it cannot be read). `files[i]` holds the files of the
/// `i`-th repository.
pub fn collect(cfg: &Config, files: &Vec<RepoFiles>) -> (r: Vec<VersionInfo>)
    requires
        files@.len() == cfg.manifest.repos@.len(),
    ensures
        r@.len() == cfg.manifest.repos@.len(),
        forall|i: int| 0 <= i < r@.len() ==> (#[trigger] r@[i]).name@ == cfg.manifest.repos@[i].name@
            && r@[i].lang == cfg.manifest.repos@[i].lang,
        versions_of(r@) == read_versions(cfg.base_dir@, cfg.manifest.repos@, files@),
{
    let mut out: Vec<VersionInfo> = Vec::new();
    let mut i: usize = 0;
    while i < cfg.manifest.repos.len()
        invariant
            files@.len() == cfg.manifest.repos@.len(),
            i <= cfg.manifest.repos@.len(),
            out@.len() == i,
            forall|k: int| 0 <= k < i ==> (#[trigger] out@[k]).name@ == cfg.manifest.repos@[k].name@
                && out@[k].lang == cfg.manifest.repos@[k].lang,
            forall|k: int| 0 <= k < i ==> opt_view((#[trigger] out@[k]).version)
                == read_or_none(repo_read(cfg.base_dir@, cfg.manifest.repos@[k], files@[k]@)),
        decreases cfg.manifest.repos@.len() - i,
    {
        let repo = &cfg.manifest.repos[i];
        let version = match read_repo(cfg, repo, &files[i]) {
            Ok(v) => v,
            Err(_) => None,
        };
        out.push(VersionInfo { name: repo.name.clone(), lang: repo.lang, version });
        i += 1;
    }
    assert(versions_of(out@) =~= read_versions(cfg.base_dir@, cfg.manifest.repos@, files@));
    out
}

// ---------------------------------------------------------------------------
// Setting one version everywhere
// ---------------------------------------------------------------------------

/// What happens to one repository when a version is applied.
#[derive(Debug)]
pub enum ApplyStep {
    /// The repository is already at the version.
    Already,
    /// The repository is written; `before` is the version it had.
    Write { before: Option<String>, write: RepoWrite },
}

/// The steps of applying a version, one per repository in manifest order,
/// up to the first repository that cannot be written (`error`).
#[derive(Debug)]
pub struct ApplyPlan {
    pub steps: Vec<ApplyStep>,
    pub error: Option<Error>,
}

/// Whether `step` is what applying `version` does to a repository with
/// files `f`: nothing when it already reads `version`, else a write.
pub open spec fn step_for(base: Seq<char>, repo: Repo, f: FilesView, version: Seq<char>, step: ApplyStep) -> bool {
    let before = read_or_none(repo_read(base, repo, f));
    if before == Some(version) {
        step is Already
    } else {
        step matches ApplyStep::Write { before: b, write: w }
            && opt_view(b) == before && repo_write(base, repo, f, version) == Ok::<FilesView, ErrorView>(w@)
    }
}

/// The files of a repository after its step.
pub open spec fn after_step(f: FilesView, step: ApplyStep) -> FilesView {
    match step {
        ApplyStep::Already => f,
        ApplyStep::Write { before: _, write: w } => written(f, w@),
    }
}

/// Whether `plan` is the plan for applying `version` to every repository.
pub open spec fn apply_plan_for(cfg: Config, files: Seq<RepoFiles>, version: Seq<char>, plan: ApplyPlan) -> bool {
    let repos = cfg.manifest.repos@;
    let n = plan.steps@.len();
    &&& n <= repos.len()
    &&& forall|i: int| 0 <= i < n ==> step_for(cfg.base_dir@, repos[i], files[i]@, version, #[trigger] plan.steps@[i])
    &&& match plan.error {
        None => n == repos.len(),
        Some(e) => n < repos.len()
            && read_or_none(repo_read(cfg.base_dir@, repos[n as int], files[n as int]@)) != Some(version)
            && repo_write(cfg.base_dir@, repos[n as int], files[n as int]@, version) == Err::<FilesView, ErrorView>(e@),
    }
}

/// After the plan's steps, each repository they cover reads `version` (for
/// C++, when the version reads back from a file).
pub open spec fn plan_reads_back(cfg: Config, files: Seq<RepoFiles>, version: Seq<char>, plan: ApplyPlan) -> bool {
    forall|i: int| 0 <= i < plan.steps@.len() && reads_back(cfg.manifest.repos@[i], version)
        ==> repo_read(cfg.base_dir@, cfg.manifest.repos@[i], after_step(files[i]@, #[trigger] plan.steps@[i]))
            == Ok::<Option<Seq<char>>, ErrorView>(Some(version))
}

/// Plans writing `version` into every repository that does not already
/// read it, in manifest order, stopping at the first that cannot be written.
pub fn apply(cfg: &Config, files: &Vec<RepoFiles>, version: &str) -> (r: ApplyPlan)
    requires
        files@.len() == cfg.manifest.repos@.len(),
    ensures
        apply_plan_for(*cfg, files@, version@, r),
        plan_reads_back(*cfg, files@, version@, r),
{
    let mut steps: Vec<ApplyStep> = Vec::new();
    let target = String::from_str(version);
    let mut i: usize = 0;
    while i < cfg.manifest.repos.len()
        invariant
            files@.len() == cfg.manifest.repos@.len(),
            target@ == version@,
            i <= cfg.manifest.repos@.len(),
            steps@.len() == i,
            forall|k: int| 0 <= k < i ==> step_for(cfg.base_dir@, cfg.manifest.repos@[k], files@[k]@, version@, #[trigger] steps@[k]),
            forall|k: int| 0 <= k < i && reads_back(cfg.manifest.repos@[k], version@)
                ==> repo_read(cfg.base_dir@, cfg.manifest.repos@[k], after_step(files@[k]@, #[trigger] steps@[k]))
                    == Ok::<Option<Seq<char>>, ErrorView>(Some(version@)),
        decreases cfg.manifest.repos@.len() - i,
    {
        let repo = &cfg.manifest.repos[i];
        let before = match read_repo(cfg, repo, &files[i]) {
            Ok(v) => v,
            Err(_) => None,
        };
        let same = match &before {
            Some(b) => *b == target,
            None => false,
        };
        if same {
            steps.push(ApplyStep::Already);
        } else {
            match write_repo(cfg, repo, &files[i], version) {
                Ok(w) => {
                    steps.push(ApplyStep::Write { before, write: w });
                },
                Err(e) => {
                    return ApplyPlan { steps, error: Some(e) };
                },
            }
        }
        i += 1;
    }
    ApplyPlan { steps, error: None }
}

/// A semver version is trimmed: none of its characters is white space.
pub proof fn lemma_semver_trimmed(v: Seq<char>)
    requires
        v.len() > 0,
        forall|i: int| 0 <= i < v.len() ==> semver_char(#[trigger] v[i]),
    ensures
        trim_ws(v) == v,
{
    assert(semver_char(v[0]));
    assert(semver_char(v[v.len() - 1]));
    assert(!white_space(v[0]));
    assert(!white_space(v.last()));
}

/// Sets an explicit (semver) version on every repository: the plan of
/// writes. After it, every repository it covers reads the version.
pub fn set_all(cfg: &Config, files: &Vec<RepoFiles>, version: &str) -> (r: Result<ApplyPlan, Error>)
    requires
        files@.len() == cfg.manifest.repos@.len(),
    ensures
        match r {
            Ok(plan) => semver_parse(version@).is_some()
                && apply_plan_for(*cfg, files@, version@, plan)
                && forall|i: int| 0 <= i < plan.steps@.len()
                    ==> repo_read(cfg.base_dir@, cfg.manifest.repos@[i], after_step(files@[i]@, #[trigger] plan.steps@[i]))
                        == Ok::<Option<Seq<char>>, ErrorView>(Some(version@)),
            Err(e) => semver_parse(version@).is_none() && e@ == ErrorView::InvalidSemver(version@),
        },
{
    match validate_semver(version) {
        Err(e) => Err(e),
        Ok(()) => {
            proof { lemma_semver_trimmed(version@); }
            let plan = apply(cfg, files, version);
            assert forall|i: int| 0 <= i < plan.steps@.len() implies reads_back(cfg.manifest.repos@[i], version@) by {}
            Ok(plan)
        },
    }
}

/// The versions that the repositories covered by `plan` read after its steps.
pub open spec fn versions_after(cfg: Config, files: Seq<RepoFiles>, plan: ApplyPlan) -> Seq<Option<Seq<char>>> {
    Seq::new(
        plan.steps@.len(),
        |i: int| read_or_none(repo_read(cfg.base_dir@, cfg.manifest.repos@[i], after_step(files[i]@, plan.steps@[i]))),
    )
}

/// When every entry is `Some(v)`, the present versions are `v` repeated.
proof fn lemma_present_all(vs: Seq<Option<Seq<char>>>, v: Seq<char>)
    requires
        forall|i: int| 0 <= i < vs.len() ==> #[trigger] vs[i] == Some(v),
    ensures
        present_versions(vs).len() == vs.len(),
        forall|i: int| 0 <= i < vs.len() ==> #[trigger] present_versions(vs)[i] == v,
    decreases vs.len(),
{
    if vs.len() > 0 {
        let init = vs.drop_last();
        assert forall|i: int| 0 <= i < init.len() implies #[trigger] init[i] == Some(v) by {
            assert(init[i] == vs[i]);
        }
        lemma_present_all(init, v);
        assert(vs.last() == vs[vs.len() - 1]);
    }
}

/// Setting one version everywhere synchronises the constellation: when the
/// plan covered every repository (none refused the write) and each of them
/// reads the version afterwards, as `set_all` and `sync` ensure, then the
/// repositories agree on that version.
pub proof fn lemma_apply_synchronises(cfg: Config, files: Seq<RepoFiles>, version: Seq<char>, plan: ApplyPlan)
    requires
        apply_plan_for(cfg, files, version, plan),
        plan.error.is_none(),
        cfg.manifest.repos@.len() > 0,
        forall|i: int| 0 <= i < plan.steps@.len()
            ==> repo_read(cfg.base_dir@, cfg.manifest.repos@[i], after_step(files[i]@, #[trigger] plan.steps@[i]))
                == Ok::<Option<Seq<char>>, ErrorView>(Some(version)),
    ensures
        versions_after(cfg, files, plan).len() == cfg.manifest.repos@.len(),
        consensus_of(versions_after(cfg, files, plan)) == Some(version),
{
    let vs = versions_after(cfg, files, plan);
    assert forall|i: int| 0 <= i < vs.len() implies #[trigger] vs[i] == Some(version) by {
        assert(repo_read(cfg.base_dir@, cfg.manifest.repos@[i], after_step(files[i]@, plan.steps@[i]))
            == Ok::<Option<Seq<char>>, ErrorView>(Some(version)));
    }
    lemma_present_all(vs, version);
    let p = present_versions(vs);
    assert(p[0] == version);
    assert forall|i: int| 0 <= i < p.len() implies #[trigger] p[i] == p[0] by {}
}

/// The version to synchronise to: `--to` if given, otherwise the manifest's
/// `version`, otherwise the highest semver among the repositories.
pub open spec fn sync_target(to: Option<Seq<char>>, manifest_version: Option<Seq<char>>, versions: Seq<Option<Seq<char>>>) -> Option<Seq<char>> {
    match to {
        Some(t) => Some(t),
        None => match manifest_version {
            Some(v) => Some(v),
            None => highest_of(versions),
        },
    }
}

/// Synchronises all repositories to one version (see `sync_target`): the
/// target and the plan of writes. Refuses when there is no target, or it is
/// not semver. After it, every repository it covers reads the target.
pub fn sync(cfg: &Config, files: &Vec<RepoFiles>, to: Option<String>) -> (r: Result<(String, ApplyPlan), Error>)
    requires
        files@.len() == cfg.manifest.repos@.len(),
    ensures
        match sync_target(opt_view(to), opt_view(cfg.manifest.version), read_versions(cfg.base_dir@, cfg.manifest.repos@, files@)) {
            None => r matches Err(e) && e@ == ErrorView::NoSyncTarget,
            Some(t) => if semver_parse(t).is_none() {
                r matches Err(e) && e@ == ErrorView::InvalidSemver(t)
            } else {
                r matches Ok((target, plan)) && target@ == t
                    && apply_plan_for(*cfg, files@, t, plan)
                    && forall|i: int| 0 <= i < plan.steps@.len()
                        ==> repo_read(cfg.base_dir@, cfg.manifest.repos@[i], after_step(files@[i]@, #[trigger] plan.steps@[i]))
                            == Ok::<Option<Seq<char>>, ErrorView>(Some(t))
            },
        },
        (to is None && cfg.manifest.version is None) ==> match r {
            Ok((target, _)) => is_highest(read_versions(cfg.base_dir@, cfg.manifest.repos@, files@), target@),
            Err(e) => none_parse(read_versions(cfg.base_dir@, cfg.manifest.repos@, files@)) && e@ == ErrorView::NoSyncTarget,
        },
{
    let infos = collect(cfg, files);
    let target = match to {
        Some(v) => v,
        None => match &cfg.manifest.version {
            Some(v) => v.clone(),
            None => match highest(infos.as_slice()) {
                Some(h) => h,
                None => return Err(Error::NoSyncTarget),
            },
        },
    };
    match set_all(cfg, files, target.as_str()) {
        Ok(plan) => Ok((target, plan)),
        Err(e) => Err(e),
    }
}

/// The package name a repo exposes to dependents: explicit `provides`, else
/// the Rust crate name, else the repo name.
pub open spec fn provided(base: Seq<char>, repo: Repo, f: FilesView) -> Seq<char> {
    match repo.provides {
        Some(p) => p@,
        None => if repo.lang == Lang::Rust && (package_read(joined(base, repo.path@), f.cargo, "name"@) matches Ok(Some(n))) {
            package_read(joined(base, repo.path@), f.cargo, "name"@)->Ok_0->Some_0
        } else {
            repo.name@
        },
    }
}

/// An explicit `provides` is the name, whatever `Cargo.toml` says; without
/// one, a Rust repository whose `Cargo.toml` parses and names its package
/// exposes that name, and any other repository its own name.
pub proof fn lemma_provided_precedence(base: Seq<char>, repo: Repo, f: FilesView)
    ensures
        repo.provides matches Some(p) ==> provided(base, repo, f) == p@,
        (repo.provides is None && repo.lang == Lang::Rust && f.cargo is Some && toml_parses(f.cargo->Some_0)
            && toml_package_field(f.cargo->Some_0, "name"@) is Some)
            ==> provided(base, repo, f) == toml_package_field(f.cargo->Some_0, "name"@)->Some_0,
        (repo.provides is None && (repo.lang == Lang::Cpp || f.cargo is None)) ==> provided(base, repo, f) == repo.name@,
{
}

/// The package name a repo exposes to dependents: an explicit `provides`
/// wins; else a Rust crate's `[package].name`; else the repository's name.
pub fn provided_name(cfg: &Config, repo: &Repo, files: &RepoFiles) -> (r: String)
    ensures
        r@ == provided(cfg.base_dir@, *repo, files@),
        repo.provides matches Some(p) ==> r@ == p@,
        (repo.provides is None && repo.lang == Lang::Rust && files.cargo is Some && toml_parses(files.cargo->Some_0@)
            && toml_package_field(files.cargo->Some_0@, "name"@) is Some)
            ==> r@ == toml_package_field(files.cargo->Some_0@, "name"@)->Some_0,
        (repo.provides is None && (repo.lang == Lang::Cpp || files.cargo is None)) ==> r@ == repo.name@,
{
    if let Some(p) = &repo.provides {
        return p.clone();
    }
    if repo.lang == Lang::Rust {
        let dir = cfg.repo_dir(repo);
        if let Ok(Some(name)) = rust::read_package_name(dir.as_str(), &files.cargo) {
            return name;
        }
    }
    repo.name.clone()
}


// ---------------------------------------------------------------------------
// Bumping one component
// ---------------------------------------------------------------------------

/// What requiring `version` of the package `dep` does to a dependent: a Rust
/// crate has its dependency entries updated (refusing an unparseable
/// `Cargo.toml`), a C++ repository its `find_package` calls re-pinned. The
/// number of changes and the files to write.
pub open spec fn dependent_update(base: Seq<char>, repo: Repo, f: FilesView, dep: Seq<char>, version: Seq<char>) -> Result<(nat, FilesView), ErrorView> {
    match repo.lang {
        Lang::Rust => match f.cargo {
            None => Ok((0, FilesView { cargo: None, version_file: None, cmake: None })),
            Some(t) => if !toml_parses(t) {
                Err(ErrorView::TomlParse(joined(joined(base, repo.path@), "Cargo.toml"@)))
            } else {
                let (u, n) = edit_dependencies(t, dep, version);
                Ok((n, FilesView { cargo: if n > 0 { Some(u) } else { None }, version_file: None, cmake: None }))
            },
        },
        Lang::Cpp => match f.cmake {
            None => Ok((0, FilesView { cargo: None, version_file: None, cmake: None })),
            Some(t) => {
                let (u, n) = repin_from(t, dep, version, 0);
                Ok((n, FilesView { cargo: None, version_file: None, cmake: if n > 0 { Some(u) } else { None } }))
            },
        },
    }
}

/// The dependents among the first `n` repositories (all but those named
/// `skip`) that changed: their index, change count and writes, in manifest
/// order, up to the first one that could not be updated (the error).
pub open spec fn dependents_upto(
    base: Seq<char>,
    repos: Seq<Repo>,
    files: Seq<RepoFiles>,
    skip: Seq<char>,
    dep: Seq<char>,
    version: Seq<char>,
    n: int,
) -> (Seq<(int, nat, FilesView)>, Option<ErrorView>)
    decreases n,
{
    if n <= 0 {
        (Seq::empty(), None)
    } else {
        let (prev, err) = dependents_upto(base, repos, files, skip, dep, version, n - 1);
        if err.is_some() {
            (prev, err)
        } else if repos[n - 1].name@ == skip {
            (prev, None)
        } else {
            match dependent_update(base, repos[n - 1], files[n - 1]@, dep, version) {
                Err(e) => (prev, Some(e)),
                Ok((c, w)) => if c > 0 { (prev.push((n - 1, c, w)), None) } else { (prev, None) },
            }
        }
    }
}

/// Once a dependent fails, later repositories change nothing.
pub proof fn lemma_dependents_error_sticks(
    base: Seq<char>,
    repos: Seq<Repo>,
    files: Seq<RepoFiles>,
    skip: Seq<char>,
    dep: Seq<char>,
    version: Seq<char>,
    m: int,
    n: int,
)
    requires
        0 < m <= n,
        dependents_upto(base, repos, files, skip, dep, version, m).1.is_some(),
    ensures
        dependents_upto(base, repos, files, skip, dep, version, n) == dependents_upto(base, repos, files, skip, dep, version, m),
    decreases n - m,
{
    if n > m {
        lemma_dependents_error_sticks(base, repos, files, skip, dep, version, m, n - 1);
    }
}

/// A dependent repository that now requires the bumped version.
#[derive(Debug)]
pub struct DependentUpdate {
    /// Index of the repository in the manifest.
    pub index: usize,
    /// How many of its references changed.
    pub changed: usize,
    /// The files to write.
    pub write: RepoWrite,
}

/// What `bump` does: the component and its versions, its own write, and
/// the dependents that change, up to the first failure (`error`).
#[derive(Debug)]
pub struct BumpPlan {
    /// Index of the bumped repository in the manifest.
    pub target: usize,
    pub current: String,
    pub new_version: String,
    /// The package name that dependents refer to.
    pub dep_name: String,
    /// The write of the bumped repository; `None` when it already has the
    /// new version or could not be written (then `error` says why).
    pub target_write: Option<RepoWrite>,
    pub dependents: Vec<DependentUpdate>,
    pub error: Option<Error>,
}

/// The dependents of a plan, as (index, changes, writes).
pub open spec fn dependents_view(d: Seq<DependentUpdate>) -> Seq<(int, nat, FilesView)> {
    d.map_values(|u: DependentUpdate| (u.index as int, u.changed as nat, u.write@))
}

/// The view of an optional error.
pub open spec fn opt_error(e: Option<Error>) -> Option<ErrorView> {
    match e {
        Some(x) => Some(x@),
        None => None,
    }
}

/// Whether `plan` is what bumping the repository at `t` (whose version is
/// `current`) to `new_version` does.
pub open spec fn bump_plan_for(cfg: Config, files: Seq<RepoFiles>, repo_name: Seq<char>, t: int, plan: BumpPlan) -> bool {
    let base = cfg.base_dir@;
    let repos = cfg.manifest.repos@;
    let new_version = plan.new_version@;
    &&& plan.target == t
    &&& plan.dep_name@ == provided(base, repos[t], files[t]@)
    &&& if new_version == plan.current@ {
        &&& plan.target_write.is_none()
        &&& (dependents_view(plan.dependents@), opt_error(plan.error))
            == dependents_upto(base, repos, files, repo_name, plan.dep_name@, new_version, repos.len() as int)
    } else {
        match repo_write(base, repos[t], files[t]@, new_version) {
            Ok(w) => {
                &&& plan.target_write matches Some(x) && x@ == w
                &&& (dependents_view(plan.dependents@), opt_error(plan.error))
                    == dependents_upto(base, repos, files, repo_name, plan.dep_name@, new_version, repos.len() as int)
            },
            Err(e) => plan.target_write.is_none() && plan.dependents@.len() == 0 && opt_error(plan.error) == Some(e),
        }
    }
}

/// Whether a dependent with files `f` requires `version` of the package
/// `dep`: every Rust dependency entry on it names the version; every C++
/// `find_package` call on it is pinned to the version (for a version that
/// re-pinning keeps intact, see `pin_ok`).
pub open spec fn dependent_requires(repo: Repo, f: FilesView, dep: Seq<char>, version: Seq<char>) -> bool {
    match repo.lang {
        Lang::Rust => f.cargo matches Some(c) ==> requires_everywhere(c, dep, version),
        Lang::Cpp => f.cmake matches Some(c) ==> (pin_ok(dep, version) ==> repin_from(c, dep, version, 0).1 == 0),
    }
}

/// A dependent's own version reads the same after its writes `g` as before
/// (`f`): a Rust crate keeps every `[package]` field; a C++ repository's
/// version file is not written, so a version it holds is kept (what the
/// regex finds in `project()` after re-pinning is not stated).
pub open spec fn own_version_kept(base: Seq<char>, repo: Repo, f: FilesView, g: FilesView) -> bool {
    match repo.lang {
        Lang::Rust => repo_read(base, repo, g) == repo_read(base, repo, f),
        Lang::Cpp => g.version_file == f.version_file
            && (f.version_file matches Some(t) && trim_ws(t).len() > 0 ==> repo_read(base, repo, g) == repo_read(base, repo, f)),
    }
}

/// The files of the repository at `i` after the dependents' writes `ds`.
pub open spec fn after_dependents(ds: Seq<DependentUpdate>, i: int, f: FilesView) -> FilesView
    decreases ds.len(),
{
    if ds.len() == 0 {
        f
    } else if ds.last().index == i {
        written(f, ds.last().write@)
    } else {
        after_dependents(ds.drop_last(), i, f)
    }
}

proof fn lemma_after_dependents_other(ds: Seq<DependentUpdate>, i: int, f: FilesView)
    requires
        forall|j: int| 0 <= j < ds.len() ==> (#[trigger] ds[j]).index < i,
    ensures
        after_dependents(ds, i, f) == f,
    decreases ds.len(),
{
    if ds.len() > 0 {
        assert(ds.last() == ds[ds.len() - 1]);
        lemma_after_dependents_other(ds.drop_last(), i, f);
    }
}

fn dependent_update_of(cfg: &Config, repo: &Repo, files: &RepoFiles, dep: &str, version: &str) -> (r: Result<(usize, RepoWrite), Error>)
    ensures
        match r {
            Ok((c, w)) => dependent_update(cfg.base_dir@, *repo, files@, dep@, version@) == Ok::<(nat, FilesView), ErrorView>((c as nat, w@)),
            Err(e) => dependent_update(cfg.base_dir@, *repo, files@, dep@, version@) == Err::<(nat, FilesView), ErrorView>(e@),
        },
        r matches Ok((_, w)) ==> dependent_requires(*repo, written(files@, w@), dep@, version@),
        r matches Ok((_, w)) ==> own_version_kept(cfg.base_dir@, *repo, files@, written(files@, w@)),
{
    let dir = cfg.repo_dir(repo);
    match repo.lang {
        Lang::Rust => match rust::update_dependency(dir.as_str(), &files.cargo, dep, version) {
            Ok((c, w)) => {
                let ghost w0 = w;
                let rw = RepoWrite { cargo: w, version_file: None, cmake: None };
                proof {
                    let g = written(files@, rw@);
                    if let Some(t) = files@.cargo {
                        let after = rust::after_update(t, w0);
                        assert(g.cargo == Some(after));
                        assert(toml_package_field(after, "version"@) == toml_package_field(t, "version"@));
                        assert(package_read(joined(cfg.base_dir@, repo.path@), g.cargo, "version"@)
                            == package_read(joined(cfg.base_dir@, repo.path@), files@.cargo, "version"@));
                    }
                }
                Ok((c, rw))
            },
            Err(e) => Err(e),
        },
        Lang::Cpp => {
            let (c, w) = cpp::update_dependency(&files.cmake, dep, version);
            Ok((c, RepoWrite { cargo: None, version_file: None, cmake: w }))
        },
    }
}

fn plan_dependents(cfg: &Config, files: &Vec<RepoFiles>, repo_name: &str, dep: &str, version: &str) -> (r: (Vec<DependentUpdate>, Option<Error>))
    requires
        files@.len() == cfg.manifest.repos@.len(),
    ensures
        (dependents_view(r.0@), opt_error(r.1))
            == dependents_upto(cfg.base_dir@, cfg.manifest.repos@, files@, repo_name@, dep@, version@, cfg.manifest.repos@.len() as int),
        r.1 is None ==> forall|i: int| 0 <= i < cfg.manifest.repos@.len() && cfg.manifest.repos@[i].name@ != repo_name@
            ==> dependent_requires(cfg.manifest.repos@[i], after_dependents(r.0@, i, #[trigger] files@[i]@), dep@, version@),
        forall|i: int| 0 <= i < cfg.manifest.repos@.len() && cfg.manifest.repos@[i].name@ != repo_name@
            ==> own_version_kept(cfg.base_dir@, cfg.manifest.repos@[i], files@[i]@, after_dependents(r.0@, i, #[trigger] files@[i]@)),
{
    let skip = String::from_str(repo_name);
    let mut out: Vec<DependentUpdate> = Vec::new();
    let mut i: usize = 0;
    while i < cfg.manifest.repos.len()
        invariant
            files@.len() == cfg.manifest.repos@.len(),
            skip@ == repo_name@,
            i <= cfg.manifest.repos@.len(),
            (dependents_view(out@), None::<ErrorView>)
                == dependents_upto(cfg.base_dir@, cfg.manifest.repos@, files@, repo_name@, dep@, version@, i as int),
            forall|j: int| 0 <= j < out@.len() ==> (#[trigger] out@[j]).index < i,
            forall|k: int| 0 <= k < i && cfg.manifest.repos@[k].name@ != repo_name@
                ==> dependent_requires(cfg.manifest.repos@[k], after_dependents(out@, k, #[trigger] files@[k]@), dep@, version@),
            forall|k: int| 0 <= k < i && cfg.manifest.repos@[k].name@ != repo_name@
                ==> own_version_kept(cfg.base_dir@, cfg.manifest.repos@[k], files@[k]@, after_dependents(out@, k, #[trigger] files@[k]@)),
        decreases cfg.manifest.repos@.len() - i,
    {
        let repo = &cfg.manifest.repos[i];
        if repo.name != skip {
            match dependent_update_of(cfg, repo, &files[i], dep, version) {
                Err(e) => {
                    proof {
                        lemma_dependents_error_sticks(cfg.base_dir@, cfg.manifest.repos@, files@, repo_name@, dep@, version@,
                            i + 1, cfg.manifest.repos@.len() as int);
                        assert forall|k: int| 0 <= k < cfg.manifest.repos@.len() && cfg.manifest.repos@[k].name@ != repo_name@
                            implies own_version_kept(cfg.base_dir@, cfg.manifest.repos@[k], files@[k]@, after_dependents(out@, k, #[trigger] files@[k]@)) by {
                            if k >= i {
                                lemma_after_dependents_other(out@, k, files@[k]@);
                            }
                        }
                    }
                    return (out, Some(e));
                },
                Ok((c, w)) => {
                    let ghost prev = out@;
                    if c > 0 {
                        let ghost before = dependents_view(out@);
                        out.push(DependentUpdate { index: i, changed: c, write: w });
                        assert(dependents_view(out@) =~= before.push((i as int, c as nat, w@)));
                        assert(out@.drop_last() == prev);
                        assert forall|k: int| 0 <= k < i + 1 && cfg.manifest.repos@[k].name@ != repo_name@
                            implies dependent_requires(cfg.manifest.repos@[k], after_dependents(out@, k, #[trigger] files@[k]@), dep@, version@)
                                && own_version_kept(cfg.base_dir@, cfg.manifest.repos@[k], files@[k]@, after_dependents(out@, k, files@[k]@)) by {
                            if k < i {
                                assert(after_dependents(out@, k, files@[k]@) == after_dependents(prev, k, files@[k]@));
                            }
                        }
                    } else {
                        proof {
                            lemma_after_dependents_other(out@, i as int, files@[i as int]@);
                            assert(written(files@[i as int]@, w@) == files@[i as int]@);
                        }
                    }
                },
            }
        }
        i += 1;
    }
    (out, None)
}

/// Bumps one component's version and propagates it: the component must
/// exist and have a readable version; its new version comes from
/// `apply_bump`; it is written unless already there; then every other
/// repository that refers to its provided name is updated, in manifest
/// order. After the plan, the component reads the new version (for C++,
/// when the version reads back from a file).
pub fn bump(cfg: &Config, files: &Vec<RepoFiles>, repo_name: &str, how: &Bump) -> (r: Result<BumpPlan, Error>)
    requires
        files@.len() == cfg.manifest.repos@.len(),
    ensures
        match repo_index(cfg.manifest.repos@, repo_name@) {
            None => r matches Err(e) && e@ == ErrorView::UnknownRepo(repo_name@),
            Some(t) => match repo_read(cfg.base_dir@, cfg.manifest.repos@[t], files@[t]@) {
                Err(e) => r matches Err(x) && x@ == e,
                Ok(None) => r matches Err(x) && x@ == ErrorView::NoReadableVersion(repo_name@),
                Ok(Some(current)) => match bump_outcome(current, *how) {
                    Err(e) => r matches Err(x) && x@ == e,
                    Ok(new_version) => r matches Ok(plan) && plan.current@ == current && plan.new_version@ == new_version
                        && bump_plan_for(*cfg, files@, repo_name@, t, plan)
                        && (cfg.manifest.repos@[t].provides matches Some(p) ==> plan.dep_name@ == p@)
                        && (plan.target_write is Some && reads_back(cfg.manifest.repos@[t], new_version)
                            ==> repo_read(cfg.base_dir@, cfg.manifest.repos@[t], written(files@[t]@, plan.target_write->Some_0@))
                                == Ok::<Option<Seq<char>>, ErrorView>(Some(new_version)))
                        && (plan.error is None ==> forall|i: int|
                            0 <= i < cfg.manifest.repos@.len() && cfg.manifest.repos@[i].name@ != repo_name@
                                ==> dependent_requires(
                                    cfg.manifest.repos@[i],
                                    after_dependents(plan.dependents@, i, #[trigger] files@[i]@),
                                    plan.dep_name@,
                                    new_version,
                                ))
                        && (forall|i: int|
                            0 <= i < cfg.manifest.repos@.len() && cfg.manifest.repos@[i].name@ != repo_name@
                                ==> own_version_kept(
                                    cfg.base_dir@,
                                    cfg.manifest.repos@[i],
                                    files@[i]@,
                                    after_dependents(plan.dependents@, i, #[trigger] files@[i]@),
                                )),
                },
            },
        },
{
    proof { lemma_repo_index(cfg.manifest.repos@, repo_name@); }
    let target = match cfg.find_repo(repo_name) {
        Ok(_) => {
            let mut k: usize = 0;
            let name = String::from_str(repo_name);
            while k < cfg.manifest.repos.len() && cfg.manifest.repos[k].name != name
                invariant
                    k <= cfg.manifest.repos@.len(),
                    name@ == repo_name@,
                    forall|j: int| 0 <= j < k ==> cfg.manifest.repos@[j].name@ != repo_name@,
                decreases cfg.manifest.repos@.len() - k,
            {
                k += 1;
            }
            if k == cfg.manifest.repos.len() {
                return Err(Error::UnknownRepo(String::from_str(repo_name)));
            }
            k
        },
        Err(e) => return Err(e),
    };
    let repo = &cfg.manifest.repos[target];
    let current = match read_repo(cfg, repo, &files[target]) {
        Err(e) => return Err(e),
        Ok(None) => return Err(Error::NoReadableVersion(String::from_str(repo_name))),
        Ok(Some(v)) => v,
    };
    let new_version = match apply_bump(current.as_str(), how) {
        Err(e) => return Err(e),
        Ok(v) => v,
    };
    let dep_name = provided_name(cfg, repo, &files[target]);
    let mut target_write: Option<RepoWrite> = None;
    if new_version != current {
        match write_repo(cfg, repo, &files[target], new_version.as_str()) {
            Ok(w) => {
                target_write = Some(w);
            },
            Err(e) => {
                return Ok(BumpPlan {
                    target,
                    current,
                    new_version,
                    dep_name,
                    target_write: None,
                    dependents: Vec::new(),
                    error: Some(e),
                });
            },
        }
    }
    let (dependents, error) = plan_dependents(cfg, files, repo_name, dep_name.as_str(), new_version.as_str());
    Ok(BumpPlan { target, current, new_version, dep_name, target_write, dependents, error })
}


} // verus!
