//! C++ repositories: a plain `.version` file and the CMake file's
//! `project(... VERSION x.y.z ...)` and `find_package(<name> <ver> ...)`.
use vstd::prelude::*;
use vstd::string::*;

use crate::config::{joined, join_path, Repo};

use super::repinning::{lemma_repin_idempotent, pin_ok};
use crate::text::{
    chars_of, is_digit, is_white, matches_at, occurs_at, slice_chars, string_of, trim, trim_ws, white_space,
};

verus! {

/// Path to the plain-text version file (default `.version`).
pub fn version_file(repo_dir: &str, repo: &Repo) -> (r: String)
    ensures
        r@ == joined(repo_dir@, match repo.version_file { Some(f) => f@, None => ".version"@ }),
{
    match &repo.version_file {
        Some(f) => join_path(repo_dir, f.as_str()),
        None => join_path(repo_dir, ".version"),
    }
}

/// Path to the CMake file to patch (default `CMakeLists.txt`).
pub fn cmake_file(repo_dir: &str, repo: &Repo) -> (r: String)
    ensures
        r@ == joined(repo_dir@, match repo.cmake_file { Some(f) => f@, None => "CMakeLists.txt"@ }),
{
    match &repo.cmake_file {
        Some(f) => join_path(repo_dir, f.as_str()),
        None => join_path(repo_dir, "CMakeLists.txt"),
    }
}

/// Where the version number of the first `project(<name> ... VERSION x.y.z)`
/// call lies in `text` (character positions), as the regular expression
/// `(?is)(project\s*\(.*?\bVERSION\s+)(\d+(?:\.\d+){0,3})` finds it: the
/// span of its second group.
pub uninterp spec fn cmake_version_span(text: Seq<char>) -> Option<(int, int)>;

/// `Regex::captures` with the `project(... VERSION ...)` pattern: the
/// character span of the version number in the first match. The contract
/// names the result and states that the span lies within the text and is
/// not empty (the group is `\d+...`).
#[verifier::external_body]
fn project_version_span(text: &str) -> (r: Option<(usize, usize)>)
    ensures
        match r {
            Some((a, b)) => cmake_version_span(text@) == Some((a as int, b as int)) && a < b <= text@.len(),
            None => cmake_version_span(text@).is_none(),
        },
{
    let re = regex::Regex::new(r"(?is)(project\s*\(.*?\bVERSION\s+)(\d+(?:\.\d+){0,3})").unwrap();
    re.captures(text).and_then(|c| c.get(2)).map(|m| (text[..m.start()].chars().count(), text[..m.end()].chars().count()))
}

/// The version that a C++ repository declares: the trimmed `.version` file
/// when it exists and is not blank, otherwise the CMake `project()` version
/// when the CMake file exists and declares one.
pub open spec fn cpp_version(version_text: Option<Seq<char>>, cmake_text: Option<Seq<char>>) -> Option<Seq<char>> {
    match version_text {
        Some(t) if trim_ws(t).len() > 0 => Some(trim_ws(t)),
        _ => match cmake_text {
            Some(c) => match cmake_version_span(c) {
                Some((a, b)) => Some(c.subrange(a, b)),
                None => None,
            },
            None => None,
        },
    }
}

/// Reads the version of a C++ repo from the contents of its version file and
/// CMake file (`None` for a file that does not exist): prefer `.version`,
/// fall back to CMake.
pub fn read_version(version_text: &Option<String>, cmake_text: &Option<String>) -> (r: Option<String>)
    ensures
        crate::git::opt_view(r) == cpp_version(crate::git::opt_view(*version_text), crate::git::opt_view(*cmake_text)),
{
    match version_text {
        Some(t) => {
            let v = trim(chars_of(t.as_str()).as_slice());
            if v.len() > 0 {
                return Some(string_of(v.as_slice()));
            }
        },
        None => {},
    }
    match cmake_text {
        Some(c) => match project_version_span(c.as_str()) {
            Some((a, b)) => {
                let cs = chars_of(c.as_str());
                Some(string_of(slice_chars(cs.as_slice(), a, b).as_slice()))
            },
            None => None,
        },
        None => None,
    }
}

/// What writing `version` produces: the new `.version` contents, and the new
/// CMake contents when the CMake file exists and declares a project version
/// (the version number replaced), else `None` (left alone).
pub open spec fn cpp_written(cmake_text: Option<Seq<char>>, version: Seq<char>) -> (Seq<char>, Option<Seq<char>>) {
    (
        version + "\n"@,
        match cmake_text {
            Some(c) => match cmake_version_span(c) {
                Some((a, b)) => Some(c.subrange(0, a) + version + c.subrange(b, c.len() as int)),
                None => None,
            },
            None => None,
        },
    )
}

/// Writes the version: always the `.version` file, and the CMake file when
/// it declares a project version. Returns the new contents of both.
pub fn write_version(cmake_text: &Option<String>, version: &str) -> (r: (String, Option<String>))
    ensures
        (r.0@, crate::git::opt_view(r.1)) == cpp_written(crate::git::opt_view(*cmake_text), version@),
{
    let vf = String::from_str(version).concat("\n");
    let cm = match cmake_text {
        Some(c) => match project_version_span(c.as_str()) {
            Some((a, b)) => {
                let cs = chars_of(c.as_str());
                let head = string_of(slice_chars(cs.as_slice(), 0, a).as_slice());
                let tail = string_of(slice_chars(cs.as_slice(), b, cs.len()).as_slice());
                Some(head.concat(version).concat(tail.as_str()))
            },
            None => None,
        },
        None => None,
    };
    (vf, cm)
}

/// A character of an identifier: ASCII letter, digit or `_`.
pub open spec fn ident_char(c: char) -> bool {
    ('0' <= c && c <= '9') || ('a' <= c && c <= 'z') || ('A' <= c && c <= 'Z') || c == '_'
}

/// A character of a version argument: anything but white space and `)`.
pub open spec fn version_char(c: char) -> bool {
    !white_space(c) && c != ')'
}

/// The first index at or after `j` that is not white space (or the end).
pub open spec fn skip_ws(s: Seq<char>, j: int) -> int
    decreases s.len() - j,
{
    if j < 0 || j >= s.len() || !white_space(s[j]) {
        j
    } else {
        skip_ws(s, j + 1)
    }
}

/// The first index at or after `j` that is not a version character (or the end).
pub open spec fn skip_version(s: Seq<char>, j: int) -> int
    decreases s.len() - j,
{
    if j < 0 || j >= s.len() || !version_char(s[j]) {
        j
    } else {
        skip_version(s, j + 1)
    }
}

/// The span of the version number of a `find_package(<dep> <version> ...)`
/// call that starts at `i`: `find_package` not preceded by an identifier
/// character, optional white space, `(`, optional white space, the package
/// name `dep`, white space, then a version argument (starting with a digit,
/// up to the next white space or `)`).
pub open spec fn find_package_site(s: Seq<char>, dep: Seq<char>, i: int) -> Option<(int, int)> {
    let kw = "find_package"@;
    if !(occurs_at(s, kw, i) && (i == 0 || !ident_char(s[i - 1]))) {
        None
    } else {
        let p = skip_ws(s, i + kw.len());
        if !(p < s.len() && s[p] == '(') {
            None
        } else {
            let q = skip_ws(s, p + 1);
            let r = q + dep.len();
            if !(dep.len() > 0 && occurs_at(s, dep, q) && r < s.len() && white_space(s[r])) {
                None
            } else {
                let a = skip_ws(s, r);
                if a < s.len() && is_digit(s[a]) {
                    Some((a, skip_version(s, a)))
                } else {
                    None
                }
            }
        }
    }
}

/// Re-pins every `find_package(<dep> <version> ...)` from index `i` on to
/// `version`: the rewritten rest of the text and how many calls changed.
pub open spec fn repin_from(s: Seq<char>, dep: Seq<char>, version: Seq<char>, i: int) -> (Seq<char>, nat)
    decreases s.len() - i,
{
    if i < 0 || i >= s.len() {
        (Seq::empty(), 0)
    } else {
        match find_package_site(s, dep, i) {
            Some((a, b)) => if i < a && a < b && b <= s.len() {
                let (rest, n) = repin_from(s, dep, version, b);
                if s.subrange(a, b) != version {
                    (s.subrange(i, a) + version + rest, n + 1)
                } else {
                    (s.subrange(i, b) + rest, n)
                }
            } else {
                let (rest, n) = repin_from(s, dep, version, i + 1);
                (seq![s[i]] + rest, n)
            },
            None => {
                let (rest, n) = repin_from(s, dep, version, i + 1);
                (seq![s[i]] + rest, n)
            },
        }
    }
}

/// `skip_version` does not move backwards.
pub proof fn lemma_skip_version_ge(s: Seq<char>, j: int)
    requires
        0 <= j <= s.len(),
    ensures
        j <= skip_version(s, j) <= s.len(),
    decreases s.len() - j,
{
    if j < s.len() && version_char(s[j]) {
        lemma_skip_version_ge(s, j + 1);
    }
}

fn skip_ws_exec(s: &[char], j: usize) -> (r: usize)
    requires
        j <= s@.len(),
    ensures
        r == skip_ws(s@, j as int),
        j <= r <= s@.len(),
{
    let mut k = j;
    while k < s.len() && is_white(s[k])
        invariant
            j <= k <= s@.len(),
            skip_ws(s@, j as int) == skip_ws(s@, k as int),
        decreases s@.len() - k,
    {
        k += 1;
    }
    k
}

fn skip_version_exec(s: &[char], j: usize) -> (r: usize)
    requires
        j <= s@.len(),
    ensures
        r == skip_version(s@, j as int),
        j <= r <= s@.len(),
{
    let mut k = j;
    while k < s.len() && !is_white(s[k]) && s[k] != ')'
        invariant
            j <= k <= s@.len(),
            skip_version(s@, j as int) == skip_version(s@, k as int),
        decreases s@.len() - k,
    {
        k += 1;
    }
    k
}

fn site_at(s: &[char], dep: &[char], i: usize) -> (r: Option<(usize, usize)>)
    requires
        i < s@.len(),
    ensures
        match r {
            Some((a, b)) => find_package_site(s@, dep@, i as int) == Some((a as int, b as int)) && i < a < b <= s@.len(),
            None => find_package_site(s@, dep@, i as int).is_none(),
        },
{
    let kw = chars_of("find_package");
    proof { reveal_strlit("find_package"); }
    if !matches_at(s, kw.as_slice(), i) {
        return None;
    }
    if i > 0 {
        let c = s[i - 1];
        if ('0' <= c && c <= '9') || ('a' <= c && c <= 'z') || ('A' <= c && c <= 'Z') || c == '_' {
            return None;
        }
    }
    let p = skip_ws_exec(s, i + kw.len());
    if !(p < s.len() && s[p] == '(') {
        return None;
    }
    let q = skip_ws_exec(s, p + 1);
    if !(dep.len() > 0 && matches_at(s, dep, q)) {
        return None;
    }
    let r = q + dep.len();
    if !(r < s.len() && is_white(s[r])) {
        return None;
    }
    let a = skip_ws_exec(s, r);
    if !(a < s.len() && '0' <= s[a] && s[a] <= '9') {
        return None;
    }
    let b = skip_version_exec(s, a);
    proof {
        assert(version_char(s@[a as int]));
        assert(skip_version(s@, a as int) == skip_version(s@, a + 1));
        lemma_skip_version_ge(s@, a + 1);
        assert(kw@ == "find_package"@);
        assert(p == skip_ws(s@, i + kw@.len()));
        assert(q == skip_ws(s@, p + 1));
        assert(a == skip_ws(s@, r as int));
    }
    Some((a, b))
}

/// Re-pins `find_package(<dep> <version> ...)` calls in a CMake text to
/// `version`: the rewritten text and how many calls changed.
pub fn repin(text: &str, dep: &str, version: &str) -> (r: (String, usize))
    ensures
        (r.0@, r.1 as nat) == repin_from(text@, dep@, version@, 0),
{
    let s = chars_of(text);
    let d = chars_of(dep);
    let v = chars_of(version);
    let mut out: Vec<char> = Vec::new();
    let mut count: usize = 0;
    let mut i: usize = 0;
    while i < s.len()
        invariant
            s@ == text@,
            d@ == dep@,
            v@ == version@,
            i <= s@.len(),
            count <= i,
            repin_from(s@, d@, v@, 0).0 == out@ + repin_from(s@, d@, v@, i as int).0,
            repin_from(s@, d@, v@, 0).1 == count + repin_from(s@, d@, v@, i as int).1,
        decreases s@.len() - i,
    {
        match site_at(s.as_slice(), d.as_slice(), i) {
            Some((a, b)) => {
                let tok = slice_chars(s.as_slice(), a, b);
                let ghost before = out@;
                if !crate::text::chars_eq(tok.as_slice(), v.as_slice()) {
                    let mut k = i;
                    while k < a
                        invariant
                            i <= k <= a <= s@.len(),
                            out@ == before + s@.subrange(i as int, k as int),
                        decreases a - k,
                    {
                        out.push(s[k]);
                        assert(s@.subrange(i as int, k + 1) == s@.subrange(i as int, k as int).push(s@[k as int]));
                        k += 1;
                    }
                    let ghost mid = out@;
                    let mut m: usize = 0;
                    while m < v.len()
                        invariant
                            m <= v@.len(),
                            out@ == mid + v@.take(m as int),
                        decreases v@.len() - m,
                    {
                        out.push(v[m]);
                        assert(v@.take(m + 1) == v@.take(m as int).push(v@[m as int]));
                        m += 1;
                    }
                    assert(v@.take(v@.len() as int) == v@);
                    count += 1;
                } else {
                    let mut k = i;
                    while k < b
                        invariant
                            i <= k <= b <= s@.len(),
                            out@ == before + s@.subrange(i as int, k as int),
                        decreases b - k,
                    {
                        out.push(s[k]);
                        assert(s@.subrange(i as int, k + 1) == s@.subrange(i as int, k as int).push(s@[k as int]));
                        k += 1;
                    }
                }
                i = b;
            },
            None => {
                out.push(s[i]);
                i += 1;
            },
        }
    }
    (string_of(out.as_slice()), count)
}

/// Re-pins `find_package(<dep> <version> ...)` in a dependent's CMake file
/// (`None` when it has none): the number of calls changed, and the new
/// contents when any changed. Afterwards every such call names the version:
/// re-pinning the file again changes nothing.
pub fn update_dependency(cmake_text: &Option<String>, dep: &str, version: &str) -> (r: (usize, Option<String>))
    ensures
        match cmake_text {
            Some(t) => {
                let (new_text, n) = repin_from(t@, dep@, version@, 0);
                &&& r.0 as nat == n
                &&& if n > 0 { r.1 matches Some(u) && u@ == new_text } else { r.1.is_none() }
            },
            None => r.0 == 0 && r.1.is_none(),
        },
        (cmake_text is Some && pin_ok(dep@, version@)) ==> repin_from(
            match r.1 { Some(u) => u@, None => cmake_text->Some_0@ },
            dep@,
            version@,
            0,
        ).1 == 0,
{
    proof {
        if cmake_text is Some && pin_ok(dep@, version@) {
            lemma_repin_idempotent(cmake_text->Some_0@, dep@, version@);
        }
    }
    match cmake_text {
        Some(t) => {
            let (new_text, n) = repin(t.as_str(), dep, version);
            if n > 0 { (n, Some(new_text)) } else { (0, None) }
        },
        None => (0, None),
    }
}

} // verus!
