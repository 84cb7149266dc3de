//! Semantic versions, through the `semver` crate.
use vstd::prelude::*;

verus! {

/// The numbers `(major, minor, patch)` of the semver version that `s` spells,
/// as `semver::Version::parse` reads it; `None` when it is not one.
pub uninterp spec fn semver_parse(s: Seq<char>) -> Option<(u64, u64, u64)>;

/// `semver::Version`'s order on the versions that `a` and `b` spell:
/// -1, 0 or 1 for less, equal or greater.
pub uninterp spec fn semver_order(a: Seq<char>, b: Seq<char>) -> i8;

/// `(major, minor, patch)` of `a` comes before that of `b`, number by
/// number.
pub open spec fn numbers_lt(a: (u64, u64, u64), b: (u64, u64, u64)) -> bool {
    a.0 < b.0 || (a.0 == b.0 && (a.1 < b.1 || (a.1 == b.1 && a.2 < b.2)))
}

/// A character that a semver version may hold: an ASCII letter or digit, or
/// one of `.`, `-`, `+`.
pub open spec fn semver_char(c: char) -> bool {
    ('0' <= c && c <= '9') || ('a' <= c && c <= 'z') || ('A' <= c && c <= 'Z') || c == '.' || c == '-' || c == '+'
}

/// `semver::Version::parse`: the numbers of the version that `s` spells, if
/// it is one. The contract names the result and states what the parser's
/// source shows: a version is non-empty and made of semver characters only.
#[verifier::external_body]
pub(crate) fn parse_semver(s: &str) -> (r: Option<(u64, u64, u64)>)
    ensures
        r == semver_parse(s@),
        r.is_some() ==> s@.len() > 0 && forall|i: int| 0 <= i < s@.len() ==> semver_char(#[trigger] s@[i]),
{
    match semver::Version::parse(s) {
        Ok(v) => Some((v.major, v.minor, v.patch)),
        Err(_) => None,
    }
}

/// `Ord::cmp` on `semver::Version`, for two texts that parse as versions.
/// The contract names the result and states that it is one of -1, 0, 1;
/// and, as `Version` derives `Ord` over `major`, `minor`, `patch` before
/// `pre` and `build`, that versions whose numbers differ are ordered by
/// their numbers (the order of versions with the same numbers is left to
/// the name).
#[verifier::external_body]
pub(crate) fn compare_semver(a: &str, b: &str) -> (r: i8)
    requires
        semver_parse(a@).is_some(),
        semver_parse(b@).is_some(),
    ensures
        r == semver_order(a@, b@),
        -1 <= r <= 1,
        semver_parse(a@)->Some_0 != semver_parse(b@)->Some_0
            ==> r == (if numbers_lt(semver_parse(a@)->Some_0, semver_parse(b@)->Some_0) { -1i8 } else { 1i8 }),
{
    let va = semver::Version::parse(a).unwrap();
    let vb = semver::Version::parse(b).unwrap();
    match va.cmp(&vb) {
        std::cmp::Ordering::Less => -1,
        std::cmp::Ordering::Equal => 0,
        std::cmp::Ordering::Greater => 1,
    }
}

} // verus!
