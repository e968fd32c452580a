//! Semantic versions and version requirements, read and compared by `semver`.
use vstd::prelude::*;

use core::cmp::Ordering;

verus! {

/// Whether `semver::Version::parse(word)` succeeds.
pub uninterp spec fn version_is_valid(word: Seq<char>) -> bool;

/// The order of the two versions that `semver::Version::parse` reads from the
/// two words (`Ord::cmp`: -1, 0 or 1), or `None` when either does not parse.
pub uninterp spec fn version_order(a: Seq<char>, b: Seq<char>) -> Option<i8>;

/// Whether `semver::VersionReq::parse(word)` succeeds.
pub uninterp spec fn requirement_is_valid(word: Seq<char>) -> bool;

/// Whether the requirement read from `requirement` matches the version read
/// from `version` (`semver::VersionReq::matches`), or `None` when either does
/// not parse.
pub uninterp spec fn requirement_matches(requirement: Seq<char>, version: Seq<char>) -> Option<bool>;

/// Calls `semver::Version::parse` and tells whether it succeeded. Claims only
/// that the result is the named one.
#[verifier::external_body]
pub(crate) fn is_version(word: &str) -> (r: bool)
    ensures
        r == version_is_valid(word@),
{
    semver::Version::parse(word).is_ok()
}

/// Parses both words with `semver::Version::parse` and compares the versions
/// with `Ord::cmp`. Claims that the result is the named one and is -1, 0 or 1.
#[verifier::external_body]
pub(crate) fn compare_versions(a: &str, b: &str) -> (r: Option<i8>)
    ensures
        r == version_order(a@, b@),
        r matches Some(x) ==> -1 <= x <= 1,
{
    match (semver::Version::parse(a), semver::Version::parse(b)) {
        (Ok(x), Ok(y)) => match x.cmp(&y) {
            Ordering::Less => Some(-1),
            Ordering::Equal => Some(0),
            Ordering::Greater => Some(1),
        },
        _ => None,
    }
}

/// Calls `semver::VersionReq::parse` and tells whether it succeeded. Claims
/// only that the result is the named one.
#[verifier::external_body]
pub(crate) fn is_requirement(word: &str) -> (r: bool)
    ensures
        r == requirement_is_valid(word@),
{
    semver::VersionReq::parse(word).is_ok()
}

/// Parses the requirement and the version and calls
/// `semver::VersionReq::matches`. Claims only that the result is the named one.
#[verifier::external_body]
pub(crate) fn matches_requirement(requirement: &str, version: &str) -> (r: Option<bool>)
    ensures
        r == requirement_matches(requirement@, version@),
{
    match (semver::VersionReq::parse(requirement), semver::Version::parse(version)) {
        (Ok(req), Ok(v)) => Some(req.matches(&v)),
        _ => None,
    }
}

} // verus!
