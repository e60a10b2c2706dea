//! Reading version numbers and version requirements, through `semver`.
use vstd::prelude::*;

use crate::encoding::message::Version;

verus! {

/// The version `semver` reads from `text` (major, minor and patch numbers),
/// or `None` when it refuses the text.
pub uninterp spec fn semver_version(text: Seq<char>) -> Option<Version>;

/// `semver` reads `text` as a version requirement.
pub uninterp spec fn semver_req_valid(text: Seq<char>) -> bool;

/// The requirement `semver` reads from `text` accepts the release `v`.
pub uninterp spec fn semver_req_matches(text: Seq<char>, v: Version) -> bool;

/// Calls `semver::Version::parse` on `text` and keeps the major, minor and
/// patch numbers.
///
/// Trusted: the result is `semver_version(text@)`; the pre-release and build
/// parts of the version are dropped.
#[verifier::external_body]
pub(crate) fn parse_version(text: &str) -> (r: Option<Version>)
    ensures
        r == semver_version(text@),
{
    match semver::Version::parse(text) {
        Ok(v) => Some(Version { major: v.major, minor: v.minor, patch: v.patch }),
        Err(_) => None,
    }
}

/// Calls `semver::VersionReq::parse` on `text`, then, when it succeeds,
/// `semver::VersionReq::matches` with the release `v` (no pre-release or
/// build part).
///
/// Trusted: `None` exactly when `semver_req_valid(text@)` fails (parsing does
/// not look at `v`), and otherwise whether `semver_req_matches(text@, v)`.
#[verifier::external_body]
pub(crate) fn version_req_matches(text: &str, v: &Version) -> (r: Option<bool>)
    ensures
        r is Some == semver_req_valid(text@),
        r matches Some(b) ==> b == semver_req_matches(text@, *v),
{
    match semver::VersionReq::parse(text) {
        Ok(req) => Some(req.matches(&semver::Version::new(v.major, v.minor, v.patch))),
        Err(_) => None,
    }
}

} // verus!
