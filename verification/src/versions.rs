//! Names for what the semver crate computes, and the trusted calls into it.
//!
//! Versions and version requirements are carried through the library as
//! their textual form; the semver crate alone decides which texts parse and
//! which versions satisfy which requirements. Both decisions are pure
//! functions of the texts, so they are named by uninterpreted spec functions
//! that the wrappers below tie to the real calls.

use vstd::prelude::*;

verus! {

/// Whether semver accepts `req` as a version requirement.
pub uninterp spec fn req_parses(req: Seq<char>) -> bool;

/// Whether semver accepts `version` as a version.
pub uninterp spec fn version_parses(version: Seq<char>) -> bool;

/// Whether the version written `version` satisfies the requirement written
/// `req`, for texts that semver accepts.
pub uninterp spec fn req_matches(req: Seq<char>, version: Seq<char>) -> bool;

/// Relies on semver::VersionReq::parse, semver::Version::parse and
/// semver::VersionReq::matches: whether the two texts parse, and whether the
/// parsed version then satisfies the parsed requirement, are deterministic
/// in the texts alone. Returns `None` exactly when semver rejects one of the
/// texts.
#[verifier::external_body]
pub fn check_req_matches(req: &str, version: &str) -> (r: Option<bool>)
    ensures
        r is Some <==> (req_parses(req@) && version_parses(version@)),
        r matches Some(m) ==> m == req_matches(req@, version@),
{
    let parsed_req = match semver::VersionReq::parse(req) {
        Ok(parsed_req) => parsed_req,
        Err(_) => return None,
    };
    let parsed_version = match semver::Version::parse(version) {
        Ok(parsed_version) => parsed_version,
        Err(_) => return None,
    };
    Some(parsed_req.matches(&parsed_version))
}

/// Relies on semver::Version::parse: whether a text is accepted as a version
/// is deterministic in the text alone.
#[verifier::external_body]
pub fn check_version_parses(version: &str) -> (r: bool)
    ensures
        r == version_parses(version@),
{
    semver::Version::parse(version).is_ok()
}

} // verus!
