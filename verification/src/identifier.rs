//! Classifying the directory entry names of the cache tree: a component is
//! either a package-name segment or a version.

use vstd::prelude::*;
use vstd::string::StrSliceExecFns;

use crate::versions::check_version_parses;
use crate::versions::version_parses;

verus! {

/// Why a directory entry name is not a valid identifier.
#[derive(Debug)]
pub enum ParsingError {
    /// The name starts with a digit but semver rejects it as a version.
    InvalidVersion,
    /// The empty string names nothing.
    ZeroLength,
}

/// A package-name segment of a cache path.
pub type NameIdentifier = String;

/// A version component of a cache path, kept as its textual semver form.
pub type VersionIdentifier = String;

/// One component of a package path in the cache.
#[derive(Debug)]
pub enum Identifier {
    Name(NameIdentifier),
    Version(VersionIdentifier),
}

/// The decimal digits, which introduce a version component.
pub open spec fn is_ascii_digit(c: char) -> bool {
    '0' <= c && c <= '9'
}

impl Identifier {
    /// Classify a directory entry name: the empty name is an error; a name
    /// starting with a digit must be a semver version; anything else is a
    /// name segment.
    pub fn try_from(value: String) -> (r: Result<Identifier, ParsingError>)
        ensures
            value@.len() == 0 ==> r == Err::<Identifier, ParsingError>(ParsingError::ZeroLength),
            value@.len() > 0 && is_ascii_digit(value@[0]) && version_parses(value@) ==> r == Ok::<
                Identifier,
                ParsingError,
            >(Identifier::Version(value)),
            value@.len() > 0 && is_ascii_digit(value@[0]) && !version_parses(value@) ==> r
                == Err::<Identifier, ParsingError>(ParsingError::InvalidVersion),
            value@.len() > 0 && !is_ascii_digit(value@[0]) ==> r == Ok::<
                Identifier,
                ParsingError,
            >(Identifier::Name(value)),
    {
        if value.as_str().is_empty() {
            return Err(ParsingError::ZeroLength);
        }
        let first = value.as_str().get_char(0);
        if '0' <= first && first <= '9' {
            if check_version_parses(value.as_str()) {
                Ok(Identifier::Version(value))
            } else {
                Err(ParsingError::InvalidVersion)
            }
        } else {
            Ok(Identifier::Name(value))
        }
    }
}

} // verus!
