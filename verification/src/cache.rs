//! The artifact cache: packages laid out as a directory tree whose path
//! components are name segments ending in a version directory. The
//! surrounding program does the directory reading; the decisions — how each
//! entry is classified and what to do with it — live here.

use vstd::prelude::*;

use crate::identifier::Identifier;
use crate::identifier::NameIdentifier;
use crate::identifier::ParsingError;
use crate::identifier::VersionIdentifier;
use crate::identifier::is_ascii_digit;
use crate::versions::version_parses;

verus! {

/// A cache failure: an I/O error text from the surrounding program, a
/// directory entry that is no valid identifier, or a version directory
/// outside any package name.
#[derive(Debug)]
pub enum Error {
    IO(String),
    Identifier(ParsingError),
    UnnamedPackage(String),
}

/// One file stored under a package's version directory.
#[derive(Debug)]
pub struct Artifact {
    pub path: String,
}

/// A package found in the cache: its name path, its version, and the files
/// stored for it.
#[derive(Debug)]
pub struct Package {
    pub name: Vec<NameIdentifier>,
    pub version: VersionIdentifier,
    pub artifacts: Vec<Artifact>,
}

/// A handle on a cache directory.
pub struct Cache {
    path: String,
}

/// What one directory entry of a cache walk asks for next: descend into the
/// entry under a longer package name, or record a package at this version.
#[derive(Debug)]
pub enum WalkAction {
    Descend(Vec<NameIdentifier>),
    Record(VersionIdentifier),
}

impl Cache {
    /// The directory this cache handle is rooted at.
    pub closed spec fn spec_path(self) -> Seq<char> {
        self.path@
    }

    /// Create a cache handle rooted at `path`. The surrounding program
    /// resolves the path against its working directory before calling.
    pub fn new(path: String) -> (r: Result<Cache, Error>)
        ensures
            r matches Ok(c) && c.spec_path() == path@,
    {
        Ok(Cache { path })
    }

    /// The root directory of this cache.
    pub fn path(&self) -> (r: &String)
        ensures
            r@ == self.spec_path(),
    {
        &self.path
    }

    /// Look up one package by exact name and version. The cache index is
    /// not implemented yet: nothing is ever found.
    pub fn get(name: Identifier, version: VersionIdentifier) -> (r: Option<Package>)
        ensures
            r is None,
    {
        None
    }

    /// List every cached version of one package. The cache index is not
    /// implemented yet: the list is always empty.
    pub fn list_versions(name: Identifier) -> (r: Vec<Package>)
        ensures
            r@.len() == 0,
    {
        vec![]
    }

    /// Find a package satisfying a version requirement. The cache index is
    /// not implemented yet: nothing is ever found.
    pub fn find(name: Identifier, required_version: String) -> (r: Option<Package>)
        ensures
            r is None,
    {
        None
    }

    /// Store a built package. The cache index is not implemented yet: the
    /// build is dropped.
    pub fn put(build: Package) {
    }
}

/// The decision for one directory entry while walking the cache tree, given
/// the package name accumulated so far: a name segment extends the package
/// name and is descended into; a version entry records a package, which is
/// legal only under a non-empty package name; anything else is an error.
/// `dir_path` is the directory holding the entry, reported when a version
/// directory has no package name above it.
pub fn walk_step(package_name: &Vec<NameIdentifier>, entry_name: String, dir_path: &String) -> (r:
    Result<WalkAction, Error>)
    ensures
        entry_name@.len() == 0 ==> r == Err::<WalkAction, Error>(
            Error::Identifier(ParsingError::ZeroLength),
        ),
        entry_name@.len() > 0 && is_ascii_digit(entry_name@[0]) && !version_parses(entry_name@)
            ==> r == Err::<WalkAction, Error>(Error::Identifier(ParsingError::InvalidVersion)),
        entry_name@.len() > 0 && is_ascii_digit(entry_name@[0]) && version_parses(entry_name@)
            && package_name@.len() == 0 ==> (r matches Err(e) && e matches Error::UnnamedPackage(p)
            && p@ == dir_path@),
        entry_name@.len() > 0 && is_ascii_digit(entry_name@[0]) && version_parses(entry_name@)
            && package_name@.len() > 0 ==> (r matches Ok(a) && a matches WalkAction::Record(v) && v
            == entry_name),
        entry_name@.len() > 0 && !is_ascii_digit(entry_name@[0]) ==> (r matches Ok(a) && a
            matches WalkAction::Descend(ext) && ext@ == package_name@.push(entry_name)),
{
    match Identifier::try_from(entry_name) {
        Ok(Identifier::Name(name)) => {
            let mut ext: Vec<NameIdentifier> = Vec::new();
            let mut i: usize = 0;
            while i < package_name.len()
                invariant
                    i <= package_name@.len(),
                    ext@.len() == i,
                    forall|k: int| 0 <= k < i ==> ext@[k] == package_name@[k],
                decreases package_name@.len() - i,
            {
                ext.push(package_name[i].clone());
                i += 1;
            }
            ext.push(name);
            proof {
                assert(ext@ =~= package_name@.push(ext@[ext@.len() - 1]));
            }
            Ok(WalkAction::Descend(ext))
        },
        Ok(Identifier::Version(version)) => {
            if package_name.len() == 0 {
                Err(Error::UnnamedPackage(dir_path.clone()))
            } else {
                Ok(WalkAction::Record(version))
            }
        },
        Err(e) => Err(Error::Identifier(e)),
    }
}

/// Wrap each artifact file path in an [`Artifact`], preserving order: the
/// pure part of listing a version directory's files.
pub fn artifacts_from_paths(paths: &Vec<String>) -> (r: Vec<Artifact>)
    ensures
        r@.len() == paths@.len(),
        forall|k: int| 0 <= k < r@.len() ==> (#[trigger] r@[k]).path == paths@[k],
{
    let mut r: Vec<Artifact> = Vec::new();
    let mut i: usize = 0;
    while i < paths.len()
        invariant
            i <= paths@.len(),
            r@.len() == i,
            forall|k: int| 0 <= k < i ==> (#[trigger] r@[k]).path == paths@[k],
        decreases paths@.len() - i,
    {
        r.push(Artifact { path: paths[i].clone() });
        i += 1;
    }
    r
}

} // verus!
