//! Build specifications: the concrete [`Node`] type the build command feeds
//! to the dependency graph. The surrounding program deserializes spec files
//! into these values; here they carry plain strings, with semver consulted
//! through the trusted calls of [`crate::versions`].

use vstd::prelude::*;

use crate::graph::Node;
use crate::versions::check_req_matches;
use crate::versions::req_matches;
use crate::versions::req_parses;
use crate::versions::version_parses;

verus! {

/// One declared dependency of a build spec: a package name and a semver
/// requirement, kept as its textual form.
#[derive(Debug)]
pub struct Dependency {
    pub name: String,
    pub version: String,
}

/// A build specification: a named, versioned unit of work and the
/// dependencies that must be built before it. The version is kept as its
/// textual semver form.
#[derive(Debug)]
pub struct BuildSpec {
    pub name: String,
    pub version: String,
    pub dependencies: Vec<Dependency>,
}

impl Node for BuildSpec {
    type DependencyType = Dependency;

    open spec fn spec_dependencies(&self) -> Seq<Dependency> {
        self.dependencies@
    }

    /// A spec satisfies a dependency when the names agree and the spec's
    /// version meets the dependency's requirement; a version or requirement
    /// text that semver rejects satisfies nothing.
    open spec fn spec_matches(&self, dependency: &Dependency) -> bool {
        &&& dependency.name@ == self.name@
        &&& req_parses(dependency.version@)
        &&& version_parses(self.version@)
        &&& req_matches(dependency.version@, self.version@)
    }

    fn dependencies(&self) -> (r: &[Dependency]) {
        self.dependencies.as_slice()
    }

    fn matches(&self, dependency: &Dependency) -> (r: bool) {
        if dependency.name == self.name {
            match check_req_matches(dependency.version.as_str(), self.version.as_str()) {
                Some(m) => m,
                None => false,
            }
        } else {
            false
        }
    }
}

/// The build subcommand: paths to one or more build spec files. Reading the
/// files, draining the graph and running the builds belong to the
/// surrounding program; the command itself only carries the argument values.
pub struct BuildCmd {
    pub spec: Vec<String>,
}

impl BuildCmd {
    pub fn execute(&self) {
    }
}

} // verus!
