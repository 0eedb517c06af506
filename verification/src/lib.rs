//! A dependency-resolution engine. A collection of interdependent items is
//! ingested into a directed graph — one vertex per item, one edge per
//! declared dependency, one extra vertex per dependency nothing in the
//! collection satisfies — and then drained one vertex at a time, each only
//! after everything it depends on, so dependencies are always handled before
//! their dependents and unsatisfiable requirements surface as first-class
//! results instead of errors.
//!
//! [`graph`] holds the engine; [`laws`] proves the guarantees of its
//! draining order. The remaining modules are the concrete layers around it:
//! [`build_spec`] the spec files' item type, [`identifier`] and [`cache`]
//! the artifact cache's naming scheme and decisions, [`versions`] the
//! trusted calls into the semver crate they rely on.

pub mod build_spec;
pub mod cache;
pub mod graph;
pub mod identifier;
pub mod laws;
pub mod versions;
