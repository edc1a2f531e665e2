//! A dependency manager core for hardware/IP packages.
//!
//! Given a set of manifests declaring named dependencies (each backed by a
//! version-control source, a local path, or a registry reference), this
//! library computes one globally consistent dependency graph, resolves
//! version/reference conflicts, assigns deterministic topological ranks used
//! for build ordering, and manages the lifecycle of on-disk checkouts.
//!
//! Command-line handling, manifest parsing and the actual invocation of
//! version-control tooling live outside this crate; the library works on
//! plain values handed in by that outer layer.

pub mod checkout;
pub mod error;
pub mod graph;
pub mod session;
pub mod solve;
pub mod source;
