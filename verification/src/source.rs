//! Source descriptors and their resolution to concrete identities.
//!
//! A manifest declares each dependency through a [`SourceDescriptor`]: a
//! version-control reference, a local path, or a registry constraint. The
//! resolver turns a descriptor into a [`ResolvedSource`], a concrete and
//! comparable identity (a pinned revision, a canonical path, a concrete
//! version). Two resolved sources are equal exactly when they denote the
//! same on-disk content.
//!
//! Fetching remote metadata and canonicalizing paths happen outside this
//! library; the resolver receives those observations as plain values
//! ([`SourceFacts`]) and makes the selection decision here, verified.

use vstd::prelude::*;

use crate::error::ResolutionError;

verus! {

/// Decide whether two strings hold the same characters.
pub fn string_eq(a: &String, b: &String) -> (r: bool)
    ensures
        r == (a@ == b@),
{
    a.eq(b)
}

/// A concrete semantic version, ordered lexicographically by
/// (major, minor, patch).
#[derive(Debug, Clone, Copy, PartialEq, Eq, Structural)]
pub struct Version {
    pub major: u64,
    pub minor: u64,
    pub patch: u64,
}

/// True when `a` precedes or equals `b` in semantic-version order.
pub open spec fn version_le(a: Version, b: Version) -> bool {
    ||| a.major < b.major
    ||| (a.major == b.major && a.minor < b.minor)
    ||| (a.major == b.major && a.minor == b.minor && a.patch <= b.patch)
}

impl Version {
    pub fn new(major: u64, minor: u64, patch: u64) -> (v: Version)
        ensures
            v == (Version { major, minor, patch }),
    {
        Version { major, minor, patch }
    }

    /// Decide semantic-version order.
    pub fn le(&self, other: &Version) -> (r: bool)
        ensures
            r == version_le(*self, *other),
    {
        if self.major != other.major {
            self.major < other.major
        } else if self.minor != other.minor {
            self.minor < other.minor
        } else {
            self.patch <= other.patch
        }
    }
}

/// A constraint on registry versions, as written in a manifest.
#[derive(Debug, Clone, Copy, PartialEq, Eq, Structural)]
pub enum VersionReq {
    /// Any version is acceptable.
    Any,
    /// Exactly the given version.
    Exact { version: Version },
    /// The given version or any later one.
    AtLeast { version: Version },
    /// The given version or any later one with the same major number.
    Compatible { version: Version },
}

/// True when version `v` satisfies the constraint `req`.
pub open spec fn satisfies(v: Version, req: VersionReq) -> bool {
    match req {
        VersionReq::Any => true,
        VersionReq::Exact { version } => v == version,
        VersionReq::AtLeast { version } => version_le(version, v),
        VersionReq::Compatible { version } => v.major == version.major && version_le(version, v),
    }
}

/// Decide whether `v` satisfies `req`.
pub fn version_satisfies(v: &Version, req: &VersionReq) -> (r: bool)
    ensures
        r == satisfies(*v, *req),
{
    match req {
        VersionReq::Any => true,
        VersionReq::Exact { version } => *v == *version,
        VersionReq::AtLeast { version } => version.le(v),
        VersionReq::Compatible { version } => v.major == version.major && version.le(v),
    }
}

/// A dependency source as declared in a manifest, not yet resolved.
#[derive(Debug, Clone)]
pub enum SourceDescriptor {
    /// A version-control repository and a reference constraint (branch, tag
    /// or revision expression).
    Git { url: String, reference: String },
    /// A local directory.
    Path { location: String },
    /// A named package in a registry, constrained by version.
    Registry { name: String, constraint: VersionReq },
}

/// The concrete, comparable identity a descriptor resolves to.
#[derive(Debug)]
pub enum ResolvedSource {
    /// A pinned immutable revision of a repository.
    Revision { commit: String },
    /// A canonical absolute path.
    CanonicalPath { path: String },
    /// A concrete registry version.
    Release { version: Version },
}

/// The mathematical identity of a resolved source.
pub enum SourceId {
    Revision { commit: Seq<char> },
    CanonicalPath { path: Seq<char> },
    Release { version: Version },
}

impl View for ResolvedSource {
    type V = SourceId;

    open spec fn view(&self) -> SourceId {
        match self {
            ResolvedSource::Revision { commit } => SourceId::Revision { commit: commit@ },
            ResolvedSource::CanonicalPath { path } => SourceId::CanonicalPath { path: path@ },
            ResolvedSource::Release { version } => SourceId::Release { version: *version },
        }
    }
}

impl ResolvedSource {
    /// An equal copy; the identity is plain data.
    pub fn duplicate(&self) -> (r: ResolvedSource)
        ensures
            r@ == self@,
    {
        match self {
            ResolvedSource::Revision { commit } => ResolvedSource::Revision { commit: commit.clone() },
            ResolvedSource::CanonicalPath { path } => ResolvedSource::CanonicalPath {
                path: path.clone(),
            },
            ResolvedSource::Release { version } => ResolvedSource::Release { version: *version },
        }
    }

    /// Two resolved sources denote the same on-disk content iff their
    /// identities are equal.
    pub fn same_identity(&self, other: &ResolvedSource) -> (r: bool)
        ensures
            r == (self@ == other@),
    {
        match (self, other) {
            (ResolvedSource::Revision { commit: a }, ResolvedSource::Revision { commit: b }) => string_eq(
                a,
                b,
            ),
            (
                ResolvedSource::CanonicalPath { path: a },
                ResolvedSource::CanonicalPath { path: b },
            ) => string_eq(a, b),
            (ResolvedSource::Release { version: a }, ResolvedSource::Release { version: b }) => *a
                == *b,
            _ => false,
        }
    }

    /// True when the identity pins a local path (the kind that overrides
    /// version-based requests during constraint solving).
    pub fn is_path(&self) -> (r: bool)
        ensures
            r == (self@ is CanonicalPath),
    {
        match self {
            ResolvedSource::CanonicalPath { .. } => true,
            _ => false,
        }
    }
}

/// One advertised reference of a repository: a name and the revision it
/// points at, as listed by the version-control tool.
#[derive(Debug, Clone)]
pub struct GitRef {
    pub name: String,
    pub commit: String,
}

/// Externally observed facts a descriptor is resolved against: the
/// repository's advertised references, the canonicalized path (absent when
/// the path does not exist), or the registry's published versions.
#[derive(Debug)]
pub enum SourceFacts {
    GitRefs { refs: Vec<GitRef> },
    PathInfo { canonical: Option<String> },
    RegistryIndex { available: Vec<Version> },
}

/// True when the facts are of the kind the descriptor needs.
pub open spec fn facts_match(d: SourceDescriptor, f: SourceFacts) -> bool {
    match d {
        SourceDescriptor::Git { .. } => f is GitRefs,
        SourceDescriptor::Path { .. } => f is PathInfo,
        SourceDescriptor::Registry { .. } => f is RegistryIndex,
    }
}

/// Resolve a reference constraint against the advertised references: the
/// first reference with the requested name wins; a missing name is an
/// invalid reference.
pub fn resolve_git(reference: &String, refs: &Vec<GitRef>) -> (r: Result<
    ResolvedSource,
    ResolutionError,
>)
    ensures
        (r is Ok) <==> (exists|j: int| 0 <= j < refs@.len() && refs@[j].name@ == reference@),
        r matches Ok(rs) ==> exists|j: int|
            0 <= j < refs@.len() && refs@[j].name@ == reference@ && rs@ == (SourceId::Revision {
                commit: refs@[j].commit@,
            }) && (forall|k: int| 0 <= k < j ==> refs@[k].name@ != reference@),
        r matches Err(e) ==> e == ResolutionError::InvalidReference,
{
    let n = refs.len();
    for j in 0..n
        invariant
            n == refs@.len(),
            forall|k: int| 0 <= k < j ==> refs@[k].name@ != reference@,
    {
        if string_eq(&refs[j].name, reference) {
            return Ok(ResolvedSource::Revision { commit: refs[j].commit.clone() });
        }
    }
    Err(ResolutionError::InvalidReference)
}

/// Resolve a local-path source from its canonicalization: an existing path
/// resolves to its canonical form, a missing one is unreachable.
pub fn resolve_path(canonical: Option<String>) -> (r: Result<ResolvedSource, ResolutionError>)
    ensures
        (r is Ok) <==> (canonical is Some),
        canonical matches Some(p) ==> (r matches Ok(rs) && rs@ == (SourceId::CanonicalPath {
            path: p@,
        })),
        r matches Err(e) ==> e == ResolutionError::UnreachableSource,
{
    match canonical {
        Some(p) => Ok(ResolvedSource::CanonicalPath { path: p }),
        None => Err(ResolutionError::UnreachableSource),
    }
}

/// Select from the registry index the highest version satisfying the
/// constraint; fail when none does.
pub fn resolve_registry(constraint: &VersionReq, available: &Vec<Version>) -> (r: Result<
    Version,
    ResolutionError,
>)
    ensures
        (r is Ok) <==> (exists|j: int|
            0 <= j < available@.len() && satisfies(available@[j], *constraint)),
        r matches Ok(v) ==> (exists|j: int|
            0 <= j < available@.len() && v == available@[j] && satisfies(v, *constraint)) && (
        forall|k: int|
            0 <= k < available@.len() && satisfies(available@[k], *constraint) ==> version_le(
                available@[k],
                v,
            )),
        r matches Err(e) ==> e == ResolutionError::NoMatchingVersion,
{
    let n = available.len();
    let mut has_best = false;
    let mut best = Version { major: 0, minor: 0, patch: 0 };
    for j in 0..n
        invariant
            n == available@.len(),
            has_best <==> (exists|t: int| 0 <= t < j && satisfies(available@[t], *constraint)),
            has_best ==> (exists|t: int|
                0 <= t < j && best == available@[t] && satisfies(best, *constraint)),
            has_best ==> (forall|t: int|
                0 <= t < j && satisfies(available@[t], *constraint) ==> version_le(
                    available@[t],
                    best,
                )),
    {
        let v = available[j];
        if version_satisfies(&v, constraint) {
            if !has_best || best.le(&v) {
                best = v;
                has_best = true;
            }
        }
    }
    if has_best {
        Ok(best)
    } else {
        Err(ResolutionError::NoMatchingVersion)
    }
}

/// Resolve one descriptor against the facts observed for it: the variant
/// dispatch over source kinds.
pub fn resolve(d: &SourceDescriptor, facts: SourceFacts) -> (r: Result<
    ResolvedSource,
    ResolutionError,
>)
    requires
        facts_match(*d, facts),
    ensures
        d matches SourceDescriptor::Git { url, reference } ==> (facts matches SourceFacts::GitRefs {
            refs,
        } ==> {
            &&& (r is Ok) <==> (exists|j: int|
                0 <= j < refs@.len() && refs@[j].name@ == reference@)
            &&& r matches Ok(rs) ==> exists|j: int|
                0 <= j < refs@.len() && refs@[j].name@ == reference@ && rs@
                    == (SourceId::Revision { commit: refs@[j].commit@ }) && (forall|k: int|
                    0 <= k < j ==> refs@[k].name@ != reference@)
            &&& r matches Err(e) ==> e == ResolutionError::InvalidReference
        }),
        d matches SourceDescriptor::Path { location } ==> (facts matches SourceFacts::PathInfo {
            canonical,
        } ==> {
            &&& (r is Ok) <==> (canonical is Some)
            &&& canonical matches Some(p) ==> (r matches Ok(rs) && rs@
                == (SourceId::CanonicalPath { path: p@ }))
            &&& r matches Err(e) ==> e == ResolutionError::UnreachableSource
        }),
        d matches SourceDescriptor::Registry { name, constraint } ==> (
        facts matches SourceFacts::RegistryIndex { available } ==> {
            &&& (r is Ok) <==> (exists|j: int|
                0 <= j < available@.len() && satisfies(available@[j], *constraint))
            &&& r matches Ok(rs) ==> (exists|j: int|
                0 <= j < available@.len() && rs@ == (SourceId::Release {
                    version: available@[j],
                }) && satisfies(available@[j], *constraint) && (forall|k: int|
                    0 <= k < available@.len() && satisfies(available@[k], *constraint)
                        ==> version_le(available@[k], available@[j])))
            &&& r matches Err(e) ==> e == ResolutionError::NoMatchingVersion
        }),
{
    match d {
        SourceDescriptor::Git { url: _, reference } => {
            match facts {
                SourceFacts::GitRefs { refs } => resolve_git(reference, &refs),
                _ => Err(ResolutionError::UnreachableSource),
            }
        },
        SourceDescriptor::Path { location: _ } => {
            match facts {
                SourceFacts::PathInfo { canonical } => resolve_path(canonical),
                _ => Err(ResolutionError::UnreachableSource),
            }
        },
        SourceDescriptor::Registry { name: _, constraint } => {
            match facts {
                SourceFacts::RegistryIndex { available } => {
                    match resolve_registry(constraint, &available) {
                        Ok(v) => Ok(ResolvedSource::Release { version: v }),
                        Err(e) => Err(e),
                    }
                },
                _ => Err(ResolutionError::UnreachableSource),
            }
        },
    }
}

} // verus!
