//! The constraint solver: one resolved source per logical package name.
//!
//! For each distinct package name appearing anywhere in the manifest tree,
//! every requester's descriptor is first resolved independently (see
//! [`crate::source`]) and the resulting identities are compared here. Equal
//! identities merge, enabling transitive re-use of a dependency declared by
//! several packages; differing identities are a genuine conflict, reported
//! with every requester and its resolved value — no heuristic tie-breaking.
//! A local-path pin overrides version-based requests for the same name (the
//! local-development override), but two different paths for one name remain
//! a hard conflict.

use vstd::prelude::*;

use crate::source::{ResolvedSource, SourceId};

verus! {

/// One request for a package name: the requesting package and the identity
/// its descriptor resolved to.
#[derive(Debug)]
pub struct Request {
    pub requester: String,
    pub resolved: ResolvedSource,
}

/// Requesters disagree on a package's resolved identity; every requester
/// and its resolved value is listed for diagnosis.
#[derive(Debug)]
pub enum SolveError {
    ConflictingSource { name: String, candidates: Vec<Request> },
}

impl SolveError {
    /// The disputed package name.
    pub open spec fn spec_name(self) -> Seq<char> {
        match self {
            SolveError::ConflictingSource { name, .. } => name@,
        }
    }

    /// Every requester of the disputed name with its resolved identity.
    pub open spec fn spec_candidates(self) -> Seq<Request> {
        match self {
            SolveError::ConflictingSource { candidates, .. } => candidates@,
        }
    }
}

/// Every request resolved to the same identity.
pub open spec fn all_equal(reqs: Seq<Request>) -> bool {
    forall|i: int, j: int|
        0 <= i < reqs.len() && 0 <= j < reqs.len() ==> (#[trigger] reqs[i].resolved@)
            == (#[trigger] reqs[j].resolved@)
}

/// Some request pins a local path.
pub open spec fn has_path(reqs: Seq<Request>) -> bool {
    exists|i: int| 0 <= i < reqs.len() && (#[trigger] reqs[i].resolved@) is CanonicalPath
}

/// All path pins agree.
pub open spec fn paths_agree(reqs: Seq<Request>) -> bool {
    forall|i: int, j: int|
        0 <= i < reqs.len() && 0 <= j < reqs.len() && (#[trigger] reqs[i].resolved@) is CanonicalPath
            && (#[trigger] reqs[j].resolved@) is CanonicalPath ==> reqs[i].resolved@
            == reqs[j].resolved@
}

/// The requests for one name conflict: differing path pins, or, without any
/// path pin, differing identities.
pub open spec fn conflicted(reqs: Seq<Request>) -> bool {
    if has_path(reqs) {
        !paths_agree(reqs)
    } else {
        !all_equal(reqs)
    }
}

/// Pick the one resolved source for `name` from every request for it: equal
/// identities merge into one, a single distinct path pin overrides
/// version-based requests, and anything else is a conflict naming every
/// requester.
pub fn solve_name(name: &String, requests: &Vec<Request>) -> (r: Result<
    ResolvedSource,
    SolveError,
>)
    requires
        requests@.len() >= 1,
    ensures
        (r is Ok) <==> !conflicted(requests@),
        r matches Ok(rs) ==> (has_path(requests@) ==> rs@ is CanonicalPath && exists|i: int|
            0 <= i < requests@.len() && (#[trigger] requests@[i].resolved@) == rs@),
        r matches Ok(rs) ==> (!has_path(requests@) ==> rs@ == requests@[0].resolved@),
        r matches Err(e) ==> e.spec_name() == name@ && e.spec_candidates().len()
            == requests@.len(),
        r matches Err(e) ==> (forall|t: int|
            0 <= t < requests@.len() ==> (#[trigger] e.spec_candidates()[t].requester@)
                == requests@[t].requester@),
        r matches Err(e) ==> (forall|t: int|
            0 <= t < requests@.len() ==> (#[trigger] e.spec_candidates()[t].resolved@)
                == requests@[t].resolved@),
{
    let n = requests.len();
    let mut base: usize = 0;
    let mut found_path = false;
    for j in 0..n
        invariant
            n == requests@.len(),
            found_path ==> (base < n && requests@[base as int].resolved@ is CanonicalPath),
            !found_path ==> (forall|t: int|
                0 <= t < j ==> !((#[trigger] requests@[t].resolved@) is CanonicalPath)),
    {
        if !found_path && requests[j].resolved.is_path() {
            base = j;
            found_path = true;
        }
    }
    proof {
        if !found_path && has_path(requests@) {
            let i = choose|i: int|
                0 <= i < requests@.len() && (#[trigger] requests@[i].resolved@) is CanonicalPath;
            assert(false);
        }
    }
    if found_path {
        for j in 0..n
            invariant
                n == requests@.len(),
                base < n,
                requests@[base as int].resolved@ is CanonicalPath,
                forall|t: int|
                    0 <= t < j && (#[trigger] requests@[t].resolved@) is CanonicalPath
                        ==> requests@[t].resolved@ == requests@[base as int].resolved@,
        {
            if requests[j].resolved.is_path() && !requests[j].resolved.same_identity(
                &requests[base].resolved,
            ) {
                proof {
                    assert(!paths_agree(requests@));
                }
                return Err(conflict_report(name, requests));
            }
        }
        proof {
            assert(paths_agree(requests@));
        }
        Ok(requests[base].resolved.duplicate())
    } else {
        for j in 0..n
            invariant
                n == requests@.len(),
                n >= 1,
                forall|t: int|
                    0 <= t < n ==> !((#[trigger] requests@[t].resolved@) is CanonicalPath),
                forall|t: int|
                    0 <= t < j ==> (#[trigger] requests@[t].resolved@) == requests@[0].resolved@,
        {
            if !requests[j].resolved.same_identity(&requests[0].resolved) {
                proof {
                    assert(!all_equal(requests@));
                    if has_path(requests@) {
                        let i = choose|i: int|
                            0 <= i < requests@.len() && (#[trigger] requests@[i].resolved@) is CanonicalPath;
                        assert(false);
                    }
                }
                return Err(conflict_report(name, requests));
            }
        }
        proof {
            assert(all_equal(requests@));
            if has_path(requests@) {
                let i = choose|i: int|
                    0 <= i < requests@.len() && (#[trigger] requests@[i].resolved@) is CanonicalPath;
                assert(false);
            }
        }
        Ok(requests[0].resolved.duplicate())
    }
}

/// The conflict report for one name: every requester with its resolved
/// identity, in request order.
fn conflict_report(name: &String, requests: &Vec<Request>) -> (e: SolveError)
    ensures
        e.spec_name() == name@,
        e.spec_candidates().len() == requests@.len(),
        forall|t: int|
            0 <= t < requests@.len() ==> (#[trigger] e.spec_candidates()[t].requester@)
                == requests@[t].requester@,
        forall|t: int|
            0 <= t < requests@.len() ==> (#[trigger] e.spec_candidates()[t].resolved@)
                == requests@[t].resolved@,
{
    let m = requests.len();
    let mut candidates: Vec<Request> = Vec::new();
    for t in 0..m
        invariant
            m == requests@.len(),
            candidates@.len() == t,
            forall|u: int|
                0 <= u < t ==> (#[trigger] candidates@[u].requester@)
                    == requests@[u].requester@,
            forall|u: int|
                0 <= u < t ==> (#[trigger] candidates@[u].resolved@) == requests@[u].resolved@,
    {
        candidates.push(
            Request {
                requester: requests[t].requester.clone(),
                resolved: requests[t].resolved.duplicate(),
            },
        );
    }
    SolveError::ConflictingSource { name: name.clone(), candidates }
}

} // verus!
