use bender::checkout::{
    ensure_step, Action, CheckoutState, CloneEvent, MAX_CLONE_ATTEMPTS,
};
use bender::error::CheckoutError;
use bender::graph::Graph;
use bender::session::{dependency_name, rank_groups};
use bender::solve::{solve_name, Request, SolveError};
use bender::source::{resolve_git, GitRef, ResolvedSource};

fn git_request(requester: &str, commit: &str) -> Request {
    Request {
        requester: requester.to_string(),
        resolved: ResolvedSource::Revision {
            commit: commit.to_string(),
        },
    }
}

fn path_request(requester: &str, path: &str) -> Request {
    Request {
        requester: requester.to_string(),
        resolved: ResolvedSource::CanonicalPath {
            path: path.to_string(),
        },
    }
}

#[test]
fn equal_requests_merge() {
    // Two manifests request the same name with equal resolved sources:
    // resolution succeeds with exactly that one identity.
    let requests = vec![git_request("alpha", "cafe"), git_request("beta", "cafe")];
    let chosen = solve_name(&"common".to_string(), &requests).unwrap();
    assert!(chosen.same_identity(&requests[0].resolved));
}

#[test]
fn differing_requests_conflict() {
    // Differing resolved sources for one name: a conflict listing both
    // requesters with their resolved values.
    let requests = vec![git_request("alpha", "cafe"), git_request("beta", "beef")];
    match solve_name(&"common".to_string(), &requests) {
        Err(SolveError::ConflictingSource { name, candidates }) => {
            assert_eq!(name, "common");
            assert_eq!(candidates.len(), 2);
            assert_eq!(candidates[0].requester, "alpha");
            assert_eq!(candidates[1].requester, "beta");
            assert!(candidates[0].resolved.same_identity(&requests[0].resolved));
            assert!(candidates[1].resolved.same_identity(&requests[1].resolved));
        }
        Ok(_) => panic!("expected a conflict"),
    }
}

#[test]
fn path_pin_overrides_versions() {
    // A local-path pin wins over version-based requests for the same name.
    let requests = vec![
        git_request("alpha", "cafe"),
        path_request("dev", "/work/ip/common"),
        git_request("beta", "beef"),
    ];
    let chosen = solve_name(&"common".to_string(), &requests).unwrap();
    assert!(chosen.same_identity(&requests[1].resolved));
}

#[test]
fn two_distinct_paths_conflict() {
    let requests = vec![
        path_request("dev", "/work/ip/common"),
        path_request("ci", "/mnt/ip/common"),
    ];
    match solve_name(&"common".to_string(), &requests) {
        Err(SolveError::ConflictingSource { name, candidates }) => {
            assert_eq!(name, "common");
            assert_eq!(candidates.len(), 2);
        }
        Ok(_) => panic!("expected a conflict"),
    }
}

#[test]
fn transitive_reference_conflict() {
    // One manifest names package X via "v1.0", a transitive path via "v2.0"
    // of the same repository: the references pin different revisions, so
    // resolution reports ConflictingSource for X.
    let refs = vec![
        GitRef {
            name: "v1.0".to_string(),
            commit: "aaaa".to_string(),
        },
        GitRef {
            name: "v2.0".to_string(),
            commit: "bbbb".to_string(),
        },
    ];
    let direct = resolve_git(&"v1.0".to_string(), &refs).unwrap();
    let transitive = resolve_git(&"v2.0".to_string(), &refs).unwrap();
    let requests = vec![
        Request {
            requester: "top".to_string(),
            resolved: direct,
        },
        Request {
            requester: "middleware".to_string(),
            resolved: transitive,
        },
    ];
    match solve_name(&"x".to_string(), &requests) {
        Err(SolveError::ConflictingSource { name, candidates }) => {
            assert_eq!(name, "x");
            assert_eq!(candidates.len(), 2);
            assert_eq!(candidates[0].requester, "top");
            assert_eq!(candidates[1].requester, "middleware");
        }
        Ok(_) => panic!("expected a conflict"),
    }
}

#[test]
fn ensure_reuses_ready_checkout() {
    // The idempotent fast path: a Ready checkout with matching identity is
    // returned unchanged and no clone starts.
    let (state, action) = ensure_step(CheckoutState::Ready, true, 0, CloneEvent::Idle);
    assert_eq!(state, CheckoutState::Ready);
    assert_eq!(action, Action::Nothing);
}

#[test]
fn ensure_twice_clones_once() {
    // First ensure: nothing on disk, so one clone runs and succeeds.
    let (state, action) = ensure_step(CheckoutState::Absent, false, 0, CloneEvent::Idle);
    assert_eq!(state, CheckoutState::Cloning);
    assert_eq!(action, Action::StartClone);
    let (state, action) = ensure_step(state, false, 1, CloneEvent::Succeeded);
    assert_eq!(state, CheckoutState::Ready);
    assert_eq!(action, Action::Nothing);
    // Second ensure with the same identity: no further clone.
    let (state, action) = ensure_step(state, true, 0, CloneEvent::Idle);
    assert_eq!(state, CheckoutState::Ready);
    assert_eq!(action, Action::Nothing);
}

#[test]
fn stale_checkout_is_refetched() {
    let (state, action) = ensure_step(CheckoutState::Stale, false, 0, CloneEvent::Idle);
    assert_eq!(state, CheckoutState::Cloning);
    assert_eq!(action, Action::StartClone);
    // A mismatching identity marker behaves like a stale entry.
    let (state, action) = ensure_step(CheckoutState::Ready, false, 0, CloneEvent::Idle);
    assert_eq!(state, CheckoutState::Cloning);
    assert_eq!(action, Action::StartClone);
}

#[test]
fn transient_failures_retry_up_to_the_bound() {
    let mut attempts: u64 = 1;
    let mut state = CheckoutState::Cloning;
    while attempts < MAX_CLONE_ATTEMPTS {
        let (next, action) = ensure_step(state, false, attempts, CloneEvent::FailedTransient);
        assert_eq!(next, CheckoutState::Cloning);
        assert_eq!(action, Action::Retry);
        state = next;
        attempts += 1;
    }
    // At the bound the failure surfaces and the checkout is Absent, never
    // falsely Ready.
    let (next, action) = ensure_step(state, false, attempts, CloneEvent::FailedTransient);
    assert_eq!(next, CheckoutState::Absent);
    assert_eq!(
        action,
        Action::Fail {
            error: CheckoutError::CloneFailed
        }
    );
}

#[test]
fn content_failures_do_not_retry() {
    let (state, action) = ensure_step(CheckoutState::Cloning, false, 0, CloneEvent::FailedContent);
    assert_eq!(state, CheckoutState::Absent);
    assert_eq!(
        action,
        Action::Fail {
            error: CheckoutError::CloneFailed
        }
    );
    let (state, action) =
        ensure_step(CheckoutState::Cloning, false, 0, CloneEvent::FailedPathOccupied);
    assert_eq!(state, CheckoutState::Absent);
    assert_eq!(
        action,
        Action::Fail {
            error: CheckoutError::PathConflict
        }
    );
}

#[test]
fn rank_grouped_listing() {
    // The diamond: A depends on {B, C}, B and C depend on {D}. Grouped by
    // rank the listing is ["D"], then ["B", "C"], then ["A"].
    let mut g = Graph::new();
    let a = g.add_package();
    let b = g.add_package();
    let c = g.add_package();
    let d = g.add_package();
    g.add_edge(a, b).unwrap();
    g.add_edge(a, c).unwrap();
    g.add_edge(b, d).unwrap();
    g.add_edge(c, d).unwrap();
    let names = vec![
        "A".to_string(),
        "B".to_string(),
        "C".to_string(),
        "D".to_string(),
    ];
    let ranks = g.topological_ranks().unwrap();
    let groups = rank_groups(&ranks);
    let lines: Vec<Vec<&str>> = groups
        .iter()
        .map(|group| {
            group
                .iter()
                .map(|&id| dependency_name(&names, id).as_str())
                .collect()
        })
        .collect();
    assert_eq!(lines, vec![vec!["D"], vec!["B", "C"], vec!["A"]]);
}

#[test]
fn rank_groups_of_nothing() {
    let groups = rank_groups(&Vec::new());
    assert!(groups.is_empty());
}
