use bender::error::ResolutionError;
use bender::graph::{Graph, GraphError, PackageId};
use bender::source::{
    resolve_git, resolve_path, resolve_registry, GitRef, ResolvedSource, Version, VersionReq,
};

fn diamond() -> (Graph, PackageId, PackageId, PackageId, PackageId) {
    // A depends on {B, C}; B depends on {D}; C depends on {D}.
    let mut g = Graph::new();
    let a = g.add_package();
    let b = g.add_package();
    let c = g.add_package();
    let d = g.add_package();
    g.add_edge(a, b).unwrap();
    g.add_edge(a, c).unwrap();
    g.add_edge(b, d).unwrap();
    g.add_edge(c, d).unwrap();
    (g, a, b, c, d)
}

#[test]
fn diamond_ranks() {
    let (g, a, b, c, d) = diamond();
    let ranks = g.topological_ranks().unwrap();
    assert_eq!(ranks[d.index], 0);
    assert_eq!(ranks[b.index], 1);
    assert_eq!(ranks[c.index], 1);
    assert_eq!(ranks[a.index], 2);
}

#[test]
fn diamond_is_acyclic() {
    let (g, _, _, _, _) = diamond();
    assert!(g.detect_cycles().is_ok());
}

#[test]
fn two_cycle_detected() {
    // X depends on Y and Y depends on X.
    let mut g = Graph::new();
    let x = g.add_package();
    let y = g.add_package();
    g.add_edge(x, y).unwrap();
    g.add_edge(y, x).unwrap();
    match g.topological_ranks() {
        Err(GraphError::CyclicDependency { cycle }) => {
            assert!(cycle.contains(&x));
            assert!(cycle.contains(&y));
            assert_eq!(cycle.len(), 2);
        }
        other => panic!("expected a cycle, got {other:?}"),
    }
    assert!(g.detect_cycles().is_err());
}

#[test]
fn self_edge_refused() {
    let mut g = Graph::new();
    let x = g.add_package();
    assert_eq!(g.add_edge(x, x), Err(GraphError::SelfDependency { id: x }));
}

#[test]
fn duplicate_edge_refused() {
    let mut g = Graph::new();
    let x = g.add_package();
    let y = g.add_package();
    g.add_edge(x, y).unwrap();
    assert_eq!(
        g.add_edge(x, y),
        Err(GraphError::DuplicateEdge { from: x, to: y })
    );
}

#[test]
fn unknown_package_refused() {
    let mut g = Graph::new();
    let x = g.add_package();
    let missing = PackageId { index: 7 };
    assert_eq!(
        g.add_edge(x, missing),
        Err(GraphError::UnknownPackage { id: missing })
    );
}

#[test]
fn parents_index() {
    let (g, a, b, c, d) = diamond();
    let parents_of_d = g.parents_of(d);
    assert_eq!(parents_of_d, vec![b, c]);
    let parents_of_a = g.parents_of(a);
    assert!(parents_of_a.is_empty());
}

#[test]
fn registry_picks_highest_satisfying() {
    let available = vec![
        Version::new(1, 0, 0),
        Version::new(1, 2, 3),
        Version::new(2, 0, 0),
        Version::new(1, 2, 1),
    ];
    let req = VersionReq::Compatible {
        version: Version::new(1, 0, 0),
    };
    assert_eq!(resolve_registry(&req, &available), Ok(Version::new(1, 2, 3)));
    let any = resolve_registry(&VersionReq::Any, &available);
    assert_eq!(any, Ok(Version::new(2, 0, 0)));
}

#[test]
fn registry_no_matching_version() {
    let available = vec![Version::new(1, 0, 0)];
    let req = VersionReq::AtLeast {
        version: Version::new(3, 0, 0),
    };
    assert_eq!(
        resolve_registry(&req, &available),
        Err(ResolutionError::NoMatchingVersion)
    );
}

#[test]
fn git_reference_resolution() {
    let refs = vec![
        GitRef {
            name: "v1.0".to_string(),
            commit: "aaaa".to_string(),
        },
        GitRef {
            name: "v2.0".to_string(),
            commit: "bbbb".to_string(),
        },
    ];
    let one = resolve_git(&"v1.0".to_string(), &refs).unwrap();
    let two = resolve_git(&"v2.0".to_string(), &refs).unwrap();
    // The same repository through two references: distinct identities.
    assert!(!one.same_identity(&two));
    assert!(one.same_identity(&ResolvedSource::Revision {
        commit: "aaaa".to_string()
    }));
    assert_eq!(
        resolve_git(&"v9.9".to_string(), &refs).unwrap_err(),
        ResolutionError::InvalidReference
    );
}

#[test]
fn path_resolution() {
    let ok = resolve_path(Some("/work/ip/alpha".to_string())).unwrap();
    assert!(ok.same_identity(&ResolvedSource::CanonicalPath {
        path: "/work/ip/alpha".to_string()
    }));
    assert_eq!(
        resolve_path(None).unwrap_err(),
        ResolutionError::UnreachableSource
    );
}

#[test]
fn equal_identities_deduplicate() {
    // Two requesters naming the same resolved source compare equal.
    let first = ResolvedSource::Revision {
        commit: "cafe".to_string(),
    };
    let second = ResolvedSource::Revision {
        commit: "cafe".to_string(),
    };
    assert!(first.same_identity(&second));
    // Differing resolved sources for one name are a conflict.
    let third = ResolvedSource::Revision {
        commit: "beef".to_string(),
    };
    assert!(!first.same_identity(&third));
    assert!(!first.same_identity(&ResolvedSource::Release {
        version: Version::new(1, 0, 0)
    }));
}

#[test]
fn version_order_and_satisfaction() {
    let a = Version::new(1, 2, 3);
    let b = Version::new(1, 3, 0);
    assert!(a.le(&b));
    assert!(!b.le(&a));
    assert!(a.le(&a));
    assert!(Version::new(0, 9, 9).le(&Version::new(1, 0, 0)));
    let compat = VersionReq::Compatible {
        version: Version::new(1, 2, 0),
    };
    assert_eq!(resolve_registry(&compat, &vec![b]), Ok(b));
    assert_eq!(
        resolve_registry(&compat, &vec![Version::new(2, 0, 0)]),
        Err(ResolutionError::NoMatchingVersion)
    );
}
