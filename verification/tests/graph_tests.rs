use orca::build_spec::{BuildSpec, Dependency};
use orca::graph::{DependencyGraph, Node, Step};

fn pkg(name: &str, version: &str, deps: &[(&str, &str)]) -> BuildSpec {
    BuildSpec {
        name: name.to_string(),
        version: version.to_string(),
        dependencies: deps
            .iter()
            .map(|(n, v)| Dependency { name: n.to_string(), version: v.to_string() })
            .collect(),
    }
}

fn drain_labels(graph: &mut DependencyGraph<BuildSpec>) -> Vec<String> {
    let mut labels = Vec::new();
    while let Some(step) = graph.next() {
        match step {
            Step::Resolved(spec) => labels.push(spec.name.clone()),
            Step::Unresolved(dep) => labels.push(format!("unresolved {}", dep.name)),
        }
    }
    labels
}

#[test]
fn test_dependencies_synchronous() {
    let build = vec![
        pkg("base", "1.2.3", &[]),
        pkg("derived", "1.2.3", &[("base", ">=1.0.0")]),
        pkg("second_order", "1.2.3", &[("derived", ">=1.0.0")]),
        pkg("converged", "1.2.3", &[("base", ">=1.0.0"), ("derived", ">=1.0.0")]),
        pkg("independent", "1.2.3", &[]),
        pkg("external", "1.2.3", &[("unknown", ">=1.0.0")]),
    ];
    let mut graph = DependencyGraph::from(&build[..]);

    assert!(!graph.is_internally_resolvable());

    while let Some(node) = graph.next() {
        match node {
            Step::Resolved(build) => println!("build: {:?}", build.name),
            Step::Unresolved(lookup) => println!("lookup: {:?}", lookup.name),
        }
    }
}

#[test]
fn test_generate_dependency_graph() {
    let build = vec![
        pkg("base", "1.2.3", &[]),
        pkg("derived", "1.2.3", &[("base", ">=1.0.0")]),
        pkg("second_order", "1.2.3", &[("derived", ">=1.0.0")]),
        pkg("converged", "1.2.3", &[("base", ">=1.0.0"), ("derived", ">=1.0.0")]),
        pkg("independent", "1.2.3", &[]),
        pkg("external", "1.2.3", &[("unknown", ">=1.0.0")]),
    ];
    DependencyGraph::from(&build[..]);
}

#[test]
fn test_internally_resolved() {
    let packages = vec![
        pkg("base", "1.2.3", &[]),
        pkg("derived", "3.2.0", &[("base", "=1.2.3")]),
        pkg("second_order", "11.2.4", &[("derived", ">=3.0.0")]),
    ];

    let mut graph = DependencyGraph::from(&packages[..]);

    while let Some(package) = graph.next() {
        match package {
            Step::Resolved(package) => println!("Building {}!", package.name),
            Step::Unresolved(_) => unreachable!(),
        }
    }
}

#[test]
fn test_empty_input_drains_nothing() {
    let packages: Vec<BuildSpec> = Vec::new();
    let mut graph = DependencyGraph::from(&packages[..]);
    assert!(graph.next().is_none());
    assert_eq!(graph.remaining_vertices(), 0);
    assert!(graph.is_internally_resolvable());
    assert_eq!(graph.unresolved_dependencies().len(), 0);
}

#[test]
fn test_diamond_drain_order() {
    let packages = vec![
        pkg("a", "1.0.0", &[]),
        pkg("b", "1.0.0", &[("a", ">=1.0.0")]),
        pkg("c", "1.0.0", &[("b", ">=1.0.0")]),
        pkg("d", "1.0.0", &[("a", ">=1.0.0"), ("b", ">=1.0.0")]),
    ];
    let mut graph = DependencyGraph::from(&packages[..]);
    assert!(graph.is_internally_resolvable());
    let order = drain_labels(&mut graph);
    assert_eq!(order.len(), 4);
    assert_eq!(order[0], "a");
    assert_eq!(order[1], "b");
    assert!(order.contains(&"c".to_string()));
    assert!(order.contains(&"d".to_string()));
    let pos = |name: &str| order.iter().position(|l| l == name).unwrap();
    assert!(pos("a") < pos("b"));
    assert!(pos("a") < pos("d"));
    assert!(pos("b") < pos("c"));
    assert!(pos("b") < pos("d"));
    assert_eq!(graph.remaining_vertices(), 0);
}

#[test]
fn test_dependency_free_items_deterministic_order() {
    let packages = vec![pkg("x", "1.0.0", &[]), pkg("y", "1.0.0", &[]), pkg("z", "1.0.0", &[])];
    let mut graph = DependencyGraph::from(&packages[..]);
    // Terminal vertices are taken in reverse creation order.
    assert_eq!(drain_labels(&mut graph), vec!["z", "y", "x"]);
    // The same input always drains the same way.
    let mut again = DependencyGraph::from(&packages[..]);
    assert_eq!(drain_labels(&mut again), vec!["z", "y", "x"]);
}

#[test]
fn test_unknown_dependency_yields_unresolved() {
    let packages = vec![pkg("e", "1.0.0", &[("unknown", ">=1.0.0")])];
    let mut graph = DependencyGraph::from(&packages[..]);
    assert!(!graph.is_internally_resolvable());
    let unresolved = graph.unresolved_dependencies();
    assert_eq!(unresolved.len(), 1);
    assert_eq!(unresolved[0].name, "unknown");

    // The unresolved vertex has no dependencies of its own, so it comes out
    // before the node that needs it.
    let first = graph.next().unwrap();
    match first {
        Step::Unresolved(dep) => assert_eq!(dep.name, "unknown"),
        Step::Resolved(_) => panic!("expected the unresolved descriptor first"),
    }
    // Once it is drained, the rest of the graph is internally resolvable.
    assert!(graph.is_internally_resolvable());
    assert_eq!(graph.unresolved_dependencies().len(), 0);

    let second = graph.next().unwrap();
    match second {
        Step::Resolved(spec) => assert_eq!(spec.name, "e"),
        Step::Unresolved(_) => panic!("expected the node last"),
    }
    assert!(graph.next().is_none());
    assert_eq!(graph.remaining_vertices(), 0);
}

#[test]
fn test_unmatched_descriptors_not_deduplicated() {
    let packages = vec![pkg("e", "1.0.0", &[("missing", ">=1.0.0"), ("missing", ">=1.0.0")])];
    let graph = DependencyGraph::from(&packages[..]);
    // One Unresolved vertex per unmatched dependency edge, even for equal
    // descriptors.
    assert_eq!(graph.unresolved_dependencies().len(), 2);
}

#[test]
fn test_cycle_stops_drain_with_residue() {
    let packages = vec![
        pkg("a", "1.0.0", &[("b", ">=1.0.0")]),
        pkg("b", "1.0.0", &[("a", ">=1.0.0")]),
    ];
    let mut graph = DependencyGraph::from(&packages[..]);
    assert!(graph.is_internally_resolvable());
    // Neither vertex ever becomes terminal: draining yields nothing.
    assert!(graph.next().is_none());
    assert!(graph.next().is_none());
    // Both vertices are left behind — the signature of a dependency cycle.
    assert_eq!(graph.remaining_vertices(), 2);
}

#[test]
fn test_self_dependency_never_terminal() {
    let packages = vec![pkg("selfish", "1.0.0", &[("selfish", ">=1.0.0")])];
    let mut graph = DependencyGraph::from(&packages[..]);
    assert!(graph.next().is_none());
    assert_eq!(graph.remaining_vertices(), 1);
}

#[test]
fn test_first_match_wins() {
    // Both candidates match; the edge goes to the first by input order, so
    // the second candidate can drain before the dependent.
    let packages = vec![
        pkg("dup", "1.0.0", &[]),
        pkg("dup", "2.0.0", &[]),
        pkg("user", "1.0.0", &[("dup", ">=1.0.0")]),
    ];
    let mut graph = DependencyGraph::from(&packages[..]);
    let mut order = Vec::new();
    while let Some(step) = graph.next() {
        match step {
            Step::Resolved(spec) => order.push(format!("{} {}", spec.name, spec.version)),
            Step::Unresolved(_) => unreachable!(),
        }
    }
    // The edge points at "dup 1.0.0", the first match in input order, so
    // "user" must wait for it — but not for "dup 2.0.0".
    assert_eq!(order, vec!["dup 2.0.0", "dup 1.0.0", "user 1.0.0"]);
}

#[test]
fn test_step_accessors() {
    let packages = vec![pkg("base", "1.0.0", &[]), pkg("ext", "1.0.0", &[("gone", "*")])];
    let mut graph = DependencyGraph::from(&packages[..]);
    let mut saw_resolved = false;
    let mut saw_unresolved = false;
    while let Some(step) = graph.next() {
        if step.is_resolved() {
            saw_resolved = true;
            assert!(step.as_resolved().is_some());
            assert!(step.as_unresolved().is_none());
        } else {
            saw_unresolved = true;
            assert!(step.as_resolved().is_none());
            let dep = step.as_unresolved().unwrap();
            assert_eq!(dep.name, "gone");
        }
    }
    assert!(saw_resolved);
    assert!(saw_unresolved);
}

#[test]
fn test_matches_uses_semver() {
    let base = pkg("base", "1.2.3", &[]);
    let exact = Dependency { name: "base".to_string(), version: "=1.2.3".to_string() };
    let newer = Dependency { name: "base".to_string(), version: ">=2.0.0".to_string() };
    let other = Dependency { name: "other".to_string(), version: "=1.2.3".to_string() };
    let broken = Dependency { name: "base".to_string(), version: "not a requirement".to_string() };
    assert!(base.matches(&exact));
    assert!(!base.matches(&newer));
    assert!(!base.matches(&other));
    assert!(!base.matches(&broken));

    let bad_version = pkg("base", "not a version", &[]);
    assert!(!bad_version.matches(&exact));
}
