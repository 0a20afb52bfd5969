use std::str::FromStr;

use ipkg::pkg::{
    AboutData, PackageAboutData, PackageData, PackageRange, PackageVersion, RelationData,
};
use ipkg::resolver::{DependencyError, DependencyResolver};
use ipkg::version::{Version, VersionRange};

fn pkg(name: &str, version: &str) -> PackageData {
    PackageData {
        about: AboutData {
            package: PackageAboutData {
                name: name.to_string(),
                version: Version::from_str(version).unwrap(),
            },
            ..Default::default()
        },
        ..Default::default()
    }
}

fn dep(name: &str, range: &str) -> PackageRange {
    PackageRange {
        name: name.to_string(),
        range: VersionRange::from_str(range).unwrap(),
    }
}

#[test]
fn test_display_dependency_tree() {
    let mut resolver = DependencyResolver::new();

    let pkg_a = PackageData {
        about: AboutData {
            package: PackageAboutData {
                name: "pkg-a".to_string(),
                version: Version::from_str("1.0.0").unwrap(),
            },
            ..Default::default()
        },
        relation: RelationData {
            depend: vec![vec![dep("pkg-b", ">= 1.0")]],
            recommends: vec![vec![dep("pkg-rec", ">= 2.0")]],
            suggests: vec![vec![dep("pkg-sug", ">= 3.0")]],
            conflicts: vec![dep("pkg-conf", ">= 1.0")],
            depend_cmds: vec!["gcc".to_string()],
            ..Default::default()
        },
    };

    let pkg_b = pkg("pkg-b", "1.1.0");

    resolver.add_package(pkg_a);
    resolver.add_package(pkg_b);

    let mut lines = Vec::new();
    resolver
        .display_dependency_tree("pkg-a", &vec!["gcc".to_string()], &mut lines)
        .unwrap();
    for line in &lines {
        println!("{}", line);
    }
}

#[test]
fn test_circular_dependency_display() {
    let mut resolver = DependencyResolver::new();

    let pkg_a = PackageData {
        about: AboutData {
            package: PackageAboutData {
                name: "pkg-a".to_string(),
                version: Version::from_str("1.0.0").unwrap(),
            },
            ..Default::default()
        },
        relation: RelationData {
            depend: vec![vec![dep("pkg-b", ">= 1.0")]],
            ..Default::default()
        },
    };

    let pkg_b = PackageData {
        about: AboutData {
            package: PackageAboutData {
                name: "pkg-b".to_string(),
                version: Version::from_str("1.1.0").unwrap(),
            },
            ..Default::default()
        },
        relation: RelationData {
            depend: vec![vec![dep("pkg-a", ">= 1.0")]],
            ..Default::default()
        },
    };

    resolver.add_package(pkg_a);
    resolver.add_package(pkg_b);

    let mut lines = Vec::new();
    let result = resolver.display_dependency_tree("pkg-a", &vec![], &mut lines);
    assert!(matches!(result, Err(DependencyError::CircularDependency(_))));
    // The lines already walked stay visible.
    assert!(!lines.is_empty());
    assert!(lines.last().unwrap().contains("Circular"));
}

#[test]
fn resolve_reports_cycle() {
    let mut resolver = DependencyResolver::new();
    let mut a = pkg("A", "1.0");
    a.relation.depend.push(vec![dep("B", "*")]);
    let mut b = pkg("B", "1.0");
    b.relation.depend.push(vec![dep("A", "*")]);
    resolver.add_package(a);
    resolver.add_package(b);
    match resolver.resolve("A") {
        Err(DependencyError::CircularDependency(name)) => assert_eq!(name, "A"),
        other => panic!("expected a circular dependency, got {:?}", other),
    }
}

#[test]
fn resolve_takes_first_satisfied_alternative() {
    // A depends on (B | C); only C is present, so C is chosen.
    let mut resolver = DependencyResolver::new();
    let mut a = pkg("A", "1.0");
    a.relation.depend.push(vec![dep("B", ">= 1.0"), dep("C", ">= 1.0")]);
    resolver.add_package(a);
    resolver.add_package(pkg("C", "1.5"));
    let resolved = resolver.resolve("A").unwrap();
    assert_eq!(resolved.len(), 1);
    assert_eq!(resolved[0].name, "C");
}

#[test]
fn resolve_walks_transitively_in_order() {
    let mut resolver = DependencyResolver::new();
    let mut a = pkg("A", "1.0");
    a.relation.depend.push(vec![dep("B", "*")]);
    a.relation.depend.push(vec![dep("D", "*")]);
    let mut b = pkg("B", "1.0");
    b.relation.depend.push(vec![dep("C", "*")]);
    resolver.add_package(a);
    resolver.add_package(b);
    resolver.add_package(pkg("C", "1.0"));
    resolver.add_package(pkg("D", "1.0"));
    let resolved = resolver.resolve("A").unwrap();
    let names: Vec<&str> = resolved.iter().map(|d| d.name.as_str()).collect();
    assert_eq!(names, ["B", "C", "D"]);
}

#[test]
fn resolve_fails_on_unsatisfied_group() {
    let mut resolver = DependencyResolver::new();
    let mut a = pkg("A", "1.0");
    a.relation.depend.push(vec![dep("B", ">= 2.0")]);
    resolver.add_package(a);
    resolver.add_package(pkg("B", "1.0"));
    match resolver.resolve("A") {
        Err(DependencyError::MissingDependency(name)) => assert_eq!(name, "B"),
        other => panic!("expected a missing dependency, got {:?}", other),
    }
}

#[test]
fn resolve_fails_on_unknown_target() {
    let resolver = DependencyResolver::new();
    match resolver.resolve("ghost") {
        Err(DependencyError::MissingDependency(name)) => assert_eq!(name, "ghost"),
        other => panic!("expected a missing dependency, got {:?}", other),
    }
}

#[test]
fn add_package_replaces_by_name() {
    let mut resolver = DependencyResolver::new();
    resolver.add_package(pkg("A", "1.0"));
    resolver.add_package(pkg("A", "2.0"));
    // The later record wins: a range only the new version matches.
    let mut b = pkg("B", "1.0");
    b.relation.depend.push(vec![dep("A", ">= 2.0")]);
    resolver.add_package(b);
    let resolved = resolver.resolve("B").unwrap();
    assert_eq!(resolved.len(), 1);
    assert_eq!(resolved[0].name, "A");
}

#[test]
fn check_conflicts_reports_clashing_version() {
    let mut resolver = DependencyResolver::new();
    let mut a = pkg("A", "1.0");
    a.relation.conflicts.push(dep("Z", ">= 1.0"));
    resolver.add_package(a);
    resolver.add_package(pkg("Z", "1.5"));
    match resolver.check_conflicts("A") {
        Err(DependencyError::VersionConflict(name, range, version)) => {
            assert_eq!(name, "Z");
            assert_eq!(range.to_string(), ">= 1.0");
            assert_eq!(version.to_string(), "1.5");
        }
        other => panic!("expected a version conflict, got {:?}", other),
    }
}

#[test]
fn check_conflicts_passes_when_no_clash() {
    let mut resolver = DependencyResolver::new();
    let mut a = pkg("A", "1.0");
    a.relation.conflicts.push(dep("Z", ">= 2.0"));
    resolver.add_package(a);
    resolver.add_package(pkg("Z", "1.5"));
    assert!(resolver.check_conflicts("A").is_ok());
}

#[test]
fn recommendations_pick_first_satisfied_per_group() {
    let mut resolver = DependencyResolver::new();
    let mut a = pkg("A", "1.0");
    a.relation.recommends.push(vec![dep("R1", ">= 9.0"), dep("R2", "*")]);
    a.relation.recommends.push(vec![dep("R3", ">= 9.0")]);
    a.relation.suggests.push(vec![dep("S1", "*")]);
    resolver.add_package(a);
    resolver.add_package(pkg("R2", "1.0"));
    resolver.add_package(pkg("S1", "1.0"));
    let recs = resolver.get_recommendations("A").unwrap();
    let names: Vec<&str> = recs.iter().map(|d| d.name.as_str()).collect();
    assert_eq!(names, ["R2", "S1"]);
    assert!(resolver.get_recommendations("nobody").is_none());
}

#[test]
fn virtual_provision_satisfies_resolver_alternative() {
    // A's group (X | B) settles on B only if X is not available; here a
    // provider makes X available virtually, so X is chosen first, and the
    // walk then fails because no record is named X.
    let mut resolver = DependencyResolver::new();
    let mut a = pkg("A", "1.0");
    a.relation.depend.push(vec![dep("X", ">= 1.0"), dep("B", "*")]);
    let mut provider = pkg("P", "1.0");
    provider.relation.virtuals.push(PackageVersion {
        name: "X".to_string(),
        version: Version::from_str("1.5").unwrap(),
    });
    resolver.add_package(a);
    resolver.add_package(provider);
    resolver.add_package(pkg("B", "1.0"));
    match resolver.resolve("A") {
        Err(DependencyError::MissingDependency(name)) => assert_eq!(name, "X"),
        other => panic!("expected a missing dependency, got {:?}", other),
    }
}

#[test]
fn error_display_strings() {
    assert_eq!(
        DependencyError::CircularDependency("a".to_string()).to_string(),
        "Circular dependency: a"
    );
    assert_eq!(
        DependencyError::MissingDependency("b".to_string()).to_string(),
        "Missing dependency: b"
    );
    assert_eq!(
        DependencyError::CommandNotFound("c".to_string()).to_string(),
        "Command not found: c"
    );
    assert_eq!(
        DependencyError::VersionConflict(
            "d".to_string(),
            VersionRange::from_str(">= 1.0").unwrap(),
            Version::from_str("2.0").unwrap()
        )
        .to_string(),
        "Version conflict: d (>= 1.0 vs 2.0)"
    );
}

#[test]
fn tree_lines_are_exact() {
    let mut resolver = DependencyResolver::new();
    let mut a = pkg("pkg-a", "1.0.0");
    a.relation.depend.push(vec![dep("pkg-b", ">= 1.0")]);
    a.relation.depend_cmds.push("gcc".to_string());
    a.relation.recommends.push(vec![dep("pkg-rec", ">= 2.0")]);
    a.relation.suggests.push(vec![dep("pkg-sug", ">= 3.0")]);
    a.relation.conflicts.push(dep("pkg-conf", ">= 1.0"));
    resolver.add_package(a);
    resolver.add_package(pkg("pkg-b", "1.1.0"));
    let mut lines = Vec::new();
    resolver
        .display_dependency_tree("pkg-a", &vec!["gcc".to_string()], &mut lines)
        .unwrap();
    let expected = vec![
        "Dependency Tree:",
        "pkg-a (1.0.0)",
        "    \u{2514}\u{2500}\u{2500} Depends: (pkg-b (>= 1.0))",
        "    \u{251c}\u{2500}\u{2500} pkg-b (1.1.0)",
        "    \u{2514}\u{2500}\u{2500} Commands:",
        "        \u{251c}\u{2500}\u{2500} gcc [Available]",
        "    \u{2514}\u{2500}\u{2500} Recommends:",
        "        \u{251c}\u{2500}\u{2500} pkg-rec (>= 2.0)",
        "    \u{2514}\u{2500}\u{2500} Suggests:",
        "        \u{251c}\u{2500}\u{2500} pkg-sug (>= 3.0)",
        "    \u{2514}\u{2500}\u{2500} Conflicts:",
        "        \u{251c}\u{2500}\u{2500} pkg-conf (>= 1.0) [Not Present]",
    ];
    assert_eq!(lines, expected);
}
