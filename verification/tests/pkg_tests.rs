use std::str::FromStr;

use ipkg::pkg::{
    AboutData, AuthorAboutData, PackageAboutData, PackageData, PackageRange, PackageVersion,
    RelationData,
};
use ipkg::version::{Version, VersionRange};

#[test]
fn test_display_default() {
    let data = PackageData::default();
    println!("{}", data.to_string());
}

#[test]
fn test_display_with_relations() {
    let mut data = PackageData::default();
    data.about.author = AuthorAboutData {
        name: "Test Author".to_string(),
        email: "test@example.com".to_string(),
    };
    data.about.package = PackageAboutData {
        name: "my-package".to_string(),
        version: Version::default(),
    };

    data.relation.depend.push(vec![PackageRange {
        name: "dep-a".to_string(),
        range: VersionRange::from_str(">= 1.0, < 2.0").unwrap(),
    }]);
    data.relation.depend.push(vec![
        PackageRange {
            name: "dep-b".to_string(),
            range: VersionRange::from_str("= 2.0.0").unwrap(),
        },
        PackageRange {
            name: "dep-c".to_string(),
            range: VersionRange::from_str("> 1.5.0").unwrap(),
        },
    ]);

    data.relation.suggests.push(vec![PackageRange {
        name: "suggest-x".to_string(),
        range: VersionRange::from_str("= 3.0").unwrap(),
    }]);

    data.relation.recommends.push(vec![
        PackageRange {
            name: "rec-y".to_string(),
            range: VersionRange::from_str("< 4.0.0").unwrap(),
        },
        PackageRange {
            name: "rec-z".to_string(),
            range: VersionRange::from_str("= 4.1.0").unwrap(),
        },
    ]);

    data.relation.conflicts.push(PackageRange {
        name: "old-package".to_string(),
        range: VersionRange::from_str("0.9.0").unwrap(),
    });

    data.relation.virtuals.push(PackageVersion {
        name: "my-virtual-pkg".to_string(),
        version: Version::from_str("1.0.0").unwrap(),
    });

    data.relation.provide_cmds.push("my-command".to_string());
    data.relation.provide_cmds.push("another-command".to_string());
    data.relation.depend_cmds.push("git".to_string());
    data.relation.depend_cmds.push("make".to_string());

    println!("{}", data.to_string());
}

#[test]
fn test_display_author() {
    let author = AuthorAboutData {
        name: "Test Author".to_string(),
        email: "test@example.com".to_string(),
    };
    println!("{}", author.to_string());
}

#[test]
fn test_display_package() {
    let package = PackageAboutData {
        name: "test-package".to_string(),
        version: Version::default(),
    };
    println!("{}", package.to_string());
}

#[test]
fn test_display_relation() {
    let mut relation = RelationData::default();
    relation.depend.push(vec![PackageRange {
        name: "dep-a".to_string(),
        range: VersionRange::from_str(">= 1.0").unwrap(),
    }]);
    relation.suggests.push(vec![PackageRange {
        name: "suggest-x".to_string(),
        range: VersionRange::from_str("= 3.0").unwrap(),
    }]);
    relation.conflicts.push(PackageRange {
        name: "conflicting-pkg".to_string(),
        range: VersionRange::from_str("< 1.0").unwrap(),
    });
    println!("{}", relation.to_string());
}

#[test]
fn test_display_package_range() {
    let range = PackageRange {
        name: "test-dep".to_string(),
        range: VersionRange::from_str(">= 1.0").unwrap(),
    };
    println!("{}", range.to_string());
}

#[test]
fn test_display_package_version() {
    let version = PackageVersion {
        name: "test-version".to_string(),
        version: Version::default(),
    };
    println!("{}", version.to_string());
}

#[test]
fn display_texts_are_exact() {
    let range = PackageRange {
        name: "test-dep".to_string(),
        range: VersionRange::from_str(">= 1.0").unwrap(),
    };
    assert_eq!(range.to_string(), "test-dep (>= 1.0)");
    let pv = PackageVersion {
        name: "cap".to_string(),
        version: Version::from_str("1.5").unwrap(),
    };
    assert_eq!(pv.to_string(), "cap (1.5)");
    let author = AuthorAboutData {
        name: "A".to_string(),
        email: "a@b.local".to_string(),
    };
    assert_eq!(author.to_string(), "A <a@b.local>");
    let about = AboutData {
        author,
        package: PackageAboutData {
            name: "p".to_string(),
            version: Version::from_str("2.0").unwrap(),
        },
    };
    assert_eq!(about.to_string(), "Author: A <a@b.local>\nPackage: p (2.0)\n");
}

#[test]
fn package_display_lists_blocks_in_order() {
    let mut data = PackageData::default();
    data.about.package.name = "demo".to_string();
    data.relation.depend.push(vec![
        PackageRange {
            name: "a".to_string(),
            range: VersionRange::from_str("*").unwrap(),
        },
        PackageRange {
            name: "b".to_string(),
            range: VersionRange::from_str(">= 1.0").unwrap(),
        },
    ]);
    data.relation.depend_cmds.push("git".to_string());
    let shown = data.to_string();
    assert_eq!(
        shown,
        "Package: demo\nVersion: 1.0.0\nAuthor:  <>\n\nDependencies:\n  - (a (*) | b (>= 1.0))\n\nNecessary Commands:\n  - git\n"
    );
}

#[test]
fn relation_is_empty_checks_every_field() {
    let mut relation = RelationData::default();
    assert!(relation.is_empty());
    relation.provide_cmds.push("x".to_string());
    assert!(!relation.is_empty());
}
