use std::str::FromStr;

use ipkg::depend::{
    are_dependencies_satisfied, are_depend_cmds_available, build_package_maps,
    get_missing_dependencies, get_missing_depend_cmds, has_conflicts, is_dependency_satisfied,
};
use ipkg::list::{InstalledPackageData, PackageListData};
use ipkg::pkg::{
    AboutData, PackageAboutData, PackageData, PackageRange, PackageVersion, RelationData,
};
use ipkg::version::{Version, VersionRange};

#[test]
fn test_are_dependencies_satisfied() {
    let mut package = PackageData::default();
    package.relation.depend = vec![vec![PackageRange {
        name: "dep1".to_string(),
        range: VersionRange::from_str(">= 1.0").unwrap(),
    }]];

    let mut installed_packages = PackageListData::default();
    installed_packages.installed_packages = vec![InstalledPackageData {
        info: PackageData {
            about: AboutData {
                package: PackageAboutData {
                    name: "dep1".to_string(),
                    version: Version::from_str("1.2").unwrap(),
                },
                ..Default::default()
            },
            ..Default::default()
        },
        ..Default::default()
    }];

    assert!(are_dependencies_satisfied(&package, &installed_packages));

    // A dependency that nothing installed covers.
    let mut package2 = package.clone();
    package2.relation.depend[0][0].name = "dep2".to_string();
    assert!(!are_dependencies_satisfied(&package2, &installed_packages));

    // A dependency satisfied only through a virtual provision.
    let mut package3 = PackageData::default();
    package3.relation.depend = vec![vec![PackageRange {
        name: "virtual-pkg".to_string(),
        range: VersionRange::from_str(">= 1.0").unwrap(),
    }]];

    let mut installed_packages2 = PackageListData::default();
    installed_packages2.installed_packages = vec![InstalledPackageData {
        info: PackageData {
            about: AboutData {
                package: PackageAboutData {
                    name: "provider".to_string(),
                    version: Version::from_str("2.0").unwrap(),
                },
                ..Default::default()
            },
            relation: RelationData {
                virtuals: vec![PackageVersion {
                    name: "virtual-pkg".to_string(),
                    version: Version::from_str("1.5").unwrap(),
                }],
                ..Default::default()
            },
        },
        ..Default::default()
    }];

    assert!(are_dependencies_satisfied(&package3, &installed_packages2));
}

#[test]
fn test_get_missing_dependencies() {
    let mut package = PackageData::default();
    package.relation.depend = vec![
        vec![PackageRange {
            name: "dep1".to_string(),
            range: VersionRange::from_str(">=1.0").unwrap(),
        }],
        vec![PackageRange {
            name: "dep2".to_string(),
            range: VersionRange::from_str(">=2.0").unwrap(),
        }],
    ];

    let installed_packages = PackageListData::default();
    let missing = get_missing_dependencies(&package, &installed_packages);
    assert_eq!(missing.len(), 2);
    assert_eq!(missing[0][0].name, "dep1");
    assert_eq!(missing[1][0].name, "dep2");
}

#[test]
fn test_has_conflicts() {
    let mut package = PackageData::default();
    package.relation.conflicts = vec![PackageRange {
        name: "conflict1".to_string(),
        range: VersionRange::from_str(">= 1.0").unwrap(),
    }];

    let mut installed_packages = PackageListData::default();
    installed_packages.installed_packages = vec![InstalledPackageData {
        info: PackageData {
            about: AboutData {
                package: PackageAboutData {
                    name: "conflict1".to_string(),
                    version: Version::from_str("1.2").unwrap(),
                },
                ..Default::default()
            },
            ..Default::default()
        },
        ..Default::default()
    }];

    assert!(has_conflicts(&package, &installed_packages));

    let mut package2 = package.clone();
    package2.relation.conflicts[0].name = "conflict2".to_string();
    assert!(!has_conflicts(&package2, &installed_packages));
}

fn installed(name: &str, version: &str) -> InstalledPackageData {
    InstalledPackageData {
        info: PackageData {
            about: AboutData {
                package: PackageAboutData {
                    name: name.to_string(),
                    version: Version::from_str(version).unwrap(),
                },
                ..Default::default()
            },
            ..Default::default()
        },
        ..Default::default()
    }
}

#[test]
fn virtual_provision_satisfies_single_dependency() {
    // A capability nobody bears as a real name is still satisfied by a
    // provider declaring it virtually.
    let mut provider = installed("b-pkg", "3.0");
    provider.info.relation.virtuals.push(PackageVersion {
        name: "x-cap".to_string(),
        version: Version::from_str("1.5").unwrap(),
    });
    let list = PackageListData {
        installed_packages: vec![provider],
    };
    let dep = PackageRange {
        name: "x-cap".to_string(),
        range: VersionRange::from_str(">= 1.0").unwrap(),
    };
    assert!(is_dependency_satisfied(&dep, &list));
    // But the version of the provision must still match.
    let dep2 = PackageRange {
        name: "x-cap".to_string(),
        range: VersionRange::from_str(">= 2.0").unwrap(),
    };
    assert!(!is_dependency_satisfied(&dep2, &list));
}

#[test]
fn conflicts_ignore_virtual_provisions() {
    // A package conflicting with "z >= 1.0" clashes only with a real
    // installed "z", never with a virtual provision of that name.
    let mut provider = installed("other", "2.0");
    provider.info.relation.virtuals.push(PackageVersion {
        name: "z".to_string(),
        version: Version::from_str("1.5").unwrap(),
    });
    let list = PackageListData {
        installed_packages: vec![provider],
    };
    let mut package = PackageData::default();
    package.relation.conflicts.push(PackageRange {
        name: "z".to_string(),
        range: VersionRange::from_str(">= 1.0").unwrap(),
    });
    assert!(!has_conflicts(&package, &list));

    let list2 = PackageListData {
        installed_packages: vec![installed("z", "1.5")],
    };
    assert!(has_conflicts(&package, &list2));
}

#[test]
fn missing_report_keeps_group_order() {
    let mut package = PackageData::default();
    package.relation.depend = vec![
        vec![PackageRange {
            name: "present".to_string(),
            range: VersionRange::from_str("*").unwrap(),
        }],
        vec![PackageRange {
            name: "gone1".to_string(),
            range: VersionRange::from_str("*").unwrap(),
        }],
        vec![PackageRange {
            name: "gone2".to_string(),
            range: VersionRange::from_str("*").unwrap(),
        }],
    ];
    let list = PackageListData {
        installed_packages: vec![installed("present", "1.0")],
    };
    let missing = get_missing_dependencies(&package, &list);
    assert_eq!(missing.len(), 2);
    assert_eq!(missing[0][0].name, "gone1");
    assert_eq!(missing[1][0].name, "gone2");
}

#[test]
fn command_checks() {
    let mut relation = RelationData::default();
    relation.depend_cmds.push("git".to_string());
    relation.depend_cmds.push("make".to_string());
    let available = vec!["git".to_string()];
    assert!(!are_depend_cmds_available(&relation, &available));
    assert_eq!(get_missing_depend_cmds(&relation, &available), vec!["make".to_string()]);
    let all = vec!["git".to_string(), "make".to_string()];
    assert!(are_depend_cmds_available(&relation, &all));
    assert!(get_missing_depend_cmds(&relation, &all).is_empty());
}

#[test]
fn package_maps_collect_real_and_virtual() {
    let mut provider = installed("a", "1.0");
    provider.info.relation.virtuals.push(PackageVersion {
        name: "cap".to_string(),
        version: Version::from_str("2.0").unwrap(),
    });
    let list = PackageListData {
        installed_packages: vec![provider, installed("a", "1.1")],
    };
    let (real, avail) = build_package_maps(&list);
    let wildcard = VersionRange::from_str("*").unwrap();
    assert!(real.any_version_matches("a", &wildcard));
    assert!(!real.any_version_matches("cap", &wildcard));
    assert!(avail.any_version_matches("cap", &wildcard));
    let two = VersionRange::from_str(">= 2.0").unwrap();
    assert!(!real.any_version_matches("a", &two));
}
