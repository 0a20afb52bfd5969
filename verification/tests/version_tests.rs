use std::str::FromStr;

use ipkg::version::{Version, VersionRange};

#[test]
fn version_test() {
    let version1 = Version::from_str("1.2.3").unwrap();
    let version2 = Version::from_str("1.2.2-build-4").unwrap();
    let version3 = Version::from_str("2.123.12").unwrap();
    println!("version2 == version1: {}", version1 == version2);
    println!("version2 >= version1: {}", version1 >= version2);
    println!("version3 < version1: {}", version3 < version1);
    let range1 = VersionRange::from_str("< 2.0, > 1.1.3-build-1").unwrap();
    println!("Range1: {}", range1.to_string());
    println!("In Range1, version1: {}", range1.compare(&version1));
    let range_all = VersionRange::from_str("*").unwrap();
    println!("RangeAll: {}", range_all.to_string());
    println!("In RangeAll, version1: {}", range_all.compare(&version1));
    let range_exact = VersionRange::from_str("== 1.2.3").unwrap();
    println!("RangeExact: {}", range_exact.to_string());
    println!("In RangeExact, version1: {}", range_exact.compare(&version1));

    let conflict_range = VersionRange::from_str(">= 2.0, < 1.0");
    println!("Conflict Range: {:?}", conflict_range);
}

#[test]
fn parse_no_digits_fails() {
    assert!(Version::from_str("").is_err());
    assert!(Version::from_str("abc").is_err());
    assert!(Version::from_str("-.beta-").is_err());
    assert_eq!(
        Version::from_str("abc").unwrap_err(),
        "There is no values for Version struct."
    );
}

#[test]
fn parse_with_digits_round_trips() {
    for s in ["1", "1.2.3", "1.2.3-beta.4", "007", "v2_final"] {
        let v = Version::from_str(s).unwrap();
        assert_eq!(v.to_string(), s);
    }
}

#[test]
fn parse_overflowing_run_is_dropped() {
    // A digit run beyond u32::MAX is dropped, exactly as a failing u32
    // parse drops it; a version with no other run fails to parse.
    assert!(Version::from_str("99999999999").is_err());
    // A fitting run beside it still parses.
    let v = Version::from_str("1.99999999999").unwrap();
    assert_eq!(v.to_string(), "1.99999999999");
}

#[test]
fn ordering_numeric_prefix_then_length() {
    let a = Version::from_str("1.2.3").unwrap();
    let b = Version::from_str("1.2.2").unwrap();
    assert!(a > b);
    let c = Version::from_str("1.2.0").unwrap();
    let d = Version::from_str("1.2").unwrap();
    assert!(c > d);
    let e = Version::from_str("2.0.0").unwrap();
    let f = Version::from_str("1.9.9").unwrap();
    assert!(e > f);
}

#[test]
fn equality_reads_numbers_only() {
    let a = Version::from_str("1.2.3").unwrap();
    let b = Version::from_str("1-2-3").unwrap();
    assert!(a == b);
    assert!(a <= b && a >= b);
    let c = Version::from_str("1.2.4").unwrap();
    assert!(a != c);
}

#[test]
fn wildcard_matches_everything() {
    let range = VersionRange::from_str("*").unwrap();
    for s in ["0", "1.5", "2.0", "999.999.999", "0.0.0-alpha"] {
        assert!(range.compare(&Version::from_str(s).unwrap()));
    }
    assert_eq!(range.to_string(), "*");
}

#[test]
fn bounded_range_membership() {
    let range = VersionRange::from_str(">= 1.0, < 2.0").unwrap();
    assert!(range.compare(&Version::from_str("1.5").unwrap()));
    assert!(!range.compare(&Version::from_str("2.0").unwrap()));
    assert!(range.compare(&Version::from_str("1.0").unwrap()));
}

#[test]
fn contradictory_range_is_rejected() {
    let r = VersionRange::from_str(">= 2.0, < 1.0");
    assert!(r.is_err());
    assert_eq!(r.unwrap_err(), "Conflicting version range: >= 2.0, < 1.0");
}

#[test]
fn range_parse_errors() {
    assert_eq!(
        VersionRange::from_str("~ 1.0").unwrap_err(),
        "Invalid relation symbol: ~"
    );
    assert_eq!(
        VersionRange::from_str("> 1.0 extra junk").unwrap_err(),
        "Invalid range format: > 1.0 extra junk"
    );
    assert_eq!(
        VersionRange::from_str("> nodigits").unwrap_err(),
        "There is no values for Version struct."
    );
}

#[test]
fn range_term_forms() {
    // A bare version is an exact bound.
    let exact = VersionRange::from_str("1.2.3").unwrap();
    assert!(exact.compare(&Version::from_str("1.2.3").unwrap()));
    assert!(!exact.compare(&Version::from_str("1.2.4").unwrap()));
    // Doubled symbols read as their strict forms.
    let r = VersionRange::from_str(">> 1.0, << 2.0").unwrap();
    assert!(r.compare(&Version::from_str("1.5").unwrap()));
    assert!(!r.compare(&Version::from_str("1.0").unwrap()));
    assert!(!r.compare(&Version::from_str("2.0").unwrap()));
    // A star term clears the bounds and ends the walk.
    let star = VersionRange::from_str(" * ").unwrap();
    assert!(star.compare(&Version::from_str("0.1").unwrap()));
}

#[test]
fn strict_bound_replaces_inclusive_bound() {
    // Inserting `< 2.0` over `<= 3.0` tightens to the strict bound, so
    // 2.0 itself no longer matches.
    let r = VersionRange::from_str("<= 3.0, < 2.0").unwrap();
    assert!(!r.compare(&Version::from_str("2.0").unwrap()));
    assert!(r.compare(&Version::from_str("1.9").unwrap()));
    let r2 = VersionRange::from_str(">= 1.0, > 2.0").unwrap();
    assert!(!r2.compare(&Version::from_str("2.0").unwrap()));
    assert!(r2.compare(&Version::from_str("2.1").unwrap()));
}

#[test]
fn exact_bound_collapses_others() {
    let r = VersionRange::from_str(">= 1.0, == 1.5").unwrap();
    assert!(r.compare(&Version::from_str("1.5").unwrap()));
    assert!(!r.compare(&Version::from_str("1.6").unwrap()));
    assert_eq!(r.to_string(), "<= 1.5, == 1.5, >= 1.5");
}

#[test]
fn range_display_round_trips() {
    let r = VersionRange::from_str("< 2.0, > 1.1.3-build-1").unwrap();
    let shown = r.to_string();
    assert_eq!(shown, "< 2.0, > 1.1.3-build-1");
    let reparsed = VersionRange::from_str(&shown).unwrap();
    assert!(reparsed.compare(&Version::from_str("1.5").unwrap()));
    assert!(!reparsed.compare(&Version::from_str("2.0").unwrap()));
}

#[test]
fn default_version_is_one_zero_zero() {
    let v = Version::default();
    assert_eq!(v.to_string(), "1.0.0");
}

#[test]
fn star_term_clears_all_bounds() {
    // A star term wipes the bounds and ends the walk, even with terms
    // after it.
    let r = VersionRange::from_str("*, >= 9.0").unwrap();
    assert!(r.compare(&Version::from_str("0.1").unwrap()));
    assert_eq!(r.to_string(), "*");
}
