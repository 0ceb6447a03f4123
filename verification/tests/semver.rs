use std::cmp::Ordering;

use depdiff::semver::Semver;

fn make(version: &str) -> Semver {
    Semver::from(String::from(version)).unwrap()
}

#[test]
fn creates_semver() {
    let semver = make("8.1.2");
    assert_eq!(semver.major, "8");
    assert_eq!(semver.minor, "1");
    assert_eq!(semver.patch, "2");
    assert!(semver.pre_release.is_none());
    assert!(semver.build_metadata.is_none());
}

#[test]
fn handles_non_semver_string() {
    let non_semver = Semver::from(String::from("yalc:some-file"));
    assert_eq!(non_semver, None);
}

#[test]
fn creates_complex_semver() {
    let semver = make("8.1.2-alpha.0.1+1.2.3");
    assert_eq!(semver.major, "8");
    assert_eq!(semver.minor, "1");
    assert_eq!(semver.patch, "2");

    match semver.pre_release {
        Some(version) => assert_eq!(version.join("."), "alpha.0.1"),
        None => assert!(false),
    };

    match semver.build_metadata {
        Some(version) => assert_eq!(version, "1.2.3"),
        None => assert!(false),
    }
}

#[test]
fn compares_two_semvers() {
    let main = make("8.4.12");
    assert_eq!(main.cmp(&make("7.4.12")), Ordering::Greater);
    assert_eq!(main.cmp(&make("8.3.12")), Ordering::Greater);
    assert_eq!(main.cmp(&make("8.4.11")), Ordering::Greater);
    assert_eq!(main.cmp(&make("8.4.13")), Ordering::Less);
    assert_eq!(main.cmp(&make("8.5.0")), Ordering::Less);
    assert_eq!(main.cmp(&make("9.0.0")), Ordering::Less);
    assert_eq!(main.cmp(&make("8.4.12")), Ordering::Equal);
}

#[test]
fn use_operators() {
    let main = make("8.4.12");
    assert!(main > make("7.4.12"));
    assert!(main > make("8.3.12"));
    assert!(main > make("8.4.11"));
    assert!(main < make("8.4.13"));
    assert!(main < make("8.5.0"));
    assert!(main < make("9.0.0"));
    assert!(main == make("8.4.12"));
}

#[test]
fn compares_prerelease_tags() {
    let main = make("8.4.12");
    assert!(main > make("8.4.12-alpha.0.1"));
    assert!(main < make("8.4.13-alpha.0.1"));
    assert!(main < make("8.5.0-alpha.0.1"));
    assert!(main < make("9.0.0-alpha.0.1"));

    let main = make("8.4.12-alpha.1.1");
    assert!(main < make("8.4.12-beta.0.1"));
    assert!(main > make("8.4.12-alpha.0.1"));
    assert!(main < make("8.4.12-alpha.2.0"));
    assert!(main < make("8.4.12-alpha.1.2"));
    assert!(main > make("8.4.12-alpha.1.0"));
    assert!(main == make("8.4.12-alpha.1.1"));
}

#[test]
fn returns_a_string() {
    assert_eq!(make("8.4.12").to_string(true), "8.4.12");
    assert_eq!(make("8.4.12-alpha.1.1").to_string(true), "8.4.12-alpha.1.1");
    assert_eq!(
        make("8.4.12-alpha.1.1+13.xxx.3").to_string(true),
        "8.4.12-alpha.1.1+13.xxx.3"
    );
}

#[test]
fn semver_creates_semver() {
    let semver = make("8.1.2");
    assert_eq!(semver.major, "8");
    assert_eq!(semver.minor, "1");
    assert_eq!(semver.patch, "2");
    assert!(semver.pre_release.is_none());
    assert!(semver.build_metadata.is_none());
}

#[test]
fn semver_creates_complex_semver() {
    let semver = make("8.1.2-alpha.0.1+1.2.3");
    assert_eq!(semver.major, "8");
    assert_eq!(semver.minor, "1");
    assert_eq!(semver.patch, "2");

    match semver.pre_release {
        Some(version) => assert_eq!(version.join("."), "alpha.0.1"),
        None => assert!(false),
    };

    match semver.build_metadata {
        Some(version) => assert_eq!(version, "1.2.3"),
        None => assert!(false),
    }
}

#[test]
fn semver_compares_two_semvers() {
    let main = make("8.4.12");
    assert_eq!(main.cmp(&make("7.4.12")), Ordering::Greater);
    assert_eq!(main.cmp(&make("8.3.12")), Ordering::Greater);
    assert_eq!(main.cmp(&make("8.4.11")), Ordering::Greater);
    assert_eq!(main.cmp(&make("8.4.13")), Ordering::Less);
    assert_eq!(main.cmp(&make("8.5.0")), Ordering::Less);
    assert_eq!(main.cmp(&make("9.0.0")), Ordering::Less);
    assert_eq!(main.cmp(&make("8.4.12")), Ordering::Equal);
}

#[test]
fn semver_use_operators() {
    let main = make("8.4.12");
    assert!(main > make("7.4.12"));
    assert!(main > make("8.3.12"));
    assert!(main > make("8.4.11"));
    assert!(main < make("8.4.13"));
    assert!(main < make("8.5.0"));
    assert!(main < make("9.0.0"));
    assert!(main == make("8.4.12"));
}

#[test]
fn semver_compares_prerelease_tags() {
    let main = make("8.4.12");
    assert!(main > make("8.4.12-alpha.0.1"));
    assert!(main < make("8.4.13-alpha.0.1"));
    assert!(main < make("8.5.0-alpha.0.1"));
    assert!(main < make("9.0.0-alpha.0.1"));

    let main = make("8.4.12-alpha.1.1");
    assert!(main < make("8.4.12-beta.0.1"));
    assert!(main > make("8.4.12-alpha.0.1"));
    assert!(main < make("8.4.12-alpha.2.0"));
    assert!(main < make("8.4.12-alpha.1.2"));
    assert!(main > make("8.4.12-alpha.1.0"));
    assert!(main == make("8.4.12-alpha.1.1"));
}

#[test]
fn semver_returns_a_string() {
    assert_eq!(make("8.4.12").to_string(true), "8.4.12");
    assert_eq!(make("8.4.12-alpha.1.1").to_string(true), "8.4.12-alpha.1.1");
    assert_eq!(
        make("8.4.12-alpha.1.1+13.xxx.3").to_string(true),
        "8.4.12-alpha.1.1+13.xxx.3"
    );
}

#[test]
fn strips_leading_range_operators() {
    let semver = make("^8.1.2");
    assert_eq!(semver.major, "8");
    assert_eq!(make(">=1.0.0").to_string(true), "1.0.0");
    assert_eq!(make("~>2.3.4").to_string(true), "2.3.4");
}

#[test]
fn rejects_malformed_versions() {
    assert_eq!(Semver::from(String::from("")), None);
    assert_eq!(Semver::from(String::from("1.2")), None);
    assert_eq!(Semver::from(String::from("1.2.x")), None);
    assert_eq!(Semver::from(String::from("1.2.3-")), None);
    assert_eq!(Semver::from(String::from("1.2.3+")), None);
    assert_eq!(Semver::from(String::from("1.2.3 ")), None);
    assert_eq!(Semver::from(String::from("git:repo")), None);
}

#[test]
fn release_outranks_prerelease() {
    assert!(make("1.2.3") > make("1.2.3-alpha"));
    assert!(make("1.2.3") > make("1.2.3-zzz.999"));
}

#[test]
fn numeric_tie_break() {
    assert!(make("9.0.0") > make("8.9.9"));
    assert!(make("1.2.10") > make("1.2.9"));
    assert!(make("1.2.9") < make("1.2.10"));
}

#[test]
fn build_metadata_excluded_from_equality() {
    assert!(make("1.0.0+build1") == make("1.0.0+build2"));
    assert_eq!(make("1.0.0+build1").cmp(&make("1.0.0+build2")), Ordering::Equal);
}

#[test]
fn leading_zeros_compare_numerically() {
    assert!(make("1.01.0") == make("1.1.0"));
    assert!(make("1.0.0-07") == make("1.0.0-7"));
    assert!(make("1.0.0-08") > make("1.0.0-7"));
}

#[test]
fn prerelease_prefix_sorts_lower() {
    assert!(make("1.0.0-alpha") < make("1.0.0-alpha.1"));
    assert!(make("1.0.0-alpha.1") > make("1.0.0-alpha"));
}

#[test]
fn render_can_suppress_build_metadata() {
    assert_eq!(make("8.4.12-alpha.1.1+13.xxx.3").to_string(false), "8.4.12-alpha.1.1");
    assert_eq!(make("1.0.0+b").to_string(false), "1.0.0");
}

#[test]
fn round_trips_well_formed_strings() {
    for s in ["0.0.0", "10.20.30", "1.2.3-a.b.c", "1.2.3+x.y", "1.2.3-a-b.0+1-2.3"] {
        assert_eq!(make(s).to_string(true), s);
    }
}

#[test]
fn numeric_compare_handles_large_parts() {
    assert!(make("1.2.70000") > make("1.2.69999"));
    assert!(make("123456789012345678901234567890.0.0") > make("99999999999999999999999999999.0.0"));
    assert!(make("1.0.0-20260101120000") > make("1.0.0-20251231235959"));
}

#[test]
fn order_is_transitive_along_a_chain() {
    let chain = ["1.0.0-alpha.1", "1.0.0-alpha.2", "1.0.0-beta", "1.0.0", "1.0.1"];
    for i in 0..chain.len() {
        for j in (i + 1)..chain.len() {
            assert!(make(chain[i]) < make(chain[j]));
            assert!(make(chain[j]) > make(chain[i]));
        }
    }
}
