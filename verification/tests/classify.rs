use depdiff::cli::Cli;
use depdiff::node_module::standard::{ResolvedVersion, StandardModule};
use depdiff::node_module::{get_dep_type, get_pjson_details, standard_filter, DepType};
use depdiff::pjson_detail::{DeclaredDeps, PjsonDetail};

fn deps_of(pairs: &[(&str, &str)]) -> DeclaredDeps {
    let mut d = DeclaredDeps::new();
    for (name, range) in pairs {
        d.push(String::from(*name), String::from(*range));
    }
    d
}

fn manifest(
    deps: &[(&str, &str)],
    dev: &[(&str, &str)],
    peer: &[(&str, &str)],
) -> PjsonDetail {
    PjsonDetail::new(
        String::from("app"),
        String::from("1.0.0"),
        Some(deps_of(deps)),
        Some(deps_of(dev)),
        Some(deps_of(peer)),
    )
}

#[test]
fn classifies_direct_dependency() {
    let pjson = manifest(&[("left-pad", "^1.0.0")], &[], &[]);
    match get_dep_type("left-pad", &pjson) {
        DepType::Dependency(range) => assert_eq!(range, "^1.0.0"),
        _ => assert!(false),
    }
}

#[test]
fn classifies_dev_dependency() {
    let pjson = manifest(&[], &[("jest", "~26.0.0")], &[]);
    match get_dep_type("jest", &pjson) {
        DepType::DevDependency(range) => assert_eq!(range, "~26.0.0"),
        _ => assert!(false),
    }
}

#[test]
fn classifies_peer_dependency() {
    let pjson = manifest(&[], &[], &[("react", ">=16")]);
    match get_dep_type("react", &pjson) {
        DepType::PeerDependency(range) => assert_eq!(range, ">=16"),
        _ => assert!(false),
    }
}

#[test]
fn classifies_transitive_dependency() {
    let pjson = manifest(&[("a", "1")], &[("b", "2")], &[("c", "3")]);
    assert!(matches!(get_dep_type("zzz", &pjson), DepType::ChildDependency));
}

#[test]
fn classification_priority_direct_wins() {
    let pjson = manifest(
        &[("shared", "^1.0.0")],
        &[("shared", "^2.0.0")],
        &[("shared", "^3.0.0")],
    );
    match get_dep_type("shared", &pjson) {
        DepType::Dependency(range) => assert_eq!(range, "^1.0.0"),
        _ => assert!(false),
    }
}

#[test]
fn classification_priority_dev_over_peer() {
    let pjson = manifest(&[], &[("shared", "^2.0.0")], &[("shared", "^3.0.0")]);
    match get_dep_type("shared", &pjson) {
        DepType::DevDependency(range) => assert_eq!(range, "^2.0.0"),
        _ => assert!(false),
    }
}

#[test]
fn absent_maps_declare_nothing() {
    let pjson = PjsonDetail::new(String::from("app"), String::from("1.0.0"), None, None, None);
    assert!(matches!(get_dep_type("anything", &pjson), DepType::ChildDependency));
    assert_eq!(get_pjson_details("anything", &pjson.dependencies), None);
}

#[test]
fn pjson_details_finds_declared_range() {
    let deps = Some(deps_of(&[("a", "1.0.0"), ("b", "2.0.0")]));
    assert_eq!(get_pjson_details("b", &deps), Some(String::from("2.0.0")));
    assert_eq!(get_pjson_details("c", &deps), None);
}

#[test]
fn standard_filter_keeps_everything_without_flags() {
    let cli = Cli::default();
    assert!(standard_filter(&DepType::ChildDependency, &cli));
    assert!(standard_filter(&DepType::Dependency(String::from("1")), &cli));
    assert!(standard_filter(&DepType::DevDependency(String::from("1")), &cli));
    assert!(standard_filter(&DepType::PeerDependency(String::from("1")), &cli));
}

#[test]
fn standard_filter_dep_flag_keeps_only_dependencies() {
    let mut cli = Cli::default();
    cli.dep = true;
    assert!(!standard_filter(&DepType::ChildDependency, &cli));
    assert!(standard_filter(&DepType::Dependency(String::from("1")), &cli));
    assert!(!standard_filter(&DepType::DevDependency(String::from("1")), &cli));
    assert!(!standard_filter(&DepType::PeerDependency(String::from("1")), &cli));
}

#[test]
fn standard_filter_dev_flag_keeps_only_dev_dependencies() {
    let mut cli = Cli::default();
    cli.dev = true;
    assert!(!standard_filter(&DepType::ChildDependency, &cli));
    assert!(!standard_filter(&DepType::Dependency(String::from("1")), &cli));
    assert!(standard_filter(&DepType::DevDependency(String::from("1")), &cli));
}

#[test]
fn standard_filter_both_flags_keep_declared_kinds() {
    let mut cli = Cli::default();
    cli.dep = true;
    cli.dev = true;
    assert!(!standard_filter(&DepType::ChildDependency, &cli));
    assert!(standard_filter(&DepType::Dependency(String::from("1")), &cli));
    assert!(standard_filter(&DepType::DevDependency(String::from("1")), &cli));
}

#[test]
fn populate_fills_a_record() {
    let pjson = manifest(&[("left-pad", "^1.0.0")], &[], &[]);
    let mut record = StandardModule::default();
    record.populate(String::from("left-pad"), String::from("1.0.3"), &pjson);
    assert_eq!(record.name, "left-pad");
    assert!(matches!(record.dep_type, DepType::Dependency(_)));
    match &record.version {
        ResolvedVersion::Parsed(v) => assert_eq!(v.to_string(true), "1.0.3"),
        ResolvedVersion::Raw(_) => assert!(false),
    }
}

#[test]
fn populate_keeps_unparsable_version_raw() {
    let pjson = manifest(&[], &[], &[]);
    let mut record = StandardModule::default();
    record.populate(String::from("pkg"), String::from("file:../pkg"), &pjson);
    match &record.version {
        ResolvedVersion::Raw(s) => assert_eq!(s, "file:../pkg"),
        ResolvedVersion::Parsed(_) => assert!(false),
    }
}
