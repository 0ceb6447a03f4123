use std::cmp::Ordering;

use depdiff::node_module::diffed_pair::{DiffRelation, DiffedPair};
use depdiff::node_module::standard::{ResolvedVersion, StandardModule};
use depdiff::node_module::DepType;

fn record(name: &str, version: &str) -> StandardModule {
    StandardModule {
        name: String::from(name),
        version: ResolvedVersion::from_raw(String::from(version)),
        dep_type: DepType::ChildDependency,
    }
}

#[test]
fn diff_merges_two_sorted_trees() {
    let left = vec![record("a", "1.0.0"), record("c", "2.0.0")];
    let right = vec![record("b", "1.0.0"), record("c", "1.9.0")];
    let pairs = DiffedPair::get_pairs(&left, &right);

    assert_eq!(pairs.len(), 3);
    assert_eq!(pairs[0].name, "a");
    assert_eq!(pairs[1].name, "b");
    assert_eq!(pairs[2].name, "c");
    assert!(matches!(pairs[0].relation(), DiffRelation::LeftOnly));
    assert!(matches!(pairs[1].relation(), DiffRelation::RightOnly));
    assert!(matches!(
        pairs[2].relation(),
        DiffRelation::MatchedDiffers(Ordering::Greater)
    ));
}

#[test]
fn diff_output_is_sorted_and_total() {
    let left = vec![record("a", "1.0.0"), record("b", "1.0.0"), record("d", "1.0.0")];
    let right = vec![record("b", "1.0.0"), record("c", "1.0.0"), record("e", "1.0.0")];
    let pairs = DiffedPair::get_pairs(&left, &right);

    let names: Vec<&str> = pairs.iter().map(|p| p.name.as_str()).collect();
    assert_eq!(names, vec!["a", "b", "c", "d", "e"]);
    for w in names.windows(2) {
        assert!(w[0] < w[1]);
    }
}

#[test]
fn diff_leaves_inputs_unchanged() {
    let left = vec![record("a", "1.0.0")];
    let right = vec![record("a", "2.0.0")];
    let _ = DiffedPair::get_pairs(&left, &right);
    assert_eq!(left.len(), 1);
    assert_eq!(left[0].name, "a");
    assert_eq!(right.len(), 1);
    assert_eq!(right[0].name, "a");
}

#[test]
fn matched_equal_versions() {
    let left = vec![record("a", "1.2.3")];
    let right = vec![record("a", "1.2.3")];
    let pairs = DiffedPair::get_pairs(&left, &right);
    assert_eq!(pairs.len(), 1);
    assert!(matches!(pairs[0].relation(), DiffRelation::MatchedEqual));
}

#[test]
fn matched_equal_ignores_build_metadata() {
    let left = vec![record("a", "1.0.0+build1")];
    let right = vec![record("a", "1.0.0+build2")];
    let pairs = DiffedPair::get_pairs(&left, &right);
    assert!(matches!(pairs[0].relation(), DiffRelation::MatchedEqual));
}

#[test]
fn matched_fresher_on_right() {
    let left = vec![record("a", "1.2.3")];
    let right = vec![record("a", "1.10.0")];
    let pairs = DiffedPair::get_pairs(&left, &right);
    assert!(matches!(
        pairs[0].relation(),
        DiffRelation::MatchedDiffers(Ordering::Less)
    ));
}

#[test]
fn unparsable_versions_match_only_textually() {
    let left = vec![record("a", "git:repo"), record("b", "yalc:f")];
    let right = vec![record("a", "git:repo"), record("b", "yalc:g")];
    let pairs = DiffedPair::get_pairs(&left, &right);
    assert!(matches!(pairs[0].relation(), DiffRelation::MatchedEqual));
    assert!(matches!(pairs[1].relation(), DiffRelation::MatchedUnordered));
}

#[test]
fn parsed_against_unparsable_has_no_verdict() {
    let left = vec![record("a", "1.2.3")];
    let right = vec![record("a", "yalc:f")];
    let pairs = DiffedPair::get_pairs(&left, &right);
    assert!(matches!(pairs[0].relation(), DiffRelation::MatchedUnordered));
}

#[test]
fn diff_of_empty_trees() {
    let left: Vec<StandardModule> = Vec::new();
    let right: Vec<StandardModule> = Vec::new();
    let pairs = DiffedPair::get_pairs(&left, &right);
    assert_eq!(pairs.len(), 0);

    let left = vec![record("a", "1.0.0")];
    let pairs = DiffedPair::get_pairs(&left, &right);
    assert_eq!(pairs.len(), 1);
    assert!(matches!(pairs[0].relation(), DiffRelation::LeftOnly));
}

#[test]
fn from_builds_a_left_only_entry() {
    let entry = DiffedPair::from(&record("pkg", "1.0.0"));
    assert_eq!(entry.name, "pkg");
    assert!(entry.left.is_some());
    assert!(entry.right.is_none());
    assert!(matches!(entry.relation(), DiffRelation::LeftOnly));
}

#[test]
fn record_order_is_by_name() {
    let a = record("abc", "1.0.0");
    let b = record("abd", "1.0.0");
    assert_eq!(a.order(&b), Ordering::Less);
    assert_eq!(b.order(&a), Ordering::Greater);
    assert_eq!(a.order(&a), Ordering::Equal);
}
