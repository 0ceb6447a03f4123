use std::cmp::Ordering;

use depdiff::node_module::diffed_pair::DiffedPair;
use depdiff::node_module::standard::{ResolvedVersion, StandardModule};
use depdiff::node_module::{global::GlobalModule, DepType};
use depdiff::schema::{DepKey, DepTuple, Mode, Schema, Schematic};

fn matched_entry() -> DiffedPair {
    DiffedPair {
        name: String::from("pkg"),
        left: Some(StandardModule {
            name: String::from("pkg"),
            version: ResolvedVersion::from_raw(String::from("1.2.3+meta")),
            dep_type: DepType::Dependency(String::from("^1.0.0")),
        }),
        right: Some(StandardModule {
            name: String::from("pkg"),
            version: ResolvedVersion::from_raw(String::from("not-a-version")),
            dep_type: DepType::ChildDependency,
        }),
    }
}

#[test]
fn plain_schema_has_name_and_version_columns() {
    let s = Schema::new(&Schematic::Plain);
    assert_eq!(s.mode, Mode::PlainList);
    assert_eq!(s.cols.len(), 2);
    assert_eq!(s.cols[0].0, "Package");
    assert_eq!(s.cols[0].1, DepTuple::Main(DepKey::Name));
    assert_eq!(s.cols[1].0, "Version");
    assert_eq!(s.cols[1].1, DepTuple::Main(DepKey::Version));
}

#[test]
fn direct_schema_adds_type_and_declared_range() {
    let s = Schema::new(&Schematic::Direct);
    assert_eq!(s.mode, Mode::DirectDepsList);
    assert_eq!(s.cols.len(), 4);
    assert_eq!(s.cols[1].1, DepTuple::Main(DepKey::DepType));
    assert_eq!(s.cols[2].1, DepTuple::Main(DepKey::PjsonVersion));
}

#[test]
fn diff_schema_shows_both_sides() {
    let s = Schema::new(&Schematic::Diff);
    assert_eq!(s.mode, Mode::DiffList);
    assert_eq!(s.cols.len(), 7);
    assert_eq!(s.cols[4].1, DepTuple::Diff(DepKey::DepType));
    assert_eq!(s.cols[6].1, DepTuple::Diff(DepKey::Version));
}

#[test]
fn get_record_str_selects_side_and_field() {
    let entry = matched_entry();
    assert_eq!(entry.get_record_str(&DepTuple::Main(DepKey::Name), true), "pkg");
    assert_eq!(entry.get_record_str(&DepTuple::Main(DepKey::Version), true), "1.2.3+meta");
    assert_eq!(entry.get_record_str(&DepTuple::Main(DepKey::Version), false), "1.2.3");
    assert_eq!(entry.get_record_str(&DepTuple::Main(DepKey::DepType), true), "dep");
    assert_eq!(entry.get_record_str(&DepTuple::Main(DepKey::PjsonVersion), true), "^1.0.0");
    assert_eq!(entry.get_record_str(&DepTuple::Diff(DepKey::Version), true), "not-a-version");
    assert_eq!(entry.get_record_str(&DepTuple::Diff(DepKey::DepType), true), "child");
    assert_eq!(entry.get_record_str(&DepTuple::Diff(DepKey::PjsonVersion), true), "");
}

#[test]
fn get_record_str_of_absent_side_is_empty() {
    let entry = DiffedPair::from(&StandardModule {
        name: String::from("only-left"),
        version: ResolvedVersion::from_raw(String::from("0.1.0")),
        dep_type: DepType::ChildDependency,
    });
    assert_eq!(entry.get_record_str(&DepTuple::Diff(DepKey::Name), true), "");
    assert_eq!(entry.get_record_str(&DepTuple::Main(DepKey::Name), true), "only-left");
}

#[test]
fn global_module_orders_by_name() {
    let mut a = GlobalModule::default();
    a.populate(String::from("alpha"), String::from("1.0.0"));
    let mut b = GlobalModule::default();
    b.populate(String::from("beta"), String::from("1.0.0"));
    assert_eq!(a.order(&b), Ordering::Less);
    assert_eq!(a.name, "alpha");
    assert_eq!(b.version, "1.0.0");
}
