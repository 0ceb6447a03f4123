//! The output schema: which columns each listing mode shows, and the text
//! each column draws from a diffed entry. Laying the table out on a console
//! and coloring it are the caller's concern; the library fixes the column
//! plan and the cell text.

use vstd::prelude::*;

use crate::node_module::diffed_pair::{DiffedPair, DiffedPairView};
use crate::node_module::standard::{ResolvedVersion, ResolvedVersionView};
use crate::node_module::{DepType, DepTypeView};
use crate::semver::spec_render;

verus! {

/// Which field of a record a column shows.
#[derive(Debug, Clone, Copy, PartialEq, Eq, Structural)]
pub enum DepKey {
    Name,
    Version,
    DepType,
    PjsonVersion,
}

/// Which side of a diffed entry a column draws from.
#[derive(Debug, Clone, Copy, PartialEq, Eq, Structural)]
pub enum DepTuple {
    Main(DepKey),
    Diff(DepKey),
}

/// How the rows are to be colored.
#[derive(Debug, Clone, Copy, PartialEq, Eq, Structural)]
pub enum Mode {
    PlainList,
    DirectDepsList,
    DiffList,
}

/// Which listing is wanted.
#[derive(Debug, Clone, Copy, PartialEq, Eq, Structural)]
pub enum Schematic {
    Plain,
    Direct,
    Diff,
}

/// One column: its title and the record field it shows.
#[derive(Debug)]
pub struct Col(pub &'static str, pub DepTuple);

/// The plan of one listing: its mode, its columns, and the completion
/// message printed under the table.
#[derive(Debug)]
pub struct Schema {
    pub mode: Mode,
    pub cols: Vec<Col>,
    pub message: &'static str,
}

impl Schema {
    /// The fixed column plan of each listing: a plain list shows name and
    /// version; a direct-dependency list adds the classification and the
    /// declared range; a diff shows the shared name and then both sides'
    /// classification, declared range and version.
    pub fn new(schematic: &Schematic) -> (s: Schema)
        ensures
            match schematic {
                Schematic::Plain => {
                    &&& s.mode == Mode::PlainList
                    &&& s.cols@.len() == 2
                    &&& s.cols@[0].1 == DepTuple::Main(DepKey::Name)
                    &&& s.cols@[1].1 == DepTuple::Main(DepKey::Version)
                },
                Schematic::Direct => {
                    &&& s.mode == Mode::DirectDepsList
                    &&& s.cols@.len() == 4
                    &&& s.cols@[0].1 == DepTuple::Main(DepKey::Name)
                    &&& s.cols@[1].1 == DepTuple::Main(DepKey::DepType)
                    &&& s.cols@[2].1 == DepTuple::Main(DepKey::PjsonVersion)
                    &&& s.cols@[3].1 == DepTuple::Main(DepKey::Version)
                },
                Schematic::Diff => {
                    &&& s.mode == Mode::DiffList
                    &&& s.cols@.len() == 7
                    &&& s.cols@[0].1 == DepTuple::Main(DepKey::Name)
                    &&& s.cols@[1].1 == DepTuple::Main(DepKey::DepType)
                    &&& s.cols@[2].1 == DepTuple::Main(DepKey::PjsonVersion)
                    &&& s.cols@[3].1 == DepTuple::Main(DepKey::Version)
                    &&& s.cols@[4].1 == DepTuple::Diff(DepKey::DepType)
                    &&& s.cols@[5].1 == DepTuple::Diff(DepKey::PjsonVersion)
                    &&& s.cols@[6].1 == DepTuple::Diff(DepKey::Version)
                },
            },
    {
        match schematic {
            Schematic::Plain => Schema {
                mode: Mode::PlainList,
                cols: vec![
                    Col("Package", DepTuple::Main(DepKey::Name)),
                    Col("Version", DepTuple::Main(DepKey::Version)),
                ],
                message: "Direct dependencies (listed in the package.json) are highlighted in blue.",
            },
            Schematic::Direct => Schema {
                mode: Mode::DirectDepsList,
                cols: vec![
                    Col("Package", DepTuple::Main(DepKey::Name)),
                    Col("Type", DepTuple::Main(DepKey::DepType)),
                    Col("PJSON", DepTuple::Main(DepKey::PjsonVersion)),
                    Col("Version", DepTuple::Main(DepKey::Version)),
                ],
                message: "Packages which have resolved to a different version are highlighted in blue.",
            },
            Schematic::Diff => Schema {
                mode: Mode::DiffList,
                cols: vec![
                    Col("Package", DepTuple::Main(DepKey::Name)),
                    Col("Type", DepTuple::Main(DepKey::DepType)),
                    Col("PJSON", DepTuple::Main(DepKey::PjsonVersion)),
                    Col("Version", DepTuple::Main(DepKey::Version)),
                    Col("Type", DepTuple::Diff(DepKey::DepType)),
                    Col("PJSON", DepTuple::Diff(DepKey::PjsonVersion)),
                    Col("Version", DepTuple::Diff(DepKey::Version)),
                ],
                message: "Packages which have resolved to a different version are highlighted.",
            },
        }
    }
}

/// The text a version field shows: the canonical rendering where it parsed,
/// the raw string where it did not.
pub open spec fn spec_version_str(v: ResolvedVersionView, include_build: bool) -> Seq<char> {
    match v {
        ResolvedVersionView::Parsed(sv) => spec_render(sv, include_build),
        ResolvedVersionView::Raw(s) => s,
    }
}

/// The short label of a classification.
pub open spec fn spec_dep_type_label(d: DepTypeView) -> Seq<char> {
    match d {
        DepTypeView::Dependency(_) => "dep"@,
        DepTypeView::DevDependency(_) => "dev"@,
        DepTypeView::PeerDependency(_) => "peer"@,
        DepTypeView::ChildDependency => "child"@,
    }
}

/// The declared range a classification carries; a transitive package
/// declares none.
pub open spec fn spec_declared_range(d: DepTypeView) -> Seq<char> {
    match d {
        DepTypeView::Dependency(r) => r,
        DepTypeView::DevDependency(r) => r,
        DepTypeView::PeerDependency(r) => r,
        DepTypeView::ChildDependency => Seq::empty(),
    }
}

/// The text one column shows for one diffed entry: the chosen side's name,
/// version, classification label or declared range, and nothing where that
/// side is absent.
pub open spec fn spec_record_str(p: DiffedPairView, t: DepTuple, include_build: bool) -> Seq<
    char,
> {
    let side = match t {
        DepTuple::Main(_) => p.left,
        DepTuple::Diff(_) => p.right,
    };
    let key = match t {
        DepTuple::Main(k) => k,
        DepTuple::Diff(k) => k,
    };
    match side {
        None => Seq::empty(),
        Some(m) => match key {
            DepKey::Name => m.name,
            DepKey::Version => spec_version_str(m.version, include_build),
            DepKey::DepType => spec_dep_type_label(m.dep_type),
            DepKey::PjsonVersion => spec_declared_range(m.dep_type),
        },
    }
}

impl DiffedPair {
    /// The text one column shows for this entry.
    pub fn get_record_str(&self, dep_tuple: &DepTuple, include_build: bool) -> (r: String)
        ensures
            r@ == spec_record_str(self@, *dep_tuple, include_build),
    {
        let side: &Option<crate::node_module::standard::StandardModule> = match dep_tuple {
            DepTuple::Main(_) => &self.left,
            DepTuple::Diff(_) => &self.right,
        };
        let key: &DepKey = match dep_tuple {
            DepTuple::Main(k) => k,
            DepTuple::Diff(k) => k,
        };
        match side {
            None => String::new(),
            Some(m) => match key {
                DepKey::Name => m.name.clone(),
                DepKey::Version => match &m.version {
                    ResolvedVersion::Parsed(sv) => sv.to_string(include_build),
                    ResolvedVersion::Raw(s) => s.clone(),
                },
                DepKey::DepType => match &m.dep_type {
                    DepType::Dependency(_) => "dep".to_owned(),
                    DepType::DevDependency(_) => "dev".to_owned(),
                    DepType::PeerDependency(_) => "peer".to_owned(),
                    DepType::ChildDependency => "child".to_owned(),
                },
                DepKey::PjsonVersion => match &m.dep_type {
                    DepType::Dependency(r) => r.clone(),
                    DepType::DevDependency(r) => r.clone(),
                    DepType::PeerDependency(r) => r.clone(),
                    DepType::ChildDependency => String::new(),
                },
            },
        }
    }
}

} // verus!
