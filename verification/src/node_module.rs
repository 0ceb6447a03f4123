//! Classification of a resolved package against the application's manifest:
//! which of the three declared-dependency maps first names it, and with what
//! declared range. The priority is fixed: dependencies, then
//! devDependencies, then peerDependencies; a package named by none is a
//! transitive (child) dependency.

pub mod diffed_pair;
pub mod global;
pub mod standard;

use vstd::prelude::*;

use crate::cli::Cli;
use crate::pjson_detail::{lookup, DeclaredDeps, PjsonDetail, PjsonView};

verus! {

/// Model of a classification verdict.
#[verifier::ext_equal]
pub ghost enum DepTypeView {
    Dependency(Seq<char>),
    DevDependency(Seq<char>),
    PeerDependency(Seq<char>),
    ChildDependency,
}

/// How a resolved package relates to the manifest: declared in
/// `dependencies`, `devDependencies` or `peerDependencies` (carrying the
/// declared range), or pulled in transitively.
#[derive(Debug)]
pub enum DepType {
    Dependency(String),
    DevDependency(String),
    PeerDependency(String),
    ChildDependency,
}

impl View for DepType {
    type V = DepTypeView;

    open spec fn view(&self) -> DepTypeView {
        match self {
            DepType::Dependency(s) => DepTypeView::Dependency(s@),
            DepType::DevDependency(s) => DepTypeView::DevDependency(s@),
            DepType::PeerDependency(s) => DepTypeView::PeerDependency(s@),
            DepType::ChildDependency => DepTypeView::ChildDependency,
        }
    }
}

impl Clone for DepType {
    /// A copy with the same view.
    fn clone(&self) -> (res: Self)
        ensures
            res@ == self@,
    {
        match self {
            DepType::Dependency(s) => DepType::Dependency(s.clone()),
            DepType::DevDependency(s) => DepType::DevDependency(s.clone()),
            DepType::PeerDependency(s) => DepType::PeerDependency(s.clone()),
            DepType::ChildDependency => DepType::ChildDependency,
        }
    }
}

/// Lookup in an optional declared-dependency map; an absent map declares
/// nothing.
pub open spec fn opt_lookup(
    m: Option<Seq<(Seq<char>, Seq<char>)>>,
    name: Seq<char>,
) -> Option<Seq<char>> {
    match m {
        Some(entries) => lookup(entries, name),
        None => None,
    }
}

/// The classification verdict for `name` under manifest `p`: the first of
/// the three maps that declares it wins and supplies the declared range.
pub open spec fn spec_dep_type(name: Seq<char>, p: PjsonView) -> DepTypeView {
    match opt_lookup(p.dependencies, name) {
        Some(range) => DepTypeView::Dependency(range),
        None => match opt_lookup(p.dev_dependencies, name) {
            Some(range) => DepTypeView::DevDependency(range),
            None => match opt_lookup(p.peer_dependencies, name) {
                Some(range) => DepTypeView::PeerDependency(range),
                None => DepTypeView::ChildDependency,
            },
        },
    }
}

/// The declared range for `dep_name` in one optional map.
pub fn get_pjson_details(dep_name: &str, required_dependencies: &Option<DeclaredDeps>) -> (r:
    Option<String>)
    ensures
        match r {
            Some(v) => opt_lookup(spec_opt_deps(required_dependencies), dep_name@) == Some(v@),
            None => opt_lookup(spec_opt_deps(required_dependencies), dep_name@) is None,
        },
{
    match required_dependencies {
        Some(deps) => deps.get(dep_name),
        None => None,
    }
}

/// The view of an optional declared-dependency map.
pub open spec fn spec_opt_deps(d: &Option<DeclaredDeps>) -> Option<
    Seq<(Seq<char>, Seq<char>)>,
> {
    match d {
        Some(m) => Some(m@),
        None => None,
    }
}

/// Classifies `name` against the manifest, with the fixed priority
/// dependencies > devDependencies > peerDependencies > transitive.
pub fn get_dep_type(name: &str, app_pjson: &PjsonDetail) -> (r: DepType)
    ensures
        r@ == spec_dep_type(name@, app_pjson@),
{
    match get_pjson_details(name, &app_pjson.dependencies) {
        Some(required_version) => DepType::Dependency(required_version),
        None => match get_pjson_details(name, &app_pjson.dev_dependencies) {
            Some(required_version) => DepType::DevDependency(required_version),
            None => match get_pjson_details(name, &app_pjson.peer_dependencies) {
                Some(required_version) => DepType::PeerDependency(required_version),
                None => DepType::ChildDependency,
            },
        },
    }
}

/// Classification priority: a name declared under `dependencies` is always
/// reported as a direct dependency, whatever the other maps declare.
pub proof fn lemma_classify_priority(name: Seq<char>, p: PjsonView)
    requires
        opt_lookup(p.dependencies, name) is Some,
    ensures
        spec_dep_type(name, p) == DepTypeView::Dependency(
            opt_lookup(p.dependencies, name)->Some_0,
        ),
{
}

/// What the listing filter keeps for the flag pair `(dev, dep)`: transitive
/// packages only when neither flag asks for declared ones; declared
/// dependencies unless only `dev` is set; devDependencies unless only `dep`
/// is set; peerDependencies, like transitive ones, only when no flag is set.
pub open spec fn spec_standard_filter(d: DepTypeView, dev: bool, dep: bool) -> bool {
    match d {
        DepTypeView::ChildDependency => !(dev || dep),
        DepTypeView::Dependency(_) => !(dev && !dep),
        DepTypeView::DevDependency(_) => !(dep && !dev),
        DepTypeView::PeerDependency(_) => !(dev || dep),
    }
}

/// Whether the listing keeps a package of the given classification under the
/// `dep` / `dev` flags.
pub fn standard_filter(dep_type: &DepType, cli: &Cli) -> (r: bool)
    ensures
        r == spec_standard_filter(dep_type@, cli.dev, cli.dep),
{
    match dep_type {
        DepType::ChildDependency => !(cli.dev || cli.dep),
        DepType::Dependency(_) => !(cli.dev && !cli.dep),
        DepType::DevDependency(_) => !(cli.dep && !cli.dev),
        DepType::PeerDependency(_) => !(cli.dev || cli.dep),
    }
}

} // verus!
