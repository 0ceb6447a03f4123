//! Inventory and comparison of a package manager's installed-dependency tree:
//! a semantic-version parser with a total-order comparator, a declared-dependency
//! classifier, and a sorted merge-join diff engine.

pub mod cli;
pub mod node_module;
pub mod order;
pub mod pjson_detail;
pub mod schema;
pub mod semver;
pub mod text;
