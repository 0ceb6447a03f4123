//! One package of the globally installed tree: a bare name and version
//! string, with no manifest to classify against.

use core::cmp::Ordering;
use vstd::prelude::*;

use crate::order::lex_cmp_str;
use crate::text::lex_cmp_chars;

verus! {

/// A globally installed package: name and raw version string.
#[derive(Debug)]
pub struct GlobalModule {
    pub name: String,
    pub version: String,
}

impl Default for GlobalModule {
    /// An empty record.
    fn default() -> (r: Self)
        ensures
            r.name@.len() == 0,
            r.version@.len() == 0,
    {
        GlobalModule { name: String::new(), version: String::new() }
    }
}

impl GlobalModule {
    /// Fills the record from one manifest reading.
    pub fn populate(&mut self, name: String, version: String)
        ensures
            final(self).name == name,
            final(self).version == version,
    {
        self.name = name;
        self.version = version;
    }

    /// Where this record sorts relative to another: by name, ordinally.
    pub fn order(&self, to_compare: &GlobalModule) -> (r: Ordering)
        ensures
            r == lex_cmp_chars(self.name@, to_compare.name@),
    {
        lex_cmp_str(self.name.as_str(), to_compare.name.as_str())
    }
}

} // verus!
