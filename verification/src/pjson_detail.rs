//! The decoded manifest: a package's name, its version string, and its three
//! declared-dependency maps. Reading and deserializing the manifest file is
//! the caller's concern; the library receives plain values.

use vstd::prelude::*;

use crate::order::str_eq;

verus! {

/// First match in an association list of (name, declared range) pairs.
pub open spec fn lookup(
    entries: Seq<(Seq<char>, Seq<char>)>,
    name: Seq<char>,
) -> Option<Seq<char>>
    decreases entries.len(),
{
    if entries.len() == 0 {
        None
    } else if entries[0].0 == name {
        Some(entries[0].1)
    } else {
        lookup(entries.skip(1), name)
    }
}

/// A declared-dependency map: package names and the version ranges declared
/// for them.
pub struct DeclaredDeps {
    entries: Vec<(String, String)>,
}

impl View for DeclaredDeps {
    type V = Seq<(Seq<char>, Seq<char>)>;

    closed spec fn view(&self) -> Seq<(Seq<char>, Seq<char>)> {
        Seq::new(self.entries@.len(), |i: int| (self.entries@[i].0@, self.entries@[i].1@))
    }
}

impl DeclaredDeps {
    /// An empty map.
    pub fn new() -> (r: Self)
        ensures
            r@ == Seq::<(Seq<char>, Seq<char>)>::empty(),
    {
        let r = DeclaredDeps { entries: Vec::new() };
        proof {
            assert(r@ =~= Seq::<(Seq<char>, Seq<char>)>::empty());
        }
        r
    }

    /// Appends one declared dependency.
    pub fn push(&mut self, name: String, range: String)
        ensures
            final(self)@ == old(self)@.push((name@, range@)),
    {
        let ghost gn = name@;
        let ghost gr = range@;
        self.entries.push((name, range));
        proof {
            assert(self@ =~= old(self)@.push((gn, gr)));
        }
    }

    /// The declared range for `name`, if the map declares it.
    pub fn get(&self, name: &str) -> (r: Option<String>)
        ensures
            match r {
                Some(v) => lookup(self@, name@) == Some(v@),
                None => lookup(self@, name@) is None,
            },
    {
        let n = self.entries.len();
        let mut i: usize = 0;
        proof {
            assert(self@.skip(0) =~= self@);
        }
        while i < n
            invariant
                n == self.entries.len(),
                i <= n,
                lookup(self@, name@) == lookup(self@.skip(i as int), name@),
            decreases n - i,
        {
            proof {
                assert(self@.skip(i as int)[0] == self@[i as int]);
                assert(self@.skip(i as int).skip(1) =~= self@.skip(i as int + 1));
            }
            if str_eq(self.entries[i].0.as_str(), name) {
                return Some(self.entries[i].1.clone());
            }
            i = i + 1;
        }
        proof {
            assert(self@.skip(i as int).len() == 0);
        }
        None
    }
}

/// Model of a manifest: name, version string, and the three optional
/// declared-dependency maps.
#[verifier::ext_equal]
pub ghost struct PjsonView {
    pub name: Seq<char>,
    pub version: Seq<char>,
    pub dependencies: Option<Seq<(Seq<char>, Seq<char>)>>,
    pub dev_dependencies: Option<Seq<(Seq<char>, Seq<char>)>>,
    pub peer_dependencies: Option<Seq<(Seq<char>, Seq<char>)>>,
}

/// The name, version and declared-dependency maps read from a package's
/// manifest.
pub struct PjsonDetail {
    pub name: String,
    pub version: String,
    pub dependencies: Option<DeclaredDeps>,
    pub dev_dependencies: Option<DeclaredDeps>,
    pub peer_dependencies: Option<DeclaredDeps>,
}

impl View for PjsonDetail {
    type V = PjsonView;

    open spec fn view(&self) -> PjsonView {
        PjsonView {
            name: self.name@,
            version: self.version@,
            dependencies: match self.dependencies {
                Some(d) => Some(d@),
                None => None,
            },
            dev_dependencies: match self.dev_dependencies {
                Some(d) => Some(d@),
                None => None,
            },
            peer_dependencies: match self.peer_dependencies {
                Some(d) => Some(d@),
                None => None,
            },
        }
    }
}

impl PjsonDetail {
    /// Assembles a manifest from its parts.
    pub fn new(
        name: String,
        version: String,
        dependencies: Option<DeclaredDeps>,
        dev_dependencies: Option<DeclaredDeps>,
        peer_dependencies: Option<DeclaredDeps>,
    ) -> (r: Self)
        ensures
            r.name == name,
            r.version == version,
            r@.name == name@,
            r@.version == version@,
    {
        PjsonDetail { name, version, dependencies, dev_dependencies, peer_dependencies }
    }
}

} // verus!
