//! The diff engine: a single-pass merge-join of two name-sorted sequences of
//! resolved-package records into one ordered sequence of paired entries. The
//! merge is a pure function of its inputs, which it borrows and never
//! changes; on sorted, duplicate-free inputs every name of either side
//! appears exactly once in the output, in ascending order.

use core::cmp::Ordering;
use vstd::prelude::*;

use crate::node_module::standard::{
    ResolvedVersion, ResolvedVersionView, StandardModule, StandardModuleView,
};
use crate::order::{lex_cmp_str, spec_cmp, str_eq};
use crate::text::{lemma_lex_cmp_eq, lemma_lex_cmp_reverse, lemma_lex_cmp_trans, lex_cmp_chars};

verus! {

/// Model of one diffed entry.
#[verifier::ext_equal]
pub ghost struct DiffedPairView {
    pub name: Seq<char>,
    pub left: Option<StandardModuleView>,
    pub right: Option<StandardModuleView>,
}

impl DiffedPairView {
    /// At least one side is present, and the entry's name is the name of
    /// each present side.
    pub open spec fn wf(self) -> bool {
        &&& (self.left is Some || self.right is Some)
        &&& match self.left {
            Some(l) => l.name == self.name,
            None => true,
        }
        &&& match self.right {
            Some(r) => r.name == self.name,
            None => true,
        }
    }
}

/// One name across the two compared trees: the record of the first tree, the
/// record of the second, or both.
#[derive(Debug)]
pub struct DiffedPair {
    pub name: String,
    pub left: Option<StandardModule>,
    pub right: Option<StandardModule>,
}

impl View for DiffedPair {
    type V = DiffedPairView;

    open spec fn view(&self) -> DiffedPairView {
        DiffedPairView {
            name: self.name@,
            left: match self.left {
                Some(l) => Some(l@),
                None => None,
            },
            right: match self.right {
                Some(r) => Some(r@),
                None => None,
            },
        }
    }
}

/// How the two sides of a matched entry relate: equal versions, a freshness
/// verdict where both parsed, matched without a verdict where at least one
/// did not, or present on one side only.
#[derive(Debug)]
pub enum DiffRelation {
    MatchedEqual,
    MatchedDiffers(Ordering),
    MatchedUnordered,
    LeftOnly,
    RightOnly,
}

/// An entry holding only a record of the first tree.
pub open spec fn left_entry(m: StandardModuleView) -> DiffedPairView {
    DiffedPairView { name: m.name, left: Some(m), right: None }
}

/// An entry holding only a record of the second tree.
pub open spec fn right_entry(m: StandardModuleView) -> DiffedPairView {
    DiffedPairView { name: m.name, left: None, right: Some(m) }
}

/// An entry holding the records of both trees.
pub open spec fn both_entry(l: StandardModuleView, r: StandardModuleView) -> DiffedPairView {
    DiffedPairView { name: l.name, left: Some(l), right: Some(r) }
}

/// The merge-join of two record sequences: walk both fronts, emitting the
/// smaller name alone and a matched pair on equal names.
pub open spec fn spec_merge(
    a: Seq<StandardModuleView>,
    b: Seq<StandardModuleView>,
) -> Seq<DiffedPairView>
    decreases a.len() + b.len(),
{
    if a.len() == 0 && b.len() == 0 {
        Seq::empty()
    } else if a.len() == 0 {
        seq![right_entry(b[0])] + spec_merge(a, b.skip(1))
    } else if b.len() == 0 {
        seq![left_entry(a[0])] + spec_merge(a.skip(1), b)
    } else {
        match lex_cmp_chars(a[0].name, b[0].name) {
            Ordering::Equal => seq![both_entry(a[0], b[0])] + spec_merge(a.skip(1), b.skip(1)),
            Ordering::Less => seq![left_entry(a[0])] + spec_merge(a.skip(1), b),
            Ordering::Greater => seq![right_entry(b[0])] + spec_merge(a, b.skip(1)),
        }
    }
}

/// The relation of a matched or one-sided entry, derived from its two
/// optional versions. A matched pair whose versions both parsed compares by
/// the version order; where at least one side kept a raw string, the entry
/// is `MatchedEqual` only for identical raw strings and otherwise carries no
/// freshness verdict. (A parsed and an unparsable version can never come
/// from identical raw strings, since parsing is a function of the string.)
pub open spec fn spec_relation(p: DiffedPairView) -> DiffRelation {
    match (p.left, p.right) {
        (Some(l), Some(r)) => match (l.version, r.version) {
            (ResolvedVersionView::Parsed(x), ResolvedVersionView::Parsed(y)) => match spec_cmp(
                x,
                y,
            ) {
                Ordering::Equal => DiffRelation::MatchedEqual,
                o => DiffRelation::MatchedDiffers(o),
            },
            (ResolvedVersionView::Raw(x), ResolvedVersionView::Raw(y)) => if x == y {
                DiffRelation::MatchedEqual
            } else {
                DiffRelation::MatchedUnordered
            },
            _ => DiffRelation::MatchedUnordered,
        },
        (Some(_), None) => DiffRelation::LeftOnly,
        (None, Some(_)) => DiffRelation::RightOnly,
        (None, None) => DiffRelation::MatchedUnordered,
    }
}

/// The views of a vector of records.
pub open spec fn views_of_modules(v: Seq<StandardModule>) -> Seq<StandardModuleView> {
    Seq::new(v.len(), |i: int| v[i]@)
}

/// The views of a vector of diffed entries.
pub open spec fn views_of_pairs(v: Seq<DiffedPair>) -> Seq<DiffedPairView> {
    Seq::new(v.len(), |i: int| v[i]@)
}

impl DiffedPair {
    /// The entry for a record of the first tree with no counterpart.
    pub fn from(dependency: &StandardModule) -> (r: Self)
        ensures
            r@ == left_entry(dependency@),
    {
        let r = DiffedPair {
            name: dependency.name.clone(),
            left: Some(dependency.clone()),
            right: None,
        };
        proof {
            assert(r@ =~= left_entry(dependency@));
        }
        r
    }

    /// The relation of this entry, derived from its two optional versions.
    pub fn relation(&self) -> (r: DiffRelation)
        ensures
            r == spec_relation(self@),
    {
        match (&self.left, &self.right) {
            (Some(l), Some(rr)) => match (&l.version, &rr.version) {
                (ResolvedVersion::Parsed(x), ResolvedVersion::Parsed(y)) => match x.cmp(y) {
                    Ordering::Equal => DiffRelation::MatchedEqual,
                    o => DiffRelation::MatchedDiffers(o),
                },
                (ResolvedVersion::Raw(x), ResolvedVersion::Raw(y)) => {
                    if str_eq(x.as_str(), y.as_str()) {
                        DiffRelation::MatchedEqual
                    } else {
                        DiffRelation::MatchedUnordered
                    }
                }
                _ => DiffRelation::MatchedUnordered,
            },
            (Some(_), None) => DiffRelation::LeftOnly,
            (None, Some(_)) => DiffRelation::RightOnly,
            (None, None) => DiffRelation::MatchedUnordered,
        }
    }

    /// Merges two name-sorted record sequences into one ordered sequence of
    /// diffed entries. The inputs are borrowed and never changed. The result
    /// is exactly the merge-join of the two sequences; on sorted inputs the
    /// laws [`lemma_diff_sorted`] and [`lemma_diff_total`] apply to it.
    pub fn get_pairs(
        dependencies: &Vec<StandardModule>,
        diff_dependencies: &Vec<StandardModule>,
    ) -> (r: Vec<DiffedPair>)
        ensures
            views_of_pairs(r@) == spec_merge(
                views_of_modules(dependencies@),
                views_of_modules(diff_dependencies@),
            ),
    {
        let ghost av = views_of_modules(dependencies@);
        let ghost bv = views_of_modules(diff_dependencies@);
        let n = dependencies.len();
        let m = diff_dependencies.len();
        let mut out: Vec<DiffedPair> = Vec::new();
        let mut i: usize = 0;
        let mut j: usize = 0;
        proof {
            assert(av.skip(0) =~= av);
            assert(bv.skip(0) =~= bv);
            assert(views_of_pairs(out@) =~= Seq::<DiffedPairView>::empty());
            assert(views_of_pairs(out@) + spec_merge(av, bv) =~= spec_merge(av, bv));
        }
        while i < n || j < m
            invariant
                n == dependencies.len(),
                m == diff_dependencies.len(),
                av == views_of_modules(dependencies@),
                bv == views_of_modules(diff_dependencies@),
                i <= n,
                j <= m,
                spec_merge(av, bv) == views_of_pairs(out@) + spec_merge(
                    av.skip(i as int),
                    bv.skip(j as int),
                ),
            decreases (n - i) + (m - j),
        {
            let ghost old_out = out@;
            proof {
                if i < n {
                    assert(av.skip(i as int)[0] == av[i as int]);
                    assert(av[i as int] == dependencies@[i as int]@);
                    assert(av.skip(i as int).skip(1) =~= av.skip(i as int + 1));
                }
                if j < m {
                    assert(bv.skip(j as int)[0] == bv[j as int]);
                    assert(bv[j as int] == diff_dependencies@[j as int]@);
                    assert(bv.skip(j as int).skip(1) =~= bv.skip(j as int + 1));
                }
            }
            if i < n && j < m {
                let o = lex_cmp_str(
                    dependencies[i].name.as_str(),
                    diff_dependencies[j].name.as_str(),
                );
                match o {
                    Ordering::Equal => {
                        let entry = DiffedPair {
                            name: dependencies[i].name.clone(),
                            left: Some(dependencies[i].clone()),
                            right: Some(diff_dependencies[j].clone()),
                        };
                        proof {
                            assert(entry@ =~= both_entry(av[i as int], bv[j as int]));
                        }
                        out.push(entry);
                        proof {
                            assert(views_of_pairs(out@) =~= views_of_pairs(old_out).push(
                                both_entry(av[i as int], bv[j as int]),
                            ));
                            assert(views_of_pairs(old_out).push(
                                both_entry(av[i as int], bv[j as int]),
                            ) + spec_merge(av.skip(i as int + 1), bv.skip(j as int + 1))
                                =~= views_of_pairs(old_out) + spec_merge(
                                av.skip(i as int),
                                bv.skip(j as int),
                            ));
                        }
                        i = i + 1;
                        j = j + 1;
                    }
                    Ordering::Less => {
                        let entry = DiffedPair::from(&dependencies[i]);
                        out.push(entry);
                        proof {
                            assert(views_of_pairs(out@) =~= views_of_pairs(old_out).push(
                                left_entry(av[i as int]),
                            ));
                            assert(views_of_pairs(old_out).push(left_entry(av[i as int]))
                                + spec_merge(av.skip(i as int + 1), bv.skip(j as int))
                                =~= views_of_pairs(old_out) + spec_merge(
                                av.skip(i as int),
                                bv.skip(j as int),
                            ));
                        }
                        i = i + 1;
                    }
                    Ordering::Greater => {
                        let entry = DiffedPair {
                            name: diff_dependencies[j].name.clone(),
                            left: None,
                            right: Some(diff_dependencies[j].clone()),
                        };
                        proof {
                            assert(entry@ =~= right_entry(bv[j as int]));
                        }
                        out.push(entry);
                        proof {
                            assert(views_of_pairs(out@) =~= views_of_pairs(old_out).push(
                                right_entry(bv[j as int]),
                            ));
                            assert(views_of_pairs(old_out).push(right_entry(bv[j as int]))
                                + spec_merge(av.skip(i as int), bv.skip(j as int + 1))
                                =~= views_of_pairs(old_out) + spec_merge(
                                av.skip(i as int),
                                bv.skip(j as int),
                            ));
                        }
                        j = j + 1;
                    }
                }
            } else if i < n {
                let entry = DiffedPair::from(&dependencies[i]);
                out.push(entry);
                proof {
                    assert(bv.skip(j as int).len() == 0);
                    assert(views_of_pairs(out@) =~= views_of_pairs(old_out).push(
                        left_entry(av[i as int]),
                    ));
                    assert(views_of_pairs(old_out).push(left_entry(av[i as int])) + spec_merge(
                        av.skip(i as int + 1),
                        bv.skip(j as int),
                    ) =~= views_of_pairs(old_out) + spec_merge(
                        av.skip(i as int),
                        bv.skip(j as int),
                    ));
                }
                i = i + 1;
            } else {
                let entry = DiffedPair {
                    name: diff_dependencies[j].name.clone(),
                    left: None,
                    right: Some(diff_dependencies[j].clone()),
                };
                proof {
                    assert(av.skip(i as int).len() == 0);
                    assert(entry@ =~= right_entry(bv[j as int]));
                }
                out.push(entry);
                proof {
                    assert(views_of_pairs(out@) =~= views_of_pairs(old_out).push(
                        right_entry(bv[j as int]),
                    ));
                    assert(views_of_pairs(old_out).push(right_entry(bv[j as int])) + spec_merge(
                        av.skip(i as int),
                        bv.skip(j as int + 1),
                    ) =~= views_of_pairs(old_out) + spec_merge(
                        av.skip(i as int),
                        bv.skip(j as int),
                    ));
                }
                j = j + 1;
            }
        }
        proof {
            assert(av.skip(i as int).len() == 0);
            assert(bv.skip(j as int).len() == 0);
            assert(views_of_pairs(out@) + spec_merge(av.skip(i as int), bv.skip(j as int))
                =~= views_of_pairs(out@));
        }
        out
    }
}


/// The record sequence is sorted strictly ascending by name (so names are
/// unique).
pub open spec fn sorted_by_name(s: Seq<StandardModuleView>) -> bool {
    forall|i: int, j: int|
        0 <= i < j < s.len() ==> lex_cmp_chars(#[trigger] s[i].name, #[trigger] s[j].name)
            == Ordering::Less
}

/// The entry sequence is sorted strictly ascending by name.
pub open spec fn pairs_sorted_by_name(s: Seq<DiffedPairView>) -> bool {
    forall|i: int, j: int|
        0 <= i < j < s.len() ==> lex_cmp_chars(#[trigger] s[i].name, #[trigger] s[j].name)
            == Ordering::Less
}

/// How many entries carry the name `n`.
pub open spec fn count_name(s: Seq<DiffedPairView>, n: Seq<char>) -> int
    decreases s.len(),
{
    if s.len() == 0 {
        0
    } else {
        (if s[0].name == n {
            1int
        } else {
            0int
        }) + count_name(s.skip(1), n)
    }
}

/// Some record of `s` carries the name `n`.
pub open spec fn has_name(s: Seq<StandardModuleView>, n: Seq<char>) -> bool {
    exists|i: int| 0 <= i < s.len() && #[trigger] s[i].name == n
}

/// A name strictly below the first of a sorted sequence occurs nowhere in
/// it.
proof fn lemma_below_head_absent(s: Seq<StandardModuleView>, n: Seq<char>)
    requires
        sorted_by_name(s),
        s.len() > 0,
        lex_cmp_chars(n, s[0].name) == Ordering::Less,
    ensures
        !has_name(s, n),
{
    assert forall|i: int| 0 <= i < s.len() implies #[trigger] s[i].name != n by {
        if i == 0 {
            lemma_lex_cmp_eq(n, s[0].name);
        } else {
            lemma_lex_cmp_trans(n, s[0].name, s[i].name);
            lemma_lex_cmp_eq(n, s[i].name);
        }
    }
}

/// Sortedness carries over to the tail.
proof fn lemma_sorted_skip(s: Seq<StandardModuleView>)
    requires
        sorted_by_name(s),
        s.len() > 0,
    ensures
        sorted_by_name(s.skip(1)),
{
    assert forall|i: int, j: int| 0 <= i < j < s.skip(1).len() implies lex_cmp_chars(
        #[trigger] s.skip(1)[i].name,
        #[trigger] s.skip(1)[j].name,
    ) == Ordering::Less by {
        assert(s.skip(1)[i] == s[i + 1]);
        assert(s.skip(1)[j] == s[j + 1]);
    }
}

/// Presence of a name carries between a sequence and its tail when the head
/// has another name.
proof fn lemma_has_name_skip(s: Seq<StandardModuleView>, n: Seq<char>)
    requires
        s.len() > 0,
        s[0].name != n,
    ensures
        has_name(s, n) == has_name(s.skip(1), n),
{
    if has_name(s, n) {
        let i = choose|i: int| 0 <= i < s.len() && #[trigger] s[i].name == n;
        assert(s.skip(1)[i - 1] == s[i]);
        assert(has_name(s.skip(1), n));
    }
    if has_name(s.skip(1), n) {
        let i = choose|i: int| 0 <= i < s.skip(1).len() && #[trigger] s.skip(1)[i].name == n;
        assert(s.skip(1)[i] == s[i + 1]);
        assert(has_name(s, n));
    }
}

/// Every entry of the merge is well formed, and its name is a name of one of
/// the inputs.
pub proof fn lemma_merge_entries(a: Seq<StandardModuleView>, b: Seq<StandardModuleView>)
    ensures
        forall|k: int|
            0 <= k < spec_merge(a, b).len() ==> (#[trigger] spec_merge(a, b)[k]).wf() && (
            has_name(a, spec_merge(a, b)[k].name) || has_name(b, spec_merge(a, b)[k].name)),
    decreases a.len() + b.len(),
{
    let mg = spec_merge(a, b);
    if a.len() == 0 && b.len() == 0 {
    } else {
        assert forall|k: int| 0 <= k < mg.len() implies (#[trigger] mg[k]).wf() && (has_name(
            a,
            mg[k].name,
        ) || has_name(b, mg[k].name)) by {
            if a.len() == 0 {
                lemma_merge_entries(a, b.skip(1));
                if k == 0 {
                    assert(mg[0] == right_entry(b[0]));
                } else {
                    assert(mg[k] == spec_merge(a, b.skip(1))[k - 1]);
                    let nm = mg[k].name;
                    if has_name(b.skip(1), nm) {
                        let i = choose|i: int|
                            0 <= i < b.skip(1).len() && #[trigger] b.skip(1)[i].name == nm;
                        assert(b.skip(1)[i] == b[i + 1]);
                    }
                }
            } else if b.len() == 0 {
                lemma_merge_entries(a.skip(1), b);
                if k == 0 {
                    assert(mg[0] == left_entry(a[0]));
                } else {
                    assert(mg[k] == spec_merge(a.skip(1), b)[k - 1]);
                    let nm = mg[k].name;
                    if has_name(a.skip(1), nm) {
                        let i = choose|i: int|
                            0 <= i < a.skip(1).len() && #[trigger] a.skip(1)[i].name == nm;
                        assert(a.skip(1)[i] == a[i + 1]);
                    }
                }
            } else {
                match lex_cmp_chars(a[0].name, b[0].name) {
                    Ordering::Equal => {
                        lemma_merge_entries(a.skip(1), b.skip(1));
                        if k == 0 {
                            assert(mg[0] == both_entry(a[0], b[0]));
                            lemma_lex_cmp_eq(a[0].name, b[0].name);
                        } else {
                            assert(mg[k] == spec_merge(a.skip(1), b.skip(1))[k - 1]);
                            let nm = mg[k].name;
                            if has_name(a.skip(1), nm) {
                                let i = choose|i: int|
                                    0 <= i < a.skip(1).len() && #[trigger] a.skip(1)[i].name == nm;
                                assert(a.skip(1)[i] == a[i + 1]);
                            }
                            if has_name(b.skip(1), nm) {
                                let i = choose|i: int|
                                    0 <= i < b.skip(1).len() && #[trigger] b.skip(1)[i].name == nm;
                                assert(b.skip(1)[i] == b[i + 1]);
                            }
                        }
                    }
                    Ordering::Less => {
                        lemma_merge_entries(a.skip(1), b);
                        if k == 0 {
                            assert(mg[0] == left_entry(a[0]));
                        } else {
                            assert(mg[k] == spec_merge(a.skip(1), b)[k - 1]);
                            let nm = mg[k].name;
                            if has_name(a.skip(1), nm) {
                                let i = choose|i: int|
                                    0 <= i < a.skip(1).len() && #[trigger] a.skip(1)[i].name == nm;
                                assert(a.skip(1)[i] == a[i + 1]);
                            }
                        }
                    }
                    Ordering::Greater => {
                        lemma_merge_entries(a, b.skip(1));
                        if k == 0 {
                            assert(mg[0] == right_entry(b[0]));
                        } else {
                            assert(mg[k] == spec_merge(a, b.skip(1))[k - 1]);
                            let nm = mg[k].name;
                            if has_name(b.skip(1), nm) {
                                let i = choose|i: int|
                                    0 <= i < b.skip(1).len() && #[trigger] b.skip(1)[i].name == nm;
                                assert(b.skip(1)[i] == b[i + 1]);
                            }
                        }
                    }
                }
            }
        }
    }
}


/// An entry sequence stays sorted when a strictly smaller name is put in
/// front.
proof fn lemma_cons_sorted(h: DiffedPairView, rest: Seq<DiffedPairView>)
    requires
        pairs_sorted_by_name(rest),
        forall|k: int|
            0 <= k < rest.len() ==> lex_cmp_chars(h.name, (#[trigger] rest[k]).name)
                == Ordering::Less,
    ensures
        pairs_sorted_by_name(seq![h] + rest),
{
    let s = seq![h] + rest;
    assert forall|i: int, j: int| 0 <= i < j < s.len() implies lex_cmp_chars(
        #[trigger] s[i].name,
        #[trigger] s[j].name,
    ) == Ordering::Less by {
        assert(s[j] == rest[j - 1]);
        if i > 0 {
            assert(s[i] == rest[i - 1]);
        } else {
            assert(s[0] == h);
        }
    }
}

/// A name strictly below every name of both inputs is strictly below every
/// entry name of their merge.
proof fn lemma_merge_above(n: Seq<char>, a: Seq<StandardModuleView>, b: Seq<StandardModuleView>)
    requires
        forall|i: int| 0 <= i < a.len() ==> lex_cmp_chars(n, (#[trigger] a[i]).name)
            == Ordering::Less,
        forall|i: int| 0 <= i < b.len() ==> lex_cmp_chars(n, (#[trigger] b[i]).name)
            == Ordering::Less,
    ensures
        forall|k: int|
            0 <= k < spec_merge(a, b).len() ==> lex_cmp_chars(
                n,
                (#[trigger] spec_merge(a, b)[k]).name,
            ) == Ordering::Less,
{
    lemma_merge_entries(a, b);
    assert forall|k: int| 0 <= k < spec_merge(a, b).len() implies lex_cmp_chars(
        n,
        (#[trigger] spec_merge(a, b)[k]).name,
    ) == Ordering::Less by {
        let nm = spec_merge(a, b)[k].name;
        if has_name(a, nm) {
            let i = choose|i: int| 0 <= i < a.len() && #[trigger] a[i].name == nm;
        } else {
            assert(has_name(b, nm));
            let i = choose|i: int| 0 <= i < b.len() && #[trigger] b[i].name == nm;
        }
    }
}

/// Order preservation: on name-sorted inputs the merge is itself sorted
/// strictly ascending by name.
pub proof fn lemma_diff_sorted(a: Seq<StandardModuleView>, b: Seq<StandardModuleView>)
    requires
        sorted_by_name(a),
        sorted_by_name(b),
    ensures
        pairs_sorted_by_name(spec_merge(a, b)),
    decreases a.len() + b.len(),
{
    if a.len() == 0 && b.len() == 0 {
    } else if a.len() == 0 {
        lemma_sorted_skip(b);
        lemma_diff_sorted(a, b.skip(1));
        let n = b[0].name;
        assert forall|i: int| 0 <= i < b.skip(1).len() implies lex_cmp_chars(
            n,
            (#[trigger] b.skip(1)[i]).name,
        ) == Ordering::Less by {
            assert(b.skip(1)[i] == b[i + 1]);
        }
        lemma_merge_above(n, a, b.skip(1));
        lemma_cons_sorted(right_entry(b[0]), spec_merge(a, b.skip(1)));
    } else if b.len() == 0 {
        lemma_sorted_skip(a);
        lemma_diff_sorted(a.skip(1), b);
        let n = a[0].name;
        assert forall|i: int| 0 <= i < a.skip(1).len() implies lex_cmp_chars(
            n,
            (#[trigger] a.skip(1)[i]).name,
        ) == Ordering::Less by {
            assert(a.skip(1)[i] == a[i + 1]);
        }
        lemma_merge_above(n, a.skip(1), b);
        lemma_cons_sorted(left_entry(a[0]), spec_merge(a.skip(1), b));
    } else {
        match lex_cmp_chars(a[0].name, b[0].name) {
            Ordering::Equal => {
                lemma_lex_cmp_eq(a[0].name, b[0].name);
                lemma_sorted_skip(a);
                lemma_sorted_skip(b);
                lemma_diff_sorted(a.skip(1), b.skip(1));
                let n = a[0].name;
                assert forall|i: int| 0 <= i < a.skip(1).len() implies lex_cmp_chars(
                    n,
                    (#[trigger] a.skip(1)[i]).name,
                ) == Ordering::Less by {
                    assert(a.skip(1)[i] == a[i + 1]);
                }
                assert forall|i: int| 0 <= i < b.skip(1).len() implies lex_cmp_chars(
                    n,
                    (#[trigger] b.skip(1)[i]).name,
                ) == Ordering::Less by {
                    assert(b.skip(1)[i] == b[i + 1]);
                }
                lemma_merge_above(n, a.skip(1), b.skip(1));
                lemma_cons_sorted(both_entry(a[0], b[0]), spec_merge(a.skip(1), b.skip(1)));
            }
            Ordering::Less => {
                lemma_sorted_skip(a);
                lemma_diff_sorted(a.skip(1), b);
                let n = a[0].name;
                assert forall|i: int| 0 <= i < a.skip(1).len() implies lex_cmp_chars(
                    n,
                    (#[trigger] a.skip(1)[i]).name,
                ) == Ordering::Less by {
                    assert(a.skip(1)[i] == a[i + 1]);
                }
                assert forall|i: int| 0 <= i < b.len() implies lex_cmp_chars(
                    n,
                    (#[trigger] b[i]).name,
                ) == Ordering::Less by {
                    if i > 0 {
                        lemma_lex_cmp_trans(n, b[0].name, b[i].name);
                    }
                }
                lemma_merge_above(n, a.skip(1), b);
                lemma_cons_sorted(left_entry(a[0]), spec_merge(a.skip(1), b));
            }
            Ordering::Greater => {
                lemma_sorted_skip(b);
                lemma_diff_sorted(a, b.skip(1));
                let n = b[0].name;
                lemma_lex_cmp_reverse(a[0].name, b[0].name);
                assert forall|i: int| 0 <= i < a.len() implies lex_cmp_chars(
                    n,
                    (#[trigger] a[i]).name,
                ) == Ordering::Less by {
                    if i > 0 {
                        lemma_lex_cmp_trans(n, a[0].name, a[i].name);
                    }
                }
                assert forall|i: int| 0 <= i < b.skip(1).len() implies lex_cmp_chars(
                    n,
                    (#[trigger] b.skip(1)[i]).name,
                ) == Ordering::Less by {
                    assert(b.skip(1)[i] == b[i + 1]);
                }
                lemma_merge_above(n, a, b.skip(1));
                lemma_cons_sorted(right_entry(b[0]), spec_merge(a, b.skip(1)));
            }
        }
    }
}

/// Totality for one name: on sorted inputs, a name of either input appears
/// in exactly one entry of the merge, and an unknown name in none.
pub proof fn lemma_diff_count(a: Seq<StandardModuleView>, b: Seq<StandardModuleView>, n: Seq<char>)
    requires
        sorted_by_name(a),
        sorted_by_name(b),
    ensures
        count_name(spec_merge(a, b), n) == if has_name(a, n) || has_name(b, n) {
            1int
        } else {
            0int
        },
    decreases a.len() + b.len(),
{
    let mg = spec_merge(a, b);
    if a.len() == 0 && b.len() == 0 {
    } else if a.len() == 0 {
        let rest = spec_merge(a, b.skip(1));
        assert(mg.skip(1) =~= rest);
        lemma_sorted_skip(b);
        lemma_diff_count(a, b.skip(1), n);
        if b[0].name == n {
            if b.skip(1).len() > 0 {
                assert(b.skip(1)[0] == b[1]);
                lemma_below_head_absent(b.skip(1), n);
            }
            assert(!has_name(b.skip(1), n));
            assert(has_name(b, n));
        } else {
            lemma_has_name_skip(b, n);
        }
    } else if b.len() == 0 {
        let rest = spec_merge(a.skip(1), b);
        assert(mg.skip(1) =~= rest);
        lemma_sorted_skip(a);
        lemma_diff_count(a.skip(1), b, n);
        if a[0].name == n {
            if a.skip(1).len() > 0 {
                assert(a.skip(1)[0] == a[1]);
                lemma_below_head_absent(a.skip(1), n);
            }
            assert(!has_name(a.skip(1), n));
            assert(has_name(a, n));
        } else {
            lemma_has_name_skip(a, n);
        }
    } else {
        match lex_cmp_chars(a[0].name, b[0].name) {
            Ordering::Equal => {
                lemma_lex_cmp_eq(a[0].name, b[0].name);
                let rest = spec_merge(a.skip(1), b.skip(1));
                assert(mg.skip(1) =~= rest);
                lemma_sorted_skip(a);
                lemma_sorted_skip(b);
                lemma_diff_count(a.skip(1), b.skip(1), n);
                if a[0].name == n {
                    if a.skip(1).len() > 0 {
                        assert(a.skip(1)[0] == a[1]);
                        lemma_below_head_absent(a.skip(1), n);
                    }
                    if b.skip(1).len() > 0 {
                        assert(b.skip(1)[0] == b[1]);
                        lemma_below_head_absent(b.skip(1), n);
                    }
                    assert(has_name(a, n));
                } else {
                    lemma_has_name_skip(a, n);
                    lemma_has_name_skip(b, n);
                }
            }
            Ordering::Less => {
                let rest = spec_merge(a.skip(1), b);
                assert(mg.skip(1) =~= rest);
                lemma_sorted_skip(a);
                lemma_diff_count(a.skip(1), b, n);
                if a[0].name == n {
                    if a.skip(1).len() > 0 {
                        assert(a.skip(1)[0] == a[1]);
                        lemma_below_head_absent(a.skip(1), n);
                    }
                    lemma_below_head_absent(b, n);
                    assert(has_name(a, n));
                } else {
                    lemma_has_name_skip(a, n);
                }
            }
            Ordering::Greater => {
                let rest = spec_merge(a, b.skip(1));
                assert(mg.skip(1) =~= rest);
                lemma_sorted_skip(b);
                lemma_diff_count(a, b.skip(1), n);
                if b[0].name == n {
                    if b.skip(1).len() > 0 {
                        assert(b.skip(1)[0] == b[1]);
                        lemma_below_head_absent(b.skip(1), n);
                    }
                    lemma_lex_cmp_reverse(a[0].name, b[0].name);
                    lemma_below_head_absent(a, n);
                    assert(has_name(b, n));
                } else {
                    lemma_has_name_skip(b, n);
                }
            }
        }
    }
}

/// Totality: on sorted inputs every name of either input appears exactly
/// once in the merge, and no other name appears.
pub proof fn lemma_diff_total(a: Seq<StandardModuleView>, b: Seq<StandardModuleView>)
    requires
        sorted_by_name(a),
        sorted_by_name(b),
    ensures
        forall|n: Seq<char>|
            count_name(spec_merge(a, b), n) == if has_name(a, n) || has_name(b, n) {
                1int
            } else {
                0int
            },
{
    assert forall|n: Seq<char>|
        count_name(spec_merge(a, b), n) == (if has_name(a, n) || has_name(b, n) {
            1int
        } else {
            0int
        }) by {
        lemma_diff_count(a, b, n);
    }
}

} // verus!
