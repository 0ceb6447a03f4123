//! The total order on parsed versions. Core parts and pre-release
//! identifiers are compared numerically when both sides are digit runs and
//! ordinally otherwise; a release outranks any pre-release of the same core;
//! a pre-release sequence that is a strict prefix of another sorts lower;
//! build metadata never takes part.

use core::cmp::Ordering;
use vstd::prelude::*;

use crate::semver::{Semver, SemverView};
use crate::text::{
    all_digits, char_is_digit, is_digit_char, is_digits, lex_cmp_chars, lemma_char_cast_inj,
    lemma_lex_cmp_eq,
    lemma_lex_cmp_reverse, lemma_lex_cmp_trans, lemma_num_cmp_same_len, lemma_num_val_lower,
    lemma_num_val_nonneg, lemma_num_val_skip_zeros, lemma_num_val_upper, lemma_pow10_mono,
    num_val, ord_reverse,
};

verus! {

/// Comparison of two digit strings by numeric value.
pub open spec fn num_cmp(a: Seq<char>, b: Seq<char>) -> Ordering {
    if num_val(a) < num_val(b) {
        Ordering::Less
    } else if num_val(a) > num_val(b) {
        Ordering::Greater
    } else {
        Ordering::Equal
    }
}

/// Comparison of two version identifiers: numeric when both are digit runs,
/// ordinal otherwise.
pub open spec fn token_cmp(a: Seq<char>, b: Seq<char>) -> Ordering {
    if is_digits(a) && is_digits(b) {
        num_cmp(a, b)
    } else {
        lex_cmp_chars(a, b)
    }
}

/// Comparison of two pre-release identifier sequences: pairwise left to
/// right, a strict prefix sorting lower.
pub open spec fn tokens_cmp(a: Seq<Seq<char>>, b: Seq<Seq<char>>) -> Ordering
    decreases a.len(),
{
    if a.len() == 0 && b.len() == 0 {
        Ordering::Equal
    } else if a.len() == 0 {
        Ordering::Less
    } else if b.len() == 0 {
        Ordering::Greater
    } else {
        match token_cmp(a[0], b[0]) {
            Ordering::Equal => tokens_cmp(a.skip(1), b.skip(1)),
            o => o,
        }
    }
}

/// The order on versions: major, then minor, then patch; on an equal core a
/// release outranks any pre-release, and two pre-releases compare by their
/// identifier sequences. Build metadata is ignored.
pub open spec fn spec_cmp(a: SemverView, b: SemverView) -> Ordering {
    match token_cmp(a.major, b.major) {
        Ordering::Equal => match token_cmp(a.minor, b.minor) {
            Ordering::Equal => match token_cmp(a.patch, b.patch) {
                Ordering::Equal => match (a.pre_release, b.pre_release) {
                    (None, None) => Ordering::Equal,
                    (None, Some(_)) => Ordering::Greater,
                    (Some(_), None) => Ordering::Less,
                    (Some(x), Some(y)) => tokens_cmp(x, y),
                },
                o => o,
            },
            o => o,
        },
        o => o,
    }
}

/// Whether every character of `x` is a decimal digit.
fn str_all_digits(x: &str, n: usize) -> (b: bool)
    requires
        n == x@.len(),
    ensures
        b == all_digits(x@),
{
    let mut i: usize = 0;
    while i < n
        invariant
            n == x@.len(),
            i <= n,
            forall|k: int| 0 <= k < i ==> is_digit_char(#[trigger] x@[k]),
        decreases n - i,
    {
        if !char_is_digit(x.get_char(i)) {
            return false;
        }
        i = i + 1;
    }
    true
}

/// Ordinal comparison of two strings, character by character.
pub(crate) fn lex_cmp_str(x: &str, y: &str) -> (r: Ordering)
    ensures
        r == lex_cmp_chars(x@, y@),
{
    let n = x.unicode_len();
    let m = y.unicode_len();
    let mut i: usize = 0;
    proof {
        assert(x@.skip(0) =~= x@);
        assert(y@.skip(0) =~= y@);
    }
    while i < n && i < m
        invariant
            n == x@.len(),
            m == y@.len(),
            i <= n,
            i <= m,
            lex_cmp_chars(x@, y@) == lex_cmp_chars(x@.skip(i as int), y@.skip(i as int)),
        decreases n - i,
    {
        let cx = x.get_char(i) as u32;
        let cy = y.get_char(i) as u32;
        if cx < cy {
            proof {
                assert(x@.skip(i as int)[0] == x@[i as int]);
                assert(y@.skip(i as int)[0] == y@[i as int]);
            }
            return Ordering::Less;
        }
        if cx > cy {
            proof {
                assert(x@.skip(i as int)[0] == x@[i as int]);
                assert(y@.skip(i as int)[0] == y@[i as int]);
            }
            return Ordering::Greater;
        }
        proof {
            assert(x@.skip(i as int)[0] == x@[i as int]);
            assert(y@.skip(i as int)[0] == y@[i as int]);
            assert(x@.skip(i as int).skip(1) =~= x@.skip(i as int + 1));
            assert(y@.skip(i as int).skip(1) =~= y@.skip(i as int + 1));
        }
        i = i + 1;
    }
    proof {
        assert(x@.skip(i as int).len() == n - i);
        assert(y@.skip(i as int).len() == m - i);
    }
    if i == n && i == m {
        Ordering::Equal
    } else if i == n {
        Ordering::Less
    } else {
        Ordering::Greater
    }
}

/// Numeric comparison of two non-empty digit strings: strip leading zeros,
/// then a shorter string is smaller, and equally long strings compare
/// ordinally.
fn cmp_digit_strs(x: &str, y: &str) -> (r: Ordering)
    requires
        is_digits(x@),
        is_digits(y@),
    ensures
        r == num_cmp(x@, y@),
{
    let n = x.unicode_len();
    let m = y.unicode_len();
    let mut zx: usize = 0;
    while zx < n && x.get_char(zx) == '0'
        invariant
            n == x@.len(),
            zx <= n,
            forall|k: int| 0 <= k < zx ==> #[trigger] x@[k] == '0',
        decreases n - zx,
    {
        zx = zx + 1;
    }
    let mut zy: usize = 0;
    while zy < m && y.get_char(zy) == '0'
        invariant
            m == y@.len(),
            zy <= m,
            forall|k: int| 0 <= k < zy ==> #[trigger] y@[k] == '0',
        decreases m - zy,
    {
        zy = zy + 1;
    }
    let ghost xs = x@.skip(zx as int);
    let ghost ys = y@.skip(zy as int);
    proof {
        lemma_num_val_skip_zeros(x@, zx as int);
        lemma_num_val_skip_zeros(y@, zy as int);
        assert(all_digits(xs)) by {
            assert forall|k: int| 0 <= k < xs.len() implies is_digit_char(
                #[trigger] xs[k],
            ) by {
                assert(xs[k] == x@[zx + k]);
            }
        }
        assert(all_digits(ys)) by {
            assert forall|k: int| 0 <= k < ys.len() implies is_digit_char(
                #[trigger] ys[k],
            ) by {
                assert(ys[k] == y@[zy + k]);
            }
        }
        lemma_num_val_nonneg(xs);
        lemma_num_val_nonneg(ys);
    }
    if n - zx < m - zy {
        proof {
            assert(ys[0] == y@[zy as int]);
            if (ys[0] as u32) == ('0' as u32) {
                lemma_char_cast_inj(ys[0], '0');
            }
            lemma_num_val_lower(ys);
            lemma_num_val_upper(xs);
            lemma_pow10_mono(xs.len() as nat, (ys.len() - 1) as nat);
        }
        Ordering::Less
    } else if n - zx > m - zy {
        proof {
            assert(xs[0] == x@[zx as int]);
            if (xs[0] as u32) == ('0' as u32) {
                lemma_char_cast_inj(xs[0], '0');
            }
            lemma_num_val_lower(xs);
            lemma_num_val_upper(ys);
            lemma_pow10_mono(ys.len() as nat, (xs.len() - 1) as nat);
        }
        Ordering::Greater
    } else {
        let r = lex_cmp_str(x.substring_char(zx, n), y.substring_char(zy, m));
        proof {
            assert(x@.subrange(zx as int, n as int) =~= xs);
            assert(y@.subrange(zy as int, m as int) =~= ys);
            lemma_num_cmp_same_len(xs, ys);
        }
        r
    }
}

/// Comparison of two version identifiers as the order defines it.
fn cmp_identifier(x: &str, y: &str) -> (r: Ordering)
    ensures
        r == token_cmp(x@, y@),
{
    let n = x.unicode_len();
    let m = y.unicode_len();
    if n > 0 && m > 0 && str_all_digits(x, n) && str_all_digits(y, m) {
        cmp_digit_strs(x, y)
    } else {
        lex_cmp_str(x, y)
    }
}

/// Pairwise comparison of two pre-release identifier sequences.
fn cmp_token_vecs(x: &Vec<String>, y: &Vec<String>) -> (r: Ordering)
    ensures
        r == tokens_cmp(x.deep_view(), y.deep_view()),
{
    let n = x.len();
    let m = y.len();
    let ghost xd = x.deep_view();
    let ghost yd = y.deep_view();
    let mut i: usize = 0;
    proof {
        assert(xd.skip(0) =~= xd);
        assert(yd.skip(0) =~= yd);
    }
    while i < n && i < m
        invariant
            n == x.len(),
            m == y.len(),
            xd == x.deep_view(),
            yd == y.deep_view(),
            i <= n,
            i <= m,
            tokens_cmp(xd, yd) == tokens_cmp(xd.skip(i as int), yd.skip(i as int)),
        decreases n - i,
    {
        let o = cmp_identifier(x[i].as_str(), y[i].as_str());
        proof {
            assert(xd.skip(i as int)[0] == xd[i as int]);
            assert(yd.skip(i as int)[0] == yd[i as int]);
            assert(xd[i as int] == x@[i as int]@);
            assert(yd[i as int] == y@[i as int]@);
            assert(xd.skip(i as int).skip(1) =~= xd.skip(i as int + 1));
            assert(yd.skip(i as int).skip(1) =~= yd.skip(i as int + 1));
        }
        match o {
            Ordering::Equal => {
                i = i + 1;
            }
            Ordering::Less => {
                return Ordering::Less;
            }
            Ordering::Greater => {
                return Ordering::Greater;
            }
        }
    }
    proof {
        assert(xd.skip(i as int).len() == n - i);
        assert(yd.skip(i as int).len() == m - i);
    }
    if i == n && i == m {
        Ordering::Equal
    } else if i == n {
        Ordering::Less
    } else {
        Ordering::Greater
    }
}

impl Semver {
    /// Total-order comparison of two versions; build metadata is ignored.
    pub fn cmp(&self, other: &Self) -> (r: Ordering)
        ensures
            r == spec_cmp(self@, other@),
    {
        let o = cmp_identifier(self.major.as_str(), other.major.as_str());
        match o {
            Ordering::Less => {
                return Ordering::Less;
            }
            Ordering::Greater => {
                return Ordering::Greater;
            }
            Ordering::Equal => {}
        }
        let o = cmp_identifier(self.minor.as_str(), other.minor.as_str());
        match o {
            Ordering::Less => {
                return Ordering::Less;
            }
            Ordering::Greater => {
                return Ordering::Greater;
            }
            Ordering::Equal => {}
        }
        let o = cmp_identifier(self.patch.as_str(), other.patch.as_str());
        match o {
            Ordering::Less => {
                return Ordering::Less;
            }
            Ordering::Greater => {
                return Ordering::Greater;
            }
            Ordering::Equal => {}
        }
        match (&self.pre_release, &other.pre_release) {
            (None, None) => Ordering::Equal,
            (None, Some(_)) => Ordering::Greater,
            (Some(_), None) => Ordering::Less,
            (Some(ts), Some(os)) => cmp_token_vecs(ts, os),
        }
    }
}

impl PartialEq for Semver {
    /// Two versions are equal when the order places neither first; build
    /// metadata is ignored.
    fn eq(&self, other: &Self) -> (r: bool) {
        matches!(self.cmp(other), Ordering::Equal)
    }
}

impl vstd::std_specs::cmp::PartialEqSpecImpl for Semver {
    open spec fn obeys_eq_spec() -> bool {
        true
    }

    open spec fn eq_spec(&self, other: &Self) -> bool {
        spec_cmp(self@, other@) == Ordering::Equal
    }
}

impl PartialOrd for Semver {
    /// The total order, exposed through the comparison operators.
    fn partial_cmp(&self, other: &Self) -> (r: Option<Ordering>) {
        Some(self.cmp(other))
    }
}

impl vstd::std_specs::cmp::PartialOrdSpecImpl for Semver {
    open spec fn obeys_partial_cmp_spec() -> bool {
        true
    }

    open spec fn partial_cmp_spec(&self, other: &Self) -> Option<Ordering> {
        Some(spec_cmp(self@, other@))
    }
}


/// Two identifiers are compared in the same mode: both digit runs, or not.
pub open spec fn mode_ok(a: Seq<char>, b: Seq<char>) -> bool {
    is_digits(a) <==> is_digits(b)
}

/// At every shared position the two token sequences agree on whether the
/// tokens are digit runs.
pub open spec fn modes_aligned(x: Seq<Seq<char>>, y: Seq<Seq<char>>) -> bool {
    forall|i: int|
        0 <= i < x.len() && i < y.len() ==> mode_ok(#[trigger] x[i], #[trigger] y[i])
}

/// The pre-release sections of two versions, where both are present, are
/// mode-aligned.
pub open spec fn pre_aligned(a: SemverView, b: SemverView) -> bool {
    match (a.pre_release, b.pre_release) {
        (Some(x), Some(y)) => modes_aligned(x, y),
        _ => true,
    }
}

/// An identifier compares `Equal` with itself.
pub proof fn lemma_token_cmp_refl(a: Seq<char>)
    ensures
        token_cmp(a, a) == Ordering::Equal,
{
    lemma_lex_cmp_eq(a, a);
}

/// Swapping the identifiers reverses the verdict.
pub proof fn lemma_token_cmp_reverse(a: Seq<char>, b: Seq<char>)
    ensures
        token_cmp(b, a) == ord_reverse(token_cmp(a, b)),
{
    if !(is_digits(a) && is_digits(b)) {
        lemma_lex_cmp_reverse(a, b);
    }
}

/// The identifier comparison is transitive across same-mode comparisons.
pub proof fn lemma_token_cmp_trans(a: Seq<char>, b: Seq<char>, c: Seq<char>)
    requires
        mode_ok(a, b),
        mode_ok(b, c),
        token_cmp(a, b) == Ordering::Less,
        token_cmp(b, c) == Ordering::Less,
    ensures
        token_cmp(a, c) == Ordering::Less,
{
    if !is_digits(a) {
        lemma_lex_cmp_trans(a, b, c);
    }
}

/// An identifier that compares `Equal` to another can replace it in any
/// same-mode comparison.
pub proof fn lemma_token_cmp_subst(a: Seq<char>, b: Seq<char>, c: Seq<char>)
    requires
        mode_ok(a, b),
        mode_ok(b, c),
        token_cmp(a, b) == Ordering::Equal,
    ensures
        token_cmp(a, c) == token_cmp(b, c),
{
    if !is_digits(a) {
        lemma_lex_cmp_eq(a, b);
    }
}

/// A token sequence compares `Equal` with itself.
pub proof fn lemma_tokens_cmp_refl(x: Seq<Seq<char>>)
    ensures
        tokens_cmp(x, x) == Ordering::Equal,
    decreases x.len(),
{
    if x.len() > 0 {
        lemma_token_cmp_refl(x[0]);
        lemma_tokens_cmp_refl(x.skip(1));
    }
}

/// Swapping the token sequences reverses the verdict.
pub proof fn lemma_tokens_cmp_reverse(x: Seq<Seq<char>>, y: Seq<Seq<char>>)
    ensures
        tokens_cmp(y, x) == ord_reverse(tokens_cmp(x, y)),
    decreases x.len(),
{
    if x.len() > 0 && y.len() > 0 {
        lemma_token_cmp_reverse(x[0], y[0]);
        if token_cmp(x[0], y[0]) == Ordering::Equal {
            lemma_tokens_cmp_reverse(x.skip(1), y.skip(1));
        }
    }
}

/// The token-sequence comparison is transitive over mode-aligned sequences.
pub proof fn lemma_tokens_cmp_trans(x: Seq<Seq<char>>, y: Seq<Seq<char>>, z: Seq<Seq<char>>)
    requires
        modes_aligned(x, y),
        modes_aligned(y, z),
        modes_aligned(x, z),
        tokens_cmp(x, y) == Ordering::Less,
        tokens_cmp(y, z) == Ordering::Less,
    ensures
        tokens_cmp(x, z) == Ordering::Less,
    decreases x.len(),
{
    if x.len() == 0 {
        assert(y.len() > 0);
        assert(z.len() > 0);
    } else {
        assert(y.len() > 0);
        assert(z.len() > 0);
        let hx = x[0];
        let hy = y[0];
        let hz = z[0];
        assert(mode_ok(hx, hy));
        assert(mode_ok(hy, hz));
        assert(mode_ok(hx, hz));
        let t1 = token_cmp(hx, hy);
        let t2 = token_cmp(hy, hz);
        if t1 == Ordering::Less {
            if t2 == Ordering::Less {
                lemma_token_cmp_trans(hx, hy, hz);
            } else if t2 == Ordering::Equal {
                lemma_token_cmp_reverse(hx, hy);
                lemma_token_cmp_subst(hy, hz, hx);
                lemma_token_cmp_reverse(hz, hx);
            }
        } else if t1 == Ordering::Equal {
            if t2 == Ordering::Less {
                lemma_token_cmp_subst(hx, hy, hz);
            } else if t2 == Ordering::Equal {
                lemma_token_cmp_subst(hx, hy, hz);
                assert(modes_aligned(x.skip(1), y.skip(1))) by {
                    assert forall|i: int|
                        0 <= i < x.skip(1).len() && i < y.skip(1).len() implies mode_ok(
                        #[trigger] x.skip(1)[i],
                        #[trigger] y.skip(1)[i],
                    ) by {
                        assert(x.skip(1)[i] == x[i + 1]);
                        assert(y.skip(1)[i] == y[i + 1]);
                    }
                }
                assert(modes_aligned(y.skip(1), z.skip(1))) by {
                    assert forall|i: int|
                        0 <= i < y.skip(1).len() && i < z.skip(1).len() implies mode_ok(
                        #[trigger] y.skip(1)[i],
                        #[trigger] z.skip(1)[i],
                    ) by {
                        assert(y.skip(1)[i] == y[i + 1]);
                        assert(z.skip(1)[i] == z[i + 1]);
                    }
                }
                assert(modes_aligned(x.skip(1), z.skip(1))) by {
                    assert forall|i: int|
                        0 <= i < x.skip(1).len() && i < z.skip(1).len() implies mode_ok(
                        #[trigger] x.skip(1)[i],
                        #[trigger] z.skip(1)[i],
                    ) by {
                        assert(x.skip(1)[i] == x[i + 1]);
                        assert(z.skip(1)[i] == z[i + 1]);
                    }
                }
                lemma_tokens_cmp_trans(x.skip(1), y.skip(1), z.skip(1));
            }
        }
    }
}

/// Swapping the two versions reverses the verdict. With
/// [`lemma_cmp_transitive`], the comparison is a total order: of any two
/// versions, exactly one of `a < b`, `a == b`, `a > b` holds.
pub proof fn lemma_cmp_reverse(a: SemverView, b: SemverView)
    ensures
        spec_cmp(b, a) == ord_reverse(spec_cmp(a, b)),
{
    lemma_token_cmp_reverse(a.major, b.major);
    lemma_token_cmp_reverse(a.minor, b.minor);
    lemma_token_cmp_reverse(a.patch, b.patch);
    match (a.pre_release, b.pre_release) {
        (Some(x), Some(y)) => lemma_tokens_cmp_reverse(x, y),
        _ => {}
    }
}

/// The order on versions is transitive. Pre-release token sequences must be
/// mode-aligned where present: a digit run may sort below one identifier
/// numerically and above another ordinally, so mixing modes at one position
/// breaks transitivity and is excluded here.
pub proof fn lemma_cmp_transitive(a: SemverView, b: SemverView, c: SemverView)
    requires
        a.wf(),
        b.wf(),
        c.wf(),
        pre_aligned(a, b),
        pre_aligned(b, c),
        pre_aligned(a, c),
        spec_cmp(a, b) == Ordering::Less,
        spec_cmp(b, c) == Ordering::Less,
    ensures
        spec_cmp(a, c) == Ordering::Less,
{
    let m1 = token_cmp(a.major, b.major);
    let m2 = token_cmp(b.major, c.major);
    if m1 == Ordering::Less {
        if m2 == Ordering::Less {
            lemma_token_cmp_trans(a.major, b.major, c.major);
        } else if m2 == Ordering::Equal {
            lemma_token_cmp_reverse(a.major, b.major);
            lemma_token_cmp_subst(b.major, c.major, a.major);
            lemma_token_cmp_reverse(c.major, a.major);
        }
    } else if m1 == Ordering::Equal {
        if m2 == Ordering::Less {
            lemma_token_cmp_subst(a.major, b.major, c.major);
        } else if m2 == Ordering::Equal {
            lemma_token_cmp_subst(a.major, b.major, c.major);
            let n1 = token_cmp(a.minor, b.minor);
            let n2 = token_cmp(b.minor, c.minor);
            if n1 == Ordering::Less {
                if n2 == Ordering::Less {
                    lemma_token_cmp_trans(a.minor, b.minor, c.minor);
                } else if n2 == Ordering::Equal {
                    lemma_token_cmp_reverse(a.minor, b.minor);
                    lemma_token_cmp_subst(b.minor, c.minor, a.minor);
                    lemma_token_cmp_reverse(c.minor, a.minor);
                }
            } else if n1 == Ordering::Equal {
                if n2 == Ordering::Less {
                    lemma_token_cmp_subst(a.minor, b.minor, c.minor);
                } else if n2 == Ordering::Equal {
                    lemma_token_cmp_subst(a.minor, b.minor, c.minor);
                    let p1 = token_cmp(a.patch, b.patch);
                    let p2 = token_cmp(b.patch, c.patch);
                    if p1 == Ordering::Less {
                        if p2 == Ordering::Less {
                            lemma_token_cmp_trans(a.patch, b.patch, c.patch);
                        } else if p2 == Ordering::Equal {
                            lemma_token_cmp_reverse(a.patch, b.patch);
                            lemma_token_cmp_subst(b.patch, c.patch, a.patch);
                            lemma_token_cmp_reverse(c.patch, a.patch);
                        }
                    } else if p1 == Ordering::Equal {
                        if p2 == Ordering::Less {
                            lemma_token_cmp_subst(a.patch, b.patch, c.patch);
                        } else if p2 == Ordering::Equal {
                            lemma_token_cmp_subst(a.patch, b.patch, c.patch);
                            match (a.pre_release, b.pre_release, c.pre_release) {
                                (Some(x), Some(y), Some(z)) => {
                                    lemma_tokens_cmp_trans(x, y, z);
                                }
                                _ => {}
                            }
                        }
                    }
                }
            }
        }
    }
}

/// A release outranks every pre-release of the same core version.
pub proof fn lemma_release_over_prerelease(a: SemverView, b: SemverView)
    requires
        a.major == b.major,
        a.minor == b.minor,
        a.patch == b.patch,
        a.pre_release is None,
        b.pre_release is Some,
    ensures
        spec_cmp(a, b) == Ordering::Greater,
{
    lemma_token_cmp_refl(a.major);
    lemma_token_cmp_refl(a.minor);
    lemma_token_cmp_refl(a.patch);
}

/// Build metadata never takes part in the comparison: two versions that
/// differ only there compare `Equal`.
pub proof fn lemma_build_metadata_excluded(a: SemverView, b: SemverView)
    requires
        a.major == b.major,
        a.minor == b.minor,
        a.patch == b.patch,
        a.pre_release == b.pre_release,
    ensures
        spec_cmp(a, b) == Ordering::Equal,
{
    lemma_token_cmp_refl(a.major);
    lemma_token_cmp_refl(a.minor);
    lemma_token_cmp_refl(a.patch);
    match a.pre_release {
        Some(x) => {
            lemma_tokens_cmp_refl(x);
        }
        None => {}
    }
}


/// Whether two strings hold the same characters.
pub fn str_eq(a: &str, b: &str) -> (r: bool)
    ensures
        r == (a@ == b@),
{
    let o = lex_cmp_str(a, b);
    proof {
        lemma_lex_cmp_eq(a@, b@);
    }
    matches!(o, Ordering::Equal)
}


/// Mode alignment is symmetric.
pub proof fn lemma_pre_aligned_sym(a: SemverView, b: SemverView)
    requires
        pre_aligned(a, b),
    ensures
        pre_aligned(b, a),
{
    match (a.pre_release, b.pre_release) {
        (Some(x), Some(y)) => {
            assert forall|i: int| 0 <= i < y.len() && i < x.len() implies mode_ok(
                #[trigger] y[i],
                #[trigger] x[i],
            ) by {
                assert(mode_ok(x[i], y[i]));
            }
        }
        _ => {}
    }
}

/// The mirror of [`lemma_cmp_transitive`]: `Greater` is transitive too.
pub proof fn lemma_cmp_transitive_greater(a: SemverView, b: SemverView, c: SemverView)
    requires
        a.wf(),
        b.wf(),
        c.wf(),
        pre_aligned(a, b),
        pre_aligned(b, c),
        pre_aligned(a, c),
        spec_cmp(a, b) == Ordering::Greater,
        spec_cmp(b, c) == Ordering::Greater,
    ensures
        spec_cmp(a, c) == Ordering::Greater,
{
    lemma_cmp_reverse(a, b);
    lemma_cmp_reverse(b, c);
    lemma_cmp_reverse(a, c);
    lemma_pre_aligned_sym(a, b);
    lemma_pre_aligned_sym(b, c);
    lemma_pre_aligned_sym(a, c);
    lemma_cmp_transitive(c, b, a);
}


/// Token sequences that compare `Equal` to a common middle compare `Equal`
/// to each other.
proof fn lemma_tokens_cmp_trans_eq(x: Seq<Seq<char>>, y: Seq<Seq<char>>, z: Seq<Seq<char>>)
    requires
        modes_aligned(x, y),
        modes_aligned(y, z),
        modes_aligned(x, z),
        tokens_cmp(x, y) == Ordering::Equal,
        tokens_cmp(y, z) == Ordering::Equal,
    ensures
        tokens_cmp(x, z) == Ordering::Equal,
    decreases x.len(),
{
    if x.len() == 0 {
        assert(y.len() == 0);
        assert(z.len() == 0);
    } else {
        assert(y.len() > 0);
        assert(z.len() > 0);
        assert(token_cmp(x[0], y[0]) == Ordering::Equal);
        assert(token_cmp(y[0], z[0]) == Ordering::Equal);
        assert(mode_ok(x[0], y[0]));
        assert(mode_ok(y[0], z[0]));
        lemma_token_cmp_subst(x[0], y[0], z[0]);
        assert(modes_aligned(x.skip(1), y.skip(1))) by {
            assert forall|i: int|
                0 <= i < x.skip(1).len() && i < y.skip(1).len() implies mode_ok(
                #[trigger] x.skip(1)[i],
                #[trigger] y.skip(1)[i],
            ) by {
                assert(x.skip(1)[i] == x[i + 1]);
                assert(y.skip(1)[i] == y[i + 1]);
            }
        }
        assert(modes_aligned(y.skip(1), z.skip(1))) by {
            assert forall|i: int|
                0 <= i < y.skip(1).len() && i < z.skip(1).len() implies mode_ok(
                #[trigger] y.skip(1)[i],
                #[trigger] z.skip(1)[i],
            ) by {
                assert(y.skip(1)[i] == y[i + 1]);
                assert(z.skip(1)[i] == z[i + 1]);
            }
        }
        assert(modes_aligned(x.skip(1), z.skip(1))) by {
            assert forall|i: int|
                0 <= i < x.skip(1).len() && i < z.skip(1).len() implies mode_ok(
                #[trigger] x.skip(1)[i],
                #[trigger] z.skip(1)[i],
            ) by {
                assert(x.skip(1)[i] == x[i + 1]);
                assert(z.skip(1)[i] == z[i + 1]);
            }
        }
        lemma_tokens_cmp_trans_eq(x.skip(1), y.skip(1), z.skip(1));
    }
}

/// Equality under the order is transitive: with [`lemma_cmp_reverse`] it is
/// an equivalence, so the order is total on mode-aligned versions.
pub proof fn lemma_cmp_transitive_equal(a: SemverView, b: SemverView, c: SemverView)
    requires
        a.wf(),
        b.wf(),
        c.wf(),
        pre_aligned(a, b),
        pre_aligned(b, c),
        pre_aligned(a, c),
        spec_cmp(a, b) == Ordering::Equal,
        spec_cmp(b, c) == Ordering::Equal,
    ensures
        spec_cmp(a, c) == Ordering::Equal,
{
    assert(token_cmp(a.major, b.major) == Ordering::Equal);
    assert(token_cmp(b.major, c.major) == Ordering::Equal);
    lemma_token_cmp_subst(a.major, b.major, c.major);
    lemma_token_cmp_subst(a.minor, b.minor, c.minor);
    lemma_token_cmp_subst(a.patch, b.patch, c.patch);
    match (a.pre_release, b.pre_release, c.pre_release) {
        (Some(x), Some(y), Some(z)) => {
            lemma_tokens_cmp_trans_eq(x, y, z);
        }
        _ => {}
    }
}

} // verus!
