//! The semantic-version model: a parsed version, the grammar it is read by,
//! and the canonical rendering. A version string is
//! `major.minor.patch[-prerelease][+build]`, optionally prefixed by range
//! operators (`~ > = < ^`) that carry no meaning and are stripped. The parser
//! is exact: it succeeds precisely on the strings that some well-formed
//! version renders to, and returns that version.

use vstd::prelude::*;

use crate::text::{
    char_is_digit, char_is_ident, char_is_op, digit_run_end, dot_free, find_plus, is_chunk_char,
    is_chunk_seq, is_digit_char, is_digits, is_ident_char, is_op_char, join_dots,
    lemma_digit_run_end, lemma_digit_run_end_unique, lemma_find_dot_unique, lemma_find_plus,
    lemma_find_plus_unique, lemma_join_dots_push, lemma_join_of_wf, lemma_ops_len,
    lemma_ops_len_unique, lemma_split_dots, lemma_split_of_join, ops_len, split_dots, strip_ops,
    wf_tokens,
};

verus! {

/// Mathematical model of a parsed version: the three core parts as digit
/// strings, the pre-release identifier tokens, and the opaque build metadata.
#[verifier::ext_equal]
pub ghost struct SemverView {
    pub major: Seq<char>,
    pub minor: Seq<char>,
    pub patch: Seq<char>,
    pub pre_release: Option<Seq<Seq<char>>>,
    pub build_metadata: Option<Seq<char>>,
}

impl SemverView {
    /// Well-formedness: core parts are non-empty digit runs, pre-release
    /// tokens are identifier sequences (not a lone empty token), and build
    /// metadata, when present, is a non-empty run of identifier characters
    /// and dots.
    pub open spec fn wf(self) -> bool {
        &&& is_digits(self.major)
        &&& is_digits(self.minor)
        &&& is_digits(self.patch)
        &&& match self.pre_release {
            Some(t) => wf_tokens(t),
            None => true,
        }
        &&& match self.build_metadata {
            Some(b) => b.len() > 0 && is_chunk_seq(b),
            None => true,
        }
    }
}

/// The `major.minor.patch` core of the rendering.
pub open spec fn core_render(v: SemverView) -> Seq<char> {
    v.major + seq!['.'] + v.minor + seq!['.'] + v.patch
}

/// The `-prerelease` section of the rendering, empty when absent.
pub open spec fn pre_part(v: SemverView) -> Seq<char> {
    match v.pre_release {
        Some(t) => seq!['-'] + join_dots(t),
        None => Seq::empty(),
    }
}

/// The `+build` section of the rendering, empty when absent or suppressed.
pub open spec fn build_part(v: SemverView, include_build: bool) -> Seq<char> {
    if include_build {
        match v.build_metadata {
            Some(b) => seq!['+'] + b,
            None => Seq::empty(),
        }
    } else {
        Seq::empty()
    }
}

/// Canonical rendering of a version.
pub open spec fn spec_render(v: SemverView, include_build: bool) -> Seq<char> {
    core_render(v) + pre_part(v) + build_part(v, include_build)
}

/// `t` is the full rendering of the well-formed version `v`.
pub open spec fn renders_to(v: SemverView, t: Seq<char>) -> bool {
    v.wf() && spec_render(v, true) == t
}

/// The deterministic reading of a version string (with operators already
/// stripped): the unique version it renders from, if any.
pub open spec fn spec_parse(t: Seq<char>) -> Option<SemverView> {
    let a = digit_run_end(t, 0);
    if a <= 0 || a >= t.len() || t[a] != '.' {
        None
    } else {
        let b = digit_run_end(t, a + 1);
        if b <= a + 1 || b >= t.len() || t[b] != '.' {
            None
        } else {
            let c = digit_run_end(t, b + 1);
            if c <= b + 1 {
                None
            } else if c >= t.len() {
                Some(
                    SemverView {
                        major: t.take(a),
                        minor: t.subrange(a + 1, b),
                        patch: t.subrange(b + 1, c),
                        pre_release: None,
                        build_metadata: None,
                    },
                )
            } else if t[c] == '+' {
                let bm = t.skip(c + 1);
                if bm.len() > 0 && is_chunk_seq(bm) {
                    Some(
                        SemverView {
                            major: t.take(a),
                            minor: t.subrange(a + 1, b),
                            patch: t.subrange(b + 1, c),
                            pre_release: None,
                            build_metadata: Some(bm),
                        },
                    )
                } else {
                    None
                }
            } else if t[c] == '-' {
                let e = find_plus(t, c + 1);
                let chunk = t.subrange(c + 1, e);
                if chunk.len() == 0 || !is_chunk_seq(chunk) {
                    None
                } else if e >= t.len() {
                    Some(
                        SemverView {
                            major: t.take(a),
                            minor: t.subrange(a + 1, b),
                            patch: t.subrange(b + 1, c),
                            pre_release: Some(split_dots(chunk)),
                            build_metadata: None,
                        },
                    )
                } else {
                    let bm = t.skip(e + 1);
                    if bm.len() > 0 && is_chunk_seq(bm) {
                        Some(
                            SemverView {
                                major: t.take(a),
                                minor: t.subrange(a + 1, b),
                                patch: t.subrange(b + 1, c),
                                pre_release: Some(split_dots(chunk)),
                                build_metadata: Some(bm),
                            },
                        )
                    } else {
                        None
                    }
                }
            } else {
                None
            }
        }
    }
}

/// Soundness of the reading: what `spec_parse` accepts is well formed and
/// renders back to the input.
pub proof fn lemma_parse_sound(t: Seq<char>)
    requires
        spec_parse(t) is Some,
    ensures
        renders_to(spec_parse(t)->Some_0, t),
{
    lemma_digit_run_end(t, 0);
    let a = digit_run_end(t, 0);
    lemma_digit_run_end(t, a + 1);
    let b = digit_run_end(t, a + 1);
    lemma_digit_run_end(t, b + 1);
    let c = digit_run_end(t, b + 1);
    let v = spec_parse(t)->Some_0;
    assert(v.major == t.take(a));
    assert(v.minor == t.subrange(a + 1, b));
    assert(v.patch == t.subrange(b + 1, c));
    assert(is_digits(v.major));
    assert(is_digits(v.minor));
    assert(is_digits(v.patch));
    // well-formedness of the optional sections
    if c < t.len() && t[c] == '-' {
        let e = find_plus(t, c + 1);
        lemma_find_plus(t, c + 1);
        let chunk = t.subrange(c + 1, e);
        lemma_split_dots(chunk);
        assert(wf_tokens(split_dots(chunk)));
    }
    assert(v.wf());
    // the rendering restores the input
    let cr = core_render(v);
    assert(cr.len() == c);
    assert forall|i: int| 0 <= i < c implies cr[i] == t[i] by {
        if i < a {
            assert(cr[i] == v.major[i]);
        } else if i == a {
            assert(cr[i] == '.');
        } else if i < b {
            assert(cr[i] == v.minor[i - a - 1]);
        } else if i == b {
            assert(cr[i] == '.');
        } else {
            assert(cr[i] == v.patch[i - b - 1]);
        }
    }
    let pp = pre_part(v);
    let bp = build_part(v, true);
    if c >= t.len() {
        assert(spec_render(v, true) =~= t);
    } else if t[c] == '+' {
        assert(pp.len() == 0);
        assert(bp == seq!['+'] + t.skip(c + 1));
        assert(spec_render(v, true).len() == t.len());
        assert forall|i: int| 0 <= i < t.len() implies spec_render(v, true)[i] == t[i] by {
            if i < c {
                assert(spec_render(v, true)[i] == cr[i]);
            } else if i == c {
                assert(spec_render(v, true)[i] == '+');
            } else {
                assert(spec_render(v, true)[i] == t.skip(c + 1)[i - c - 1]);
            }
        }
        assert(spec_render(v, true) =~= t);
    } else {
        let e = find_plus(t, c + 1);
        lemma_find_plus(t, c + 1);
        let chunk = t.subrange(c + 1, e);
        lemma_split_dots(chunk);
        assert(join_dots(split_dots(chunk)) == chunk);
        assert(pp == seq!['-'] + chunk);
        assert(pp.len() == 1 + (e - c - 1));
        if e >= t.len() {
            assert(bp.len() == 0);
            assert(spec_render(v, true).len() == t.len());
            assert forall|i: int| 0 <= i < t.len() implies spec_render(v, true)[i] == t[i] by {
                if i < c {
                    assert(spec_render(v, true)[i] == cr[i]);
                } else if i == c {
                    assert(spec_render(v, true)[i] == '-');
                } else {
                    assert(spec_render(v, true)[i] == chunk[i - c - 1]);
                }
            }
            assert(spec_render(v, true) =~= t);
        } else {
            assert(t[e] == '+');
            assert(bp == seq!['+'] + t.skip(e + 1));
            assert(spec_render(v, true).len() == t.len());
            assert forall|i: int| 0 <= i < t.len() implies spec_render(v, true)[i] == t[i] by {
                if i < c {
                    assert(spec_render(v, true)[i] == cr[i]);
                } else if i == c {
                    assert(spec_render(v, true)[i] == '-');
                } else if i < e {
                    assert(spec_render(v, true)[i] == chunk[i - c - 1]);
                } else if i == e {
                    assert(spec_render(v, true)[i] == '+');
                } else {
                    assert(spec_render(v, true)[i] == t.skip(e + 1)[i - e - 1]);
                }
            }
            assert(spec_render(v, true) =~= t);
        }
    }
}

/// Completeness of the reading: a string that some well-formed version
/// renders to is accepted, and yields exactly that version. Together with
/// [`lemma_parse_sound`] this makes the grammar unambiguous.
pub proof fn lemma_parse_complete(v: SemverView, t: Seq<char>)
    requires
        renders_to(v, t),
    ensures
        spec_parse(t) == Some(v),
{
    let cr = core_render(v);
    let pp = pre_part(v);
    let bp = build_part(v, true);
    let ma = v.major.len() as int;
    let mb = ma + 1 + v.minor.len() as int;
    let mc = mb + 1 + v.patch.len() as int;
    assert(cr.len() == mc);
    assert(t.len() == mc + pp.len() + bp.len());
    // transfer the characters of the rendering back to positions of t
    assert forall|i: int| 0 <= i < mc implies t[i] == cr[i] by {
        assert(t[i] == (cr + pp + bp)[i]);
    }
    assert forall|i: int| 0 <= i < pp.len() implies t[mc + i] == pp[i] by {
        assert(t[mc + i] == (cr + pp + bp)[mc + i]);
    }
    assert forall|i: int| 0 <= i < bp.len() implies t[mc + pp.len() + i] == bp[i] by {
        assert(t[mc + pp.len() + i] == (cr + pp + bp)[mc + pp.len() + i]);
    }
    assert forall|i: int| 0 <= i < ma implies is_digit_char(#[trigger] t[i]) by {
        assert(cr[i] == v.major[i]);
    }
    assert(t[ma] == '.');
    assert(!is_digit_char('.'));
    lemma_digit_run_end_unique(t, 0, ma);
    assert forall|i: int| ma + 1 <= i < mb implies is_digit_char(#[trigger] t[i]) by {
        assert(cr[i] == v.minor[i - ma - 1]);
    }
    assert(t[mb] == '.');
    lemma_digit_run_end_unique(t, ma + 1, mb);
    assert forall|i: int| mb + 1 <= i < mc implies is_digit_char(#[trigger] t[i]) by {
        assert(cr[i] == v.patch[i - mb - 1]);
    }
    // the character after the patch, if any, is '-' or '+', not a digit
    if mc < t.len() {
        if pp.len() > 0 {
            assert(t[mc] == pp[0]);
            assert(pp[0] == '-');
        } else {
            assert(t[mc] == bp[0]);
            assert(bp[0] == '+');
        }
    }
    lemma_digit_run_end_unique(t, mb + 1, mc);
    assert(digit_run_end(t, 0) == ma);
    assert(digit_run_end(t, ma + 1) == mb);
    assert(digit_run_end(t, mb + 1) == mc);
    assert(t.take(ma) =~= v.major);
    assert(t.subrange(ma + 1, mb) =~= v.minor);
    assert(t.subrange(mb + 1, mc) =~= v.patch);
    match v.pre_release {
        None => {
            match v.build_metadata {
                None => {
                    assert(t.len() == mc);
                    assert(spec_parse(t) == Some(v));
                }
                Some(bm) => {
                    assert(t[mc] == '+');
                    assert(t.skip(mc + 1) =~= bm) by {
                        assert forall|i: int| 0 <= i < bm.len() implies t.skip(mc + 1)[i]
                            == bm[i] by {
                            assert(t[mc + 1 + i] == bp[1 + i]);
                        }
                    }
                    assert(spec_parse(t) == Some(v));
                }
            }
        }
        Some(toks) => {
            let jd = join_dots(toks);
            lemma_join_of_wf(toks);
            assert(t[mc] == '-');
            assert forall|i: int| 0 <= i < jd.len() implies t[mc + 1 + i] == jd[i] by {
                assert(t[mc + 1 + i] == pp[1 + i]);
            }
            let e = mc + 1 + jd.len() as int;
            // no '+' occurs within the joined pre-release tokens
            assert forall|i: int| mc + 1 <= i < e implies #[trigger] t[i] != '+' by {
                assert(t[i] == jd[i - mc - 1]);
                assert(is_chunk_char(jd[i - mc - 1]));
            }
            if e < t.len() {
                assert(t[e] == bp[0]);
                assert(bp[0] == '+');
            }
            lemma_find_plus_unique(t, mc + 1, e);
            let chunk = t.subrange(mc + 1, e);
            assert(chunk =~= jd);
            assert(chunk.len() > 0);
            assert(is_chunk_seq(chunk));
            assert forall|k: int| 0 <= k < toks.len() implies dot_free(#[trigger] toks[k]) by {
                assert forall|j: int| 0 <= j < toks[k].len() implies #[trigger] toks[k][j]
                    != '.' by {
                    assert(is_ident_char(toks[k][j]));
                }
            }
            lemma_split_of_join(toks);
            assert(split_dots(chunk) == toks);
            match v.build_metadata {
                None => {
                    assert(e == t.len());
                    assert(spec_parse(t) == Some(v));
                }
                Some(bm) => {
                    assert(t.skip(e + 1) =~= bm) by {
                        assert forall|i: int| 0 <= i < bm.len() implies t.skip(e + 1)[i]
                            == bm[i] by {
                            assert(t[e + 1 + i] == bp[1 + i]);
                        }
                    }
                    assert(spec_parse(t) == Some(v));
                }
            }
        }
    }
}


/// A parsed semantic version. The core parts are kept as the digit strings
/// they were written as; the pre-release section is kept as its identifier
/// tokens; build metadata is kept whole and never takes part in ordering.
#[derive(Debug)]
pub struct Semver {
    pub major: String,
    pub minor: String,
    pub patch: String,
    pub pre_release: Option<Vec<String>>,
    pub build_metadata: Option<String>,
}

impl View for Semver {
    type V = SemverView;

    open spec fn view(&self) -> SemverView {
        SemverView {
            major: self.major@,
            minor: self.minor@,
            patch: self.patch@,
            pre_release: match self.pre_release {
                Some(ts) => Some(ts.deep_view()),
                None => None,
            },
            build_metadata: match self.build_metadata {
                Some(b) => Some(b@),
                None => None,
            },
        }
    }
}

/// Index of the first character at or after `from` that is no range
/// operator.
fn scan_ops(s: &str, n: usize) -> (i: usize)
    requires
        n == s@.len(),
    ensures
        i <= n,
        i as int == ops_len(s@),
{
    let mut i: usize = 0;
    while i < n && char_is_op(s.get_char(i))
        invariant
            n == s@.len(),
            i <= n,
            forall|k: int| 0 <= k < i ==> is_op_char(#[trigger] s@[k]),
        decreases n - i,
    {
        i = i + 1;
    }
    proof {
        lemma_ops_len_unique(s@, i as int);
    }
    i
}

/// Index just past the run of decimal digits that starts at `from`.
fn scan_digits(s: &str, from: usize, n: usize) -> (j: usize)
    requires
        n == s@.len(),
        from <= n,
    ensures
        from <= j <= n,
        j as int == digit_run_end(s@, from as int),
{
    let mut j: usize = from;
    while j < n && char_is_digit(s.get_char(j))
        invariant
            n == s@.len(),
            from <= j <= n,
            forall|k: int| from <= k < j ==> is_digit_char(#[trigger] s@[k]),
        decreases n - j,
    {
        j = j + 1;
    }
    proof {
        lemma_digit_run_end_unique(s@, from as int, j as int);
    }
    j
}

/// Index of the first `'+'` at or after `from`, or the end.
fn scan_to_plus(s: &str, from: usize, n: usize) -> (j: usize)
    requires
        n == s@.len(),
        from <= n,
    ensures
        from <= j <= n,
        j as int == find_plus(s@, from as int),
{
    let mut j: usize = from;
    while j < n && s.get_char(j) != '+'
        invariant
            n == s@.len(),
            from <= j <= n,
            forall|k: int| from <= k < j ==> #[trigger] s@[k] != '+',
        decreases n - j,
    {
        j = j + 1;
    }
    proof {
        lemma_find_plus_unique(s@, from as int, j as int);
    }
    j
}

/// Whether every character in `s[from..to]` may appear in a pre-release or
/// build section.
fn check_chunk(s: &str, from: usize, to: usize) -> (b: bool)
    requires
        from <= to <= s@.len(),
    ensures
        b == is_chunk_seq(s@.subrange(from as int, to as int)),
{
    let ghost sub = s@.subrange(from as int, to as int);
    let mut k: usize = from;
    while k < to
        invariant
            from <= k <= to <= s@.len(),
            sub == s@.subrange(from as int, to as int),
            forall|i: int| from <= i < k ==> is_chunk_char(#[trigger] s@[i]),
        decreases to - k,
    {
        let c = s.get_char(k);
        if !(char_is_ident(c) || c == '.') {
            proof {
                assert(sub[k - from] == s@[k as int]);
                assert(!is_chunk_seq(sub));
            }
            return false;
        }
        k = k + 1;
    }
    proof {
        assert forall|i: int| 0 <= i < sub.len() implies is_chunk_char(#[trigger] sub[i]) by {
            assert(sub[i] == s@[from + i]);
        }
    }
    true
}

/// The identifier tokens of `c`, split at its dots.
fn split_on_dots(c: &str, n: usize) -> (toks: Vec<String>)
    requires
        n == c@.len(),
    ensures
        toks.deep_view() == split_dots(c@),
{
    let mut toks: Vec<String> = Vec::new();
    let mut pos: usize = 0;
    proof {
        assert(c@.skip(0) =~= c@);
        assert(toks.deep_view() =~= Seq::<Seq<char>>::empty());
        assert(toks.deep_view() + split_dots(c@) =~= split_dots(c@));
    }
    loop
        invariant_except_break
            n == c@.len(),
            pos <= n,
            split_dots(c@) == toks.deep_view() + split_dots(c@.skip(pos as int)),
        ensures
            toks.deep_view() == split_dots(c@),
        decreases n - pos,
    {
        let mut d: usize = pos;
        while d < n && c.get_char(d) != '.'
            invariant
                n == c@.len(),
                pos <= d <= n,
                forall|k: int| pos <= k < d ==> #[trigger] c@[k] != '.',
            decreases n - d,
        {
            d = d + 1;
        }
        let tok = c.substring_char(pos, d).to_owned();
        let ghost old_dv = toks.deep_view();
        toks.push(tok);
        proof {
            let rest = c@.skip(pos as int);
            assert forall|k: int| 0 <= k < d - pos implies #[trigger] rest[k] != '.' by {
                assert(rest[k] == c@[pos + k]);
            }
            if d < n {
                assert(rest[d - pos] == c@[d as int]);
            }
            lemma_find_dot_unique(rest, d - pos as int);
            assert(toks.deep_view() =~= old_dv.push(tok@));
            assert(tok@ =~= rest.take(d - pos as int));
            if d == n {
                assert(split_dots(rest) =~= seq![rest]);
                assert(rest.take(d - pos as int) =~= rest);
                assert(toks.deep_view() =~= old_dv + seq![rest]);
                assert(toks.deep_view() == split_dots(c@));
            } else {
                assert(split_dots(rest) == seq![rest.take(d - pos as int)] + split_dots(
                    rest.skip(d - pos as int + 1),
                ));
                assert(rest.skip(d - pos as int + 1) =~= c@.skip(d as int + 1));
                assert(old_dv + split_dots(rest) =~= toks.deep_view() + split_dots(
                    c@.skip(d as int + 1),
                ));
            }
        }
        if d == n {
            break;
        }
        pos = d + 1;
    }
    toks
}

impl Semver {
    /// The exact reading of a stripped version string: returns precisely what
    /// `spec_parse` yields.
    fn parse_exact(t: &str, m: usize) -> (r: Option<Semver>)
        requires
            m == t@.len(),
        ensures
            match r {
                Some(sv) => spec_parse(t@) == Some(sv@),
                None => spec_parse(t@) is None,
            },
    {
        let a = scan_digits(t, 0, m);
        if a == 0 || a >= m {
            return None;
        }
        if t.get_char(a) != '.' {
            return None;
        }
        let b = scan_digits(t, a + 1, m);
        if b >= m {
            return None;
        }
        if b == a + 1 {
            return None;
        }
        if t.get_char(b) != '.' {
            return None;
        }
        let c = scan_digits(t, b + 1, m);
        if c == b + 1 {
            return None;
        }
        let major = t.substring_char(0, a).to_owned();
        let minor = t.substring_char(a + 1, b).to_owned();
        let patch = t.substring_char(b + 1, c).to_owned();
        proof {
            assert(major@ =~= t@.take(a as int));
            assert(minor@ =~= t@.subrange(a as int + 1, b as int));
            assert(patch@ =~= t@.subrange(b as int + 1, c as int));
        }
        if c == m {
            let sv = Semver {
                major,
                minor,
                patch,
                pre_release: None,
                build_metadata: None,
            };
            proof {
                assert(sv@ =~= spec_parse(t@)->Some_0);
            }
            return Some(sv);
        }
        let ch = t.get_char(c);
        if ch == '+' {
            if c + 1 == m {
                proof {
                    assert(t@.skip(c as int + 1).len() == 0);
                }
                return None;
            }
            if !check_chunk(t, c + 1, m) {
                proof {
                    assert(t@.subrange(c as int + 1, m as int) =~= t@.skip(c as int + 1));
                }
                return None;
            }
            let bm = t.substring_char(c + 1, m).to_owned();
            let sv = Semver {
                major,
                minor,
                patch,
                pre_release: None,
                build_metadata: Some(bm),
            };
            proof {
                assert(bm@ =~= t@.skip(c as int + 1));
                assert(sv@ =~= spec_parse(t@)->Some_0);
            }
            return Some(sv);
        }
        if ch != '-' {
            return None;
        }
        let e = scan_to_plus(t, c + 1, m);
        let ghost chunk_g = t@.subrange(c as int + 1, e as int);
        if e == c + 1 {
            return None;
        }
        if !check_chunk(t, c + 1, e) {
            return None;
        }
        let chunk = t.substring_char(c + 1, e);
        let toks = split_on_dots(chunk, e - (c + 1));
        proof {
            assert(toks.deep_view() == split_dots(chunk_g));
        }
        if e == m {
            let sv = Semver {
                major,
                minor,
                patch,
                pre_release: Some(toks),
                build_metadata: None,
            };
            proof {
                assert(sv@ =~= spec_parse(t@)->Some_0);
            }
            return Some(sv);
        }
        if e + 1 == m {
            proof {
                assert(t@.skip(e as int + 1).len() == 0);
            }
            return None;
        }
        if !check_chunk(t, e + 1, m) {
            proof {
                assert(t@.subrange(e as int + 1, m as int) =~= t@.skip(e as int + 1));
            }
            return None;
        }
        let bm = t.substring_char(e + 1, m).to_owned();
        let sv = Semver {
            major,
            minor,
            patch,
            pre_release: Some(toks),
            build_metadata: Some(bm),
        };
        proof {
            assert(bm@ =~= t@.skip(e as int + 1));
            assert(sv@ =~= spec_parse(t@)->Some_0);
        }
        Some(sv)
    }

    /// Reads a version string. Leading range operators are stripped and
    /// ignored. Returns `Some` exactly when the rest of the string is the
    /// rendering of a well-formed version, and then returns that version;
    /// anything else yields `None`, never an error.
    pub fn from(version: String) -> (r: Option<Semver>)
        ensures
            match r {
                Some(sv) => renders_to(sv@, strip_ops(version@)),
                None => forall|v: SemverView| !renders_to(v, strip_ops(version@)),
            },
    {
        let s = version.as_str();
        let n = s.unicode_len();
        let i0 = scan_ops(s, n);
        proof {
            lemma_ops_len(s@);
        }
        let stripped = s.substring_char(i0, n);
        proof {
            assert(stripped@ =~= strip_ops(version@));
        }
        let r = Self::parse_exact(stripped, n - i0);
        proof {
            if r is Some {
                lemma_parse_sound(stripped@);
            } else {
                assert forall|v: SemverView| !renders_to(v, strip_ops(version@)) by {
                    if renders_to(v, stripped@) {
                        lemma_parse_complete(v, stripped@);
                    }
                }
            }
        }
        r
    }
}


/// A deep copy of a vector of strings, preserving its view.
fn clone_string_vec(v: &Vec<String>) -> (r: Vec<String>)
    ensures
        r@ == v@,
{
    let mut r: Vec<String> = Vec::new();
    let mut i: usize = 0;
    while i < v.len()
        invariant
            i <= v.len(),
            r@ == v@.take(i as int),
        decreases v.len() - i,
    {
        r.push(v[i].clone());
        proof {
            assert(r@ =~= v@.take(i as int + 1));
        }
        i = i + 1;
    }
    proof {
        assert(v@.take(v@.len() as int) =~= v@);
    }
    r
}

impl Clone for Semver {
    /// A deep copy with the same view.
    fn clone(&self) -> (res: Self)
        ensures
            res@ == self@,
    {
        let res = Semver {
            major: self.major.clone(),
            minor: self.minor.clone(),
            patch: self.patch.clone(),
            pre_release: match &self.pre_release {
                Some(ts) => Some(clone_string_vec(ts)),
                None => None,
            },
            build_metadata: match &self.build_metadata {
                Some(b) => Some(b.clone()),
                None => None,
            },
        };
        proof {
            assert(res@ =~= self@);
        }
        res
    }
}

impl Semver {
    /// Renders the version canonically: `major.minor.patch`, `-prerelease`
    /// when present, and `+build` only when present and asked for.
    pub fn to_string(&self, include_build: bool) -> (r: String)
        ensures
            r@ == spec_render(self@, include_build),
    {
        proof {
            reveal_strlit(".");
            reveal_strlit("-");
            reveal_strlit("+");
        }
        let mut out = self.major.clone();
        out.append(".");
        out.append(self.minor.as_str());
        out.append(".");
        out.append(self.patch.as_str());
        proof {
            assert((".")@ =~= seq!['.']);
            assert(out@ =~= core_render(self@));
        }
        match &self.pre_release {
            None => {
                proof {
                    assert(out@ =~= core_render(self@) + pre_part(self@));
                }
            }
            Some(toks) => {
                out.append("-");
                let k = toks.len();
                let mut i: usize = 0;
                proof {
                    assert(toks.deep_view().take(0) =~= Seq::<Seq<char>>::empty());
                    assert(out@ =~= core_render(self@) + seq!['-'] + join_dots(
                        toks.deep_view().take(0),
                    ));
                }
                while i < k
                    invariant
                        k == toks.len(),
                        i <= k,
                        self.pre_release matches Some(ts) && ts == toks,
                        out@ == core_render(self@) + seq!['-'] + join_dots(
                            toks.deep_view().take(i as int),
                        ),
                    decreases k - i,
                {
                    if i > 0 {
                        out.append(".");
                    }
                    out.append(toks[i].as_str());
                    proof {
                        reveal_strlit(".");
                        let dv = toks.deep_view();
                        assert(dv.take(i as int + 1) =~= dv.take(i as int).push(dv[i as int]));
                        lemma_join_dots_push(dv.take(i as int), dv[i as int]);
                        assert(dv[i as int] == toks@[i as int]@);
                        if i == 0 {
                            assert(out@ =~= core_render(self@) + seq!['-'] + join_dots(
                                dv.take(1),
                            ));
                        } else {
                            assert(out@ =~= core_render(self@) + seq!['-'] + join_dots(
                                dv.take(i as int + 1),
                            ));
                        }
                    }
                    i = i + 1;
                }
                proof {
                    assert(toks.deep_view().take(k as int) =~= toks.deep_view());
                    assert(out@ =~= core_render(self@) + pre_part(self@));
                }
            }
        }
        if include_build {
            match &self.build_metadata {
                Some(bm) => {
                    out.append("+");
                    out.append(bm.as_str());
                }
                None => {}
            }
        }
        proof {
            assert(out@ =~= spec_render(self@, include_build));
        }
        out
    }
}

} // verus!
