//! Character classes of the version grammar and the sequence-level helpers
//! (digit runs, delimiter searches, dot-joining and dot-splitting of
//! identifier tokens) that the parser, renderer and comparator are specified
//! with.

use core::cmp::Ordering;
use vstd::prelude::*;

verus! {

/// True when `c` is a decimal digit.
pub open spec fn is_digit_char(c: char) -> bool {
    ('0' as u32) <= (c as u32) && (c as u32) <= ('9' as u32)
}

/// True when `c` is an ASCII letter.
pub open spec fn is_alpha_char(c: char) -> bool {
    (('a' as u32) <= (c as u32) && (c as u32) <= ('z' as u32))
        || (('A' as u32) <= (c as u32) && (c as u32) <= ('Z' as u32))
}

/// Characters allowed inside a single pre-release or build identifier:
/// letters, digits and hyphens.
pub open spec fn is_ident_char(c: char) -> bool {
    c == '-' || is_digit_char(c) || is_alpha_char(c)
}

/// Characters allowed in a raw pre-release or build section: identifier
/// characters plus the dot separator.
pub open spec fn is_chunk_char(c: char) -> bool {
    c == '.' || is_ident_char(c)
}

/// Range operators that may prefix a version string and are ignored.
pub open spec fn is_op_char(c: char) -> bool {
    c == '~' || c == '>' || c == '=' || c == '<' || c == '^'
}

/// Every character of `s` is a decimal digit.
pub open spec fn all_digits(s: Seq<char>) -> bool {
    forall|i: int| 0 <= i < s.len() ==> is_digit_char(#[trigger] s[i])
}

/// `s` is a non-empty run of decimal digits.
pub open spec fn is_digits(s: Seq<char>) -> bool {
    s.len() > 0 && all_digits(s)
}

/// Every character of `s` is an identifier character (no dots).
pub open spec fn is_ident_seq(s: Seq<char>) -> bool {
    forall|i: int| 0 <= i < s.len() ==> is_ident_char(#[trigger] s[i])
}

/// Every character of `s` is allowed in a pre-release or build section.
pub open spec fn is_chunk_seq(s: Seq<char>) -> bool {
    forall|i: int| 0 <= i < s.len() ==> is_chunk_char(#[trigger] s[i])
}

/// Executable check for [`is_digit_char`].
pub fn char_is_digit(c: char) -> (b: bool)
    ensures
        b == is_digit_char(c),
{
    let u = c as u32;
    48 <= u && u <= 57
}

/// Executable check for [`is_ident_char`].
pub fn char_is_ident(c: char) -> (b: bool)
    ensures
        b == is_ident_char(c),
{
    let u = c as u32;
    u == 45 || (48 <= u && u <= 57) || (97 <= u && u <= 122) || (65 <= u && u <= 90)
}

/// Executable check for [`is_op_char`].
pub fn char_is_op(c: char) -> (b: bool)
    ensures
        b == is_op_char(c),
{
    let u = c as u32;
    u == 126 || u == 62 || u == 61 || u == 60 || u == 94
}

/// Index just past the run of decimal digits that starts at `i`.
pub open spec fn digit_run_end(t: Seq<char>, i: int) -> int
    decreases t.len() - i,
{
    if i < 0 {
        i
    } else if i < t.len() && is_digit_char(t[i]) {
        digit_run_end(t, i + 1)
    } else {
        i
    }
}

/// What `digit_run_end` returns: the first position at or after `i` that does
/// not carry a digit, with only digits before it.
pub proof fn lemma_digit_run_end(t: Seq<char>, i: int)
    requires
        0 <= i <= t.len(),
    ensures
        i <= digit_run_end(t, i) <= t.len(),
        forall|j: int| i <= j < digit_run_end(t, i) ==> is_digit_char(#[trigger] t[j]),
        digit_run_end(t, i) == t.len() || !is_digit_char(t[digit_run_end(t, i)]),
    decreases t.len() - i,
{
    if i < t.len() && is_digit_char(t[i]) {
        lemma_digit_run_end(t, i + 1);
    }
}

/// `digit_run_end` is the unique position with that characterization.
pub proof fn lemma_digit_run_end_unique(t: Seq<char>, i: int, j: int)
    requires
        0 <= i <= j <= t.len(),
        forall|k: int| i <= k < j ==> is_digit_char(#[trigger] t[k]),
        j == t.len() || !is_digit_char(t[j]),
    ensures
        digit_run_end(t, i) == j,
    decreases t.len() - i,
{
    if i < t.len() && is_digit_char(t[i]) {
        lemma_digit_run_end_unique(t, i + 1, j);
    }
}

/// Position of the first `'+'` at or after `i`, or the length of `t`.
pub open spec fn find_plus(t: Seq<char>, i: int) -> int
    decreases t.len() - i,
{
    if i < 0 {
        i
    } else if i < t.len() && t[i] != '+' {
        find_plus(t, i + 1)
    } else {
        i
    }
}

/// What `find_plus` returns: the first `'+'` at or after `i`, or the end.
pub proof fn lemma_find_plus(t: Seq<char>, i: int)
    requires
        0 <= i <= t.len(),
    ensures
        i <= find_plus(t, i) <= t.len(),
        forall|j: int| i <= j < find_plus(t, i) ==> #[trigger] t[j] != '+',
        find_plus(t, i) == t.len() || t[find_plus(t, i)] == '+',
    decreases t.len() - i,
{
    if i < t.len() && t[i] != '+' {
        lemma_find_plus(t, i + 1);
    }
}

/// `find_plus` is the unique position with that characterization.
pub proof fn lemma_find_plus_unique(t: Seq<char>, i: int, j: int)
    requires
        0 <= i <= j <= t.len(),
        forall|k: int| i <= k < j ==> #[trigger] t[k] != '+',
        j == t.len() || t[j] == '+',
    ensures
        find_plus(t, i) == j,
    decreases t.len() - i,
{
    if i < t.len() && t[i] != '+' {
        lemma_find_plus_unique(t, i + 1, j);
    }
}

/// Length of the maximal prefix of range-operator characters.
pub open spec fn ops_len(s: Seq<char>) -> int
    decreases s.len(),
{
    if s.len() > 0 && is_op_char(s[0]) {
        1 + ops_len(s.skip(1))
    } else {
        0
    }
}

/// What `ops_len` returns: the first position that is not a range operator.
pub proof fn lemma_ops_len(s: Seq<char>)
    ensures
        0 <= ops_len(s) <= s.len(),
        forall|j: int| 0 <= j < ops_len(s) ==> is_op_char(#[trigger] s[j]),
        ops_len(s) == s.len() || !is_op_char(s[ops_len(s)]),
    decreases s.len(),
{
    if s.len() > 0 && is_op_char(s[0]) {
        lemma_ops_len(s.skip(1));
        assert forall|j: int| 0 <= j < ops_len(s) implies is_op_char(#[trigger] s[j]) by {
            if j > 0 {
                assert(s.skip(1)[j - 1] == s[j]);
            }
        }
        if ops_len(s) < s.len() {
            assert(s.skip(1)[ops_len(s) - 1] == s[ops_len(s)]);
        }
    }
}

/// `ops_len` is the unique position with that characterization.
pub proof fn lemma_ops_len_unique(s: Seq<char>, j: int)
    requires
        0 <= j <= s.len(),
        forall|k: int| 0 <= k < j ==> is_op_char(#[trigger] s[k]),
        j == s.len() || !is_op_char(s[j]),
    ensures
        ops_len(s) == j,
    decreases s.len(),
{
    if s.len() > 0 && is_op_char(s[0]) {
        assert forall|k: int| 0 <= k < j - 1 implies is_op_char(#[trigger] s.skip(1)[k]) by {
            assert(s.skip(1)[k] == s[k + 1]);
        }
        if j - 1 < s.skip(1).len() {
            assert(s.skip(1)[j - 1] == s[j]);
        }
        lemma_ops_len_unique(s.skip(1), j - 1);
    }
}

/// The input with its leading range operators removed.
pub open spec fn strip_ops(s: Seq<char>) -> Seq<char> {
    s.skip(ops_len(s))
}

/// The opposite verdict of an ordering.
pub open spec fn ord_reverse(o: Ordering) -> Ordering {
    match o {
        Ordering::Less => Ordering::Greater,
        Ordering::Equal => Ordering::Equal,
        Ordering::Greater => Ordering::Less,
    }
}

/// Ordinal (code-point by code-point) comparison of two character sequences.
pub open spec fn lex_cmp_chars(a: Seq<char>, b: Seq<char>) -> Ordering
    decreases a.len(),
{
    if a.len() == 0 && b.len() == 0 {
        Ordering::Equal
    } else if a.len() == 0 {
        Ordering::Less
    } else if b.len() == 0 {
        Ordering::Greater
    } else if (a[0] as u32) < (b[0] as u32) {
        Ordering::Less
    } else if (a[0] as u32) > (b[0] as u32) {
        Ordering::Greater
    } else {
        lex_cmp_chars(a.skip(1), b.skip(1))
    }
}

/// Two characters with the same code point are the same character.
pub proof fn lemma_char_cast_inj(a: char, b: char)
    requires
        (a as u32) == (b as u32),
    ensures
        a == b,
{
    assert(((a as u32) as char) == a);
    assert(((b as u32) as char) == b);
}

/// Two sequences compare `Equal` ordinally exactly when they are the same.
pub proof fn lemma_lex_cmp_eq(a: Seq<char>, b: Seq<char>)
    ensures
        lex_cmp_chars(a, b) == Ordering::Equal <==> a == b,
    decreases a.len(),
{
    if a.len() > 0 && b.len() > 0 && (a[0] as u32) == (b[0] as u32) {
        lemma_char_cast_inj(a[0], b[0]);
        lemma_lex_cmp_eq(a.skip(1), b.skip(1));
        if a.skip(1) == b.skip(1) {
            assert forall|i: int| 0 <= i < a.len() implies a[i] == b[i] by {
                if i > 0 {
                    assert(a.skip(1)[i - 1] == a[i]);
                    assert(b.skip(1)[i - 1] == b[i]);
                }
            }
            assert(a =~= b);
        }
        if a == b {
            assert(a.skip(1) =~= b.skip(1));
        }
    } else if a.len() == 0 && b.len() == 0 {
        assert(a =~= b);
    } else if a.len() == b.len() && a.len() > 0 {
        assert(a[0] != b[0]);
        assert(a != b);
    } else {
        assert(a.len() != b.len());
        assert(a != b);
    }
}

/// Swapping the arguments of the ordinal comparison reverses its verdict.
pub proof fn lemma_lex_cmp_reverse(a: Seq<char>, b: Seq<char>)
    ensures
        lex_cmp_chars(b, a) == ord_reverse(lex_cmp_chars(a, b)),
    decreases a.len(),
{
    if a.len() > 0 && b.len() > 0 && (a[0] as u32) == (b[0] as u32) {
        lemma_lex_cmp_reverse(a.skip(1), b.skip(1));
    }
}

/// The ordinal comparison is transitive.
pub proof fn lemma_lex_cmp_trans(a: Seq<char>, b: Seq<char>, c: Seq<char>)
    requires
        lex_cmp_chars(a, b) == Ordering::Less,
        lex_cmp_chars(b, c) == Ordering::Less,
    ensures
        lex_cmp_chars(a, c) == Ordering::Less,
    decreases a.len(),
{
    if a.len() > 0 && b.len() > 0 && c.len() > 0 {
        if (a[0] as u32) == (b[0] as u32) && (b[0] as u32) == (c[0] as u32) {
            lemma_lex_cmp_trans(a.skip(1), b.skip(1), c.skip(1));
        }
    }
}

/// Powers of ten.
pub open spec fn pow10(n: nat) -> int
    decreases n,
{
    if n == 0 {
        1
    } else {
        10 * pow10((n - 1) as nat)
    }
}

/// Powers of ten are positive.
pub proof fn lemma_pow10_pos(n: nat)
    ensures
        pow10(n) >= 1,
    decreases n,
{
    if n > 0 {
        lemma_pow10_pos((n - 1) as nat);
    }
}

/// Powers of ten grow with the exponent.
pub proof fn lemma_pow10_mono(m: nat, n: nat)
    requires
        m <= n,
    ensures
        pow10(m) <= pow10(n),
    decreases n,
{
    if m < n {
        lemma_pow10_mono(m, (n - 1) as nat);
        lemma_pow10_pos((n - 1) as nat);
    }
}

/// Numeric value of a digit string, most significant digit first.
pub open spec fn num_val(s: Seq<char>) -> int
    decreases s.len(),
{
    if s.len() == 0 {
        0
    } else {
        num_val(s.drop_last()) * 10 + ((s.last() as u32) as int - 48)
    }
}

/// A digit string's value is non-negative.
pub proof fn lemma_num_val_nonneg(s: Seq<char>)
    requires
        all_digits(s),
    ensures
        num_val(s) >= 0,
    decreases s.len(),
{
    if s.len() > 0 {
        assert(all_digits(s.drop_last()));
        lemma_num_val_nonneg(s.drop_last());
    }
}

/// The value of a digit string, decomposed at its first character.
pub proof fn lemma_num_val_head(s: Seq<char>)
    requires
        s.len() > 0,
    ensures
        num_val(s) == ((s[0] as u32) as int - 48) * pow10((s.len() - 1) as nat) + num_val(
            s.skip(1),
        ),
    decreases s.len(),
{
    if s.len() == 1 {
        assert(s.drop_last().len() == 0);
        assert(s.skip(1).len() == 0);
        assert(num_val(s.drop_last()) == 0);
        assert(num_val(s.skip(1)) == 0);
        assert(pow10(0) == 1);
        assert(s.last() == s[0]);
    } else {
        let dl = s.drop_last();
        lemma_num_val_head(dl);
        assert(s.skip(1).drop_last() =~= dl.skip(1));
        assert(s.skip(1).last() == s.last());
        let d0 = (s[0] as u32) as int - 48;
        let k = (s.len() - 2) as nat;
        assert(dl[0] == s[0]);
        assert(num_val(dl) == d0 * pow10(k) + num_val(dl.skip(1)));
        assert(num_val(s) == (d0 * pow10(k) + num_val(dl.skip(1))) * 10 + ((s.last() as u32) as int
            - 48));
        assert((d0 * pow10(k)) * 10 == d0 * (10 * pow10(k))) by (nonlinear_arith);
        assert(num_val(s.skip(1)) == num_val(dl.skip(1)) * 10 + ((s.last() as u32) as int - 48));
        assert(num_val(s) == d0 * (10 * pow10(k)) + num_val(s.skip(1)));
        assert(pow10((s.len() - 1) as nat) == 10 * pow10(k));
    }
}

/// A digit string's value is below ten to its length.
pub proof fn lemma_num_val_upper(s: Seq<char>)
    requires
        all_digits(s),
    ensures
        num_val(s) < pow10(s.len() as nat),
    decreases s.len(),
{
    if s.len() > 0 {
        assert(all_digits(s.drop_last()));
        lemma_num_val_upper(s.drop_last());
        lemma_num_val_nonneg(s.drop_last());
        assert(is_digit_char(s.last()));
    }
}

/// A digit string that does not start with zero reaches ten to its length
/// less one.
pub proof fn lemma_num_val_lower(s: Seq<char>)
    requires
        all_digits(s),
        s.len() > 0,
        s[0] != '0',
    ensures
        num_val(s) >= pow10((s.len() - 1) as nat),
    decreases s.len(),
{
    lemma_num_val_head(s);
    let d0 = (s[0] as u32) as int - 48;
    let p = pow10((s.len() - 1) as nat);
    assert(is_digit_char(s[0]));
    assert(('0' as u32) == 48);
    if (s[0] as u32) == ('0' as u32) {
        lemma_char_cast_inj(s[0], '0');
    }
    assert(d0 >= 1);
    lemma_pow10_pos((s.len() - 1) as nat);
    assert(d0 * p >= p) by (nonlinear_arith)
        requires
            d0 >= 1,
            p >= 1,
    ;
    assert(all_digits(s.skip(1)));
    lemma_num_val_nonneg(s.skip(1));
}

/// Dropping a leading zero does not change a digit string's value.
pub proof fn lemma_num_val_drop_zero(s: Seq<char>)
    requires
        s.len() > 0,
        s[0] == '0',
    ensures
        num_val(s.skip(1)) == num_val(s),
{
    lemma_num_val_head(s);
    assert(('0' as u32) == 48);
    let d0 = (s[0] as u32) as int - 48;
    let p = pow10((s.len() - 1) as nat);
    assert(d0 == 0);
    assert(d0 * p == 0) by (nonlinear_arith)
        requires
            d0 == 0,
    ;
}

/// For digit strings of equal length, the ordinal comparison agrees with the
/// numeric one.
pub proof fn lemma_num_cmp_same_len(a: Seq<char>, b: Seq<char>)
    requires
        all_digits(a),
        all_digits(b),
        a.len() == b.len(),
    ensures
        lex_cmp_chars(a, b) == Ordering::Less <==> num_val(a) < num_val(b),
        lex_cmp_chars(a, b) == Ordering::Greater <==> num_val(a) > num_val(b),
        lex_cmp_chars(a, b) == Ordering::Equal <==> num_val(a) == num_val(b),
    decreases a.len(),
{
    if a.len() == 0 {
    } else {
        lemma_num_val_head(a);
        lemma_num_val_head(b);
        let p = pow10((a.len() - 1) as nat);
        let da = (a[0] as u32) as int - 48;
        let db = (b[0] as u32) as int - 48;
        assert(all_digits(a.skip(1)));
        assert(all_digits(b.skip(1)));
        lemma_num_val_nonneg(a.skip(1));
        lemma_num_val_nonneg(b.skip(1));
        lemma_num_val_upper(a.skip(1));
        lemma_num_val_upper(b.skip(1));
        lemma_pow10_pos((a.len() - 1) as nat);
        if da < db {
            assert(da * p + p <= db * p) by (nonlinear_arith)
                requires
                    da + 1 <= db,
                    p >= 1,
            ;
            assert(num_val(a) < num_val(b));
        } else if da > db {
            assert(db * p + p <= da * p) by (nonlinear_arith)
                requires
                    db + 1 <= da,
                    p >= 1,
            ;
            assert(num_val(a) > num_val(b));
        } else {
            lemma_num_cmp_same_len(a.skip(1), b.skip(1));
        }
    }
}


/// `t` contains no dot.
pub open spec fn dot_free(t: Seq<char>) -> bool {
    forall|j: int| 0 <= j < t.len() ==> #[trigger] t[j] != '.'
}

/// Position of the first `'.'` in `c`, or the length of `c`.
pub open spec fn find_dot(c: Seq<char>) -> int
    decreases c.len(),
{
    if c.len() == 0 {
        0
    } else if c[0] == '.' {
        0
    } else {
        1 + find_dot(c.skip(1))
    }
}

/// What `find_dot` returns: the first dot, or the end.
pub proof fn lemma_find_dot(c: Seq<char>)
    ensures
        0 <= find_dot(c) <= c.len(),
        forall|j: int| 0 <= j < find_dot(c) ==> #[trigger] c[j] != '.',
        find_dot(c) == c.len() || c[find_dot(c)] == '.',
    decreases c.len(),
{
    if c.len() > 0 && c[0] != '.' {
        lemma_find_dot(c.skip(1));
        assert forall|j: int| 0 <= j < find_dot(c) implies #[trigger] c[j] != '.' by {
            if j > 0 {
                assert(c.skip(1)[j - 1] == c[j]);
            }
        }
        if find_dot(c) < c.len() {
            assert(c.skip(1)[find_dot(c) - 1] == c[find_dot(c)]);
        }
    }
}

/// `find_dot` is the unique position with that characterization.
pub proof fn lemma_find_dot_unique(c: Seq<char>, j: int)
    requires
        0 <= j <= c.len(),
        forall|k: int| 0 <= k < j ==> #[trigger] c[k] != '.',
        j == c.len() || c[j] == '.',
    ensures
        find_dot(c) == j,
    decreases c.len(),
{
    if c.len() > 0 && c[0] != '.' {
        assert forall|k: int| 0 <= k < j - 1 implies #[trigger] c.skip(1)[k] != '.' by {
            assert(c.skip(1)[k] == c[k + 1]);
        }
        if j - 1 < c.skip(1).len() && j >= 1 {
            assert(c.skip(1)[j - 1] == c[j]);
        }
        lemma_find_dot_unique(c.skip(1), j - 1);
    }
}

/// The identifier tokens of a raw section, split at its dots.
pub open spec fn split_dots(c: Seq<char>) -> Seq<Seq<char>>
    decreases c.len(),
{
    let fd = find_dot(c);
    if fd < 0 || fd >= c.len() {
        seq![c]
    } else {
        seq![c.take(fd)] + split_dots(c.skip(fd + 1))
    }
}

/// The raw section that a token sequence renders to: the tokens with a dot
/// between each two neighbours.
pub open spec fn join_dots(toks: Seq<Seq<char>>) -> Seq<char>
    decreases toks.len(),
{
    if toks.len() == 0 {
        Seq::empty()
    } else if toks.len() == 1 {
        toks[0]
    } else {
        toks[0] + seq!['.'] + join_dots(toks.skip(1))
    }
}

/// Splitting a raw section yields at least one dot-free token, joining the
/// tokens restores the section, tokens of a chunk-charactered section are
/// identifier sequences, and a non-empty section never splits into one empty
/// token.
pub proof fn lemma_split_dots(c: Seq<char>)
    ensures
        split_dots(c).len() >= 1,
        join_dots(split_dots(c)) == c,
        forall|k: int| 0 <= k < split_dots(c).len() ==> dot_free(#[trigger] split_dots(c)[k]),
        is_chunk_seq(c) ==> forall|k: int|
            0 <= k < split_dots(c).len() ==> is_ident_seq(#[trigger] split_dots(c)[k]),
        c.len() > 0 ==> !(split_dots(c).len() == 1 && split_dots(c)[0].len() == 0),
    decreases c.len(),
{
    lemma_find_dot(c);
    let fd = find_dot(c);
    if fd >= c.len() {
        assert(split_dots(c) =~= seq![c]);
        assert(join_dots(split_dots(c)) == c);
        assert(dot_free(c));
        if is_chunk_seq(c) {
            assert forall|j: int| 0 <= j < c.len() implies is_ident_char(#[trigger] c[j]) by {
                assert(is_chunk_char(c[j]));
                assert(c[j] != '.');
            }
        }
    } else {
        let head = c.take(fd);
        let rest = c.skip(fd + 1);
        lemma_split_dots(rest);
        let sp = split_dots(c);
        assert(sp == seq![head] + split_dots(rest));
        assert(sp.len() >= 2);
        assert(sp[0] == head);
        assert(sp.skip(1) =~= split_dots(rest));
        // joining: head + '.' + join(rest tokens) restores c
        assert(join_dots(sp) == sp[0] + seq!['.'] + join_dots(sp.skip(1)));
        assert(join_dots(sp) =~= c) by {
            assert(join_dots(sp) == head + seq!['.'] + rest);
            assert((head + seq!['.'] + rest).len() == c.len());
            assert forall|i: int| 0 <= i < c.len() implies (head + seq!['.'] + rest)[i] == c[i] by {
                if i < fd {
                } else if i == fd {
                    assert((head + seq!['.'] + rest)[i] == '.');
                    assert(c[fd] == '.');
                } else {
                    assert((head + seq!['.'] + rest)[i] == rest[i - fd - 1]);
                    assert(rest[i - fd - 1] == c[i]);
                }
            }
        }
        assert forall|k: int| 0 <= k < sp.len() implies dot_free(#[trigger] sp[k]) by {
            if k == 0 {
                assert forall|j: int| 0 <= j < head.len() implies #[trigger] head[j] != '.' by {
                    assert(head[j] == c[j]);
                }
            } else {
                assert(sp[k] == split_dots(rest)[k - 1]);
            }
        }
        if is_chunk_seq(c) {
            assert forall|j: int| 0 <= j < rest.len() implies is_chunk_char(#[trigger] rest[j]) by {
                assert(rest[j] == c[j + fd + 1]);
            }
            assert(is_chunk_seq(rest));
            assert forall|k: int| 0 <= k < sp.len() implies is_ident_seq(#[trigger] sp[k]) by {
                if k == 0 {
                    assert forall|j: int| 0 <= j < head.len() implies is_ident_char(
                        #[trigger] head[j],
                    ) by {
                        assert(head[j] == c[j]);
                        assert(is_chunk_char(c[j]));
                        assert(c[j] != '.');
                    }
                } else {
                    assert(sp[k] == split_dots(rest)[k - 1]);
                }
            }
        }
    }
}

/// Joining dot-free tokens and splitting the result restores the tokens.
pub proof fn lemma_split_of_join(toks: Seq<Seq<char>>)
    requires
        toks.len() >= 1,
        forall|k: int| 0 <= k < toks.len() ==> dot_free(#[trigger] toks[k]),
    ensures
        split_dots(join_dots(toks)) == toks,
    decreases toks.len(),
{
    if toks.len() == 1 {
        let c = toks[0];
        assert(join_dots(toks) == c);
        lemma_find_dot_unique(c, c.len() as int);
        assert(split_dots(c) =~= seq![c]);
        assert(seq![c] =~= toks);
    } else {
        let t0 = toks[0];
        let rest = toks.skip(1);
        let j = join_dots(toks);
        assert(j == t0 + seq!['.'] + join_dots(rest));
        assert forall|k: int| 0 <= k < t0.len() implies #[trigger] j[k] != '.' by {
            assert(j[k] == t0[k]);
        }
        assert(j[t0.len() as int] == '.');
        lemma_find_dot_unique(j, t0.len() as int);
        assert(j.take(t0.len() as int) =~= t0);
        assert(j.skip(t0.len() as int + 1) =~= join_dots(rest));
        lemma_split_of_join(rest);
        assert(split_dots(j) == seq![t0] + toks.skip(1));
        assert(seq![t0] + toks.skip(1) =~= toks);
    }
}

/// A well-formed pre-release token sequence: at least one token, each of
/// identifier characters, and not just a single empty token.
pub open spec fn wf_tokens(toks: Seq<Seq<char>>) -> bool {
    &&& toks.len() >= 1
    &&& (forall|k: int| 0 <= k < toks.len() ==> is_ident_seq(#[trigger] toks[k]))
    &&& !(toks.len() == 1 && toks[0].len() == 0)
}

/// The joined form of a well-formed token sequence is a non-empty sequence of
/// chunk characters.
pub proof fn lemma_join_of_wf(toks: Seq<Seq<char>>)
    requires
        wf_tokens(toks),
    ensures
        join_dots(toks).len() > 0,
        is_chunk_seq(join_dots(toks)),
    decreases toks.len(),
{
    if toks.len() == 1 {
        assert(join_dots(toks) == toks[0]);
        assert(toks[0].len() > 0);
        assert forall|j: int| 0 <= j < toks[0].len() implies is_chunk_char(
            #[trigger] join_dots(toks)[j],
        ) by {
            assert(is_ident_char(toks[0][j]));
        }
    } else {
        let t0 = toks[0];
        let rest = toks.skip(1);
        let j = join_dots(toks);
        assert(j == t0 + seq!['.'] + join_dots(rest));
        if rest.len() == 1 {
            assert(join_dots(rest) == rest[0]);
            assert(is_ident_seq(rest[0]));
            assert forall|i: int| 0 <= i < join_dots(rest).len() implies is_chunk_char(
                #[trigger] join_dots(rest)[i],
            ) by {
                assert(is_ident_char(rest[0][i]));
            }
        } else {
            assert(!(rest.len() == 1 && rest[0].len() == 0));
            assert forall|k: int| 0 <= k < rest.len() implies is_ident_seq(#[trigger] rest[k]) by {
                assert(rest[k] == toks[k + 1]);
            }
            lemma_join_of_wf(rest);
        }
        assert(j.len() > 0);
        assert forall|i: int| 0 <= i < j.len() implies is_chunk_char(#[trigger] j[i]) by {
            if i < t0.len() {
                assert(j[i] == t0[i]);
                assert(is_ident_char(t0[i]));
            } else if i == t0.len() {
                assert(j[i] == '.');
            } else {
                assert(j[i] == join_dots(rest)[i - t0.len() - 1]);
            }
        }
    }
}


/// Joining after appending one token: the join grows by a dot (when the
/// sequence was non-empty) and the token.
pub proof fn lemma_join_dots_push(toks: Seq<Seq<char>>, t: Seq<char>)
    ensures
        join_dots(toks.push(t)) == if toks.len() == 0 {
            t
        } else {
            join_dots(toks) + seq!['.'] + t
        },
    decreases toks.len(),
{
    if toks.len() == 0 {
        assert(toks.push(t) =~= seq![t]);
        assert(join_dots(seq![t]) == t);
    } else if toks.len() == 1 {
        assert(toks.push(t).len() == 2);
        assert(toks.push(t).skip(1) =~= seq![t]);
        assert(toks.push(t)[0] == toks[0]);
        assert(join_dots(toks.push(t)) == toks[0] + seq!['.'] + join_dots(seq![t]));
        assert(join_dots(toks) == toks[0]);
    } else {
        assert(toks.push(t).skip(1) =~= toks.skip(1).push(t));
        lemma_join_dots_push(toks.skip(1), t);
        assert(toks.push(t)[0] == toks[0]);
        assert(join_dots(toks.push(t)) == toks[0] + seq!['.'] + (join_dots(toks.skip(1))
            + seq!['.'] + t));
        assert(toks[0] + seq!['.'] + (join_dots(toks.skip(1)) + seq!['.'] + t) =~= (toks[0]
            + seq!['.'] + join_dots(toks.skip(1))) + seq!['.'] + t);
    }
}


/// Leading zeros do not change a digit string's value.
pub proof fn lemma_num_val_skip_zeros(s: Seq<char>, k: int)
    requires
        0 <= k <= s.len(),
        forall|j: int| 0 <= j < k ==> #[trigger] s[j] == '0',
    ensures
        num_val(s.skip(k)) == num_val(s),
    decreases k,
{
    if k > 0 {
        lemma_num_val_drop_zero(s);
        assert forall|j: int| 0 <= j < k - 1 implies #[trigger] s.skip(1)[j] == '0' by {
            assert(s.skip(1)[j] == s[j + 1]);
        }
        lemma_num_val_skip_zeros(s.skip(1), k - 1);
        assert(s.skip(1).skip(k - 1) =~= s.skip(k));
    } else {
        assert(s.skip(0) =~= s);
    }
}

} // verus!
