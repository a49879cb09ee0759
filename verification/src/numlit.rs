//! Recognizer for the numeric payloads of cell directives.
//!
//! A directive payload counts as numeric exactly when the standard library
//! would parse it as a floating-point value, and std documents that grammar:
//! an optional sign, then either one of the keywords `inf`, `infinity`, `nan`
//! (in any case combination) or a number made of digits with at most one dot
//! and at least one digit, optionally followed by an exponent marker `e`/`E`
//! with an optional sign and at least one digit.  The grammar never rejects a
//! value for being out of range, so recognizing the grammar decides parse
//! success.

use vstd::prelude::*;

verus! {

/// A decimal digit.
pub open spec fn is_digit_char(c: char) -> bool {
    ('0' as int) <= (c as int) && (c as int) <= ('9' as int)
}

/// A decimal digit or the decimal dot.
pub open spec fn is_digit_or_dot(c: char) -> bool {
    is_digit_char(c) || c == '.'
}

/// An exponent marker.
pub open spec fn is_exp_char(c: char) -> bool {
    c == 'e' || c == 'E'
}

/// A sign character.
pub open spec fn is_sign_char(c: char) -> bool {
    c == '+' || c == '-'
}

/// The text with a single leading sign removed, if one is there.
pub open spec fn strip_sign(s: Seq<char>) -> Seq<char> {
    if s.len() > 0 && is_sign_char(s[0]) {
        s.drop_first()
    } else {
        s
    }
}

/// `a` equals `b` up to ASCII case; `b` is a lowercase letter.
pub open spec fn eq_ci(a: char, b: char) -> bool {
    a == b || (a as int) == (b as int) - 32
}

/// The text equals the lowercase keyword `kw` up to ASCII case.
pub open spec fn matches_ci(s: Seq<char>, kw: Seq<char>) -> bool {
    s.len() == kw.len() && forall|i: int| 0 <= i < s.len() ==> eq_ci(#[trigger] s[i], kw[i])
}

/// One of the three non-numeric float keywords.
pub open spec fn is_special(s: Seq<char>) -> bool {
    ||| matches_ci(s, seq!['i', 'n', 'f'])
    ||| matches_ci(s, seq!['i', 'n', 'f', 'i', 'n', 'i', 't', 'y'])
    ||| matches_ci(s, seq!['n', 'a', 'n'])
}

/// Digits with at most one dot and at least one digit: the part of a number
/// before any exponent.
pub open spec fn is_mantissa(s: Seq<char>) -> bool {
    &&& exists|i: int| 0 <= i < s.len() && is_digit_char(#[trigger] s[i])
    &&& forall|i: int| 0 <= i < s.len() ==> is_digit_or_dot(#[trigger] s[i])
    &&& forall|i: int, j: int|
        #![trigger s[i], s[j]]
        0 <= i < j < s.len() && s[i] == '.' ==> s[j] != '.'
}

/// An optional sign followed by at least one digit: what may follow an
/// exponent marker.
pub open spec fn is_exp_suffix(s: Seq<char>) -> bool {
    let b = strip_sign(s);
    b.len() > 0 && forall|i: int| 0 <= i < b.len() ==> is_digit_char(#[trigger] b[i])
}

/// A number: a mantissa alone, or a mantissa, an exponent marker and an
/// exponent.  A mantissa holds no marker and an exponent holds no marker, so
/// at most one split position can qualify.
pub open spec fn is_number_body(s: Seq<char>) -> bool {
    ||| is_mantissa(s)
    ||| exists|k: int|
        0 <= k < s.len() && is_exp_char(#[trigger] s[k]) && is_mantissa(s.subrange(0, k))
            && is_exp_suffix(s.subrange(k + 1, s.len() as int))
}

/// The whole grammar: optional sign, then a keyword or a number.
pub open spec fn is_float_literal(s: Seq<char>) -> bool {
    let b = strip_sign(s);
    is_special(b) || is_number_body(b)
}

/// `a` equals the lowercase letter `b` up to ASCII case; `bu` is the
/// uppercase form of `b`.
fn char_eq_ci(a: char, b: char, bu: char) -> (r: bool)
    requires
        (bu as int) == (b as int) - 32,
    ensures
        r == eq_ci(a, b),
{
    a == b || a == bu
}

/// A decimal digit.
fn is_digit(c: char) -> (r: bool)
    ensures
        r == is_digit_char(c),
{
    c as u32 >= '0' as u32 && c as u32 <= '9' as u32
}

/// Whether `s[start..n]` equals `inf` up to case.
fn kw_inf(s: &str, start: usize, n: usize) -> (r: bool)
    requires
        start <= n,
        n == s@.len(),
    ensures
        r == matches_ci(s@.subrange(start as int, n as int), seq!['i', 'n', 'f']),
{
    let ghost b = s@.subrange(start as int, n as int);
    if n - start != 3 {
        return false;
    }
    let r = char_eq_ci(s.get_char(start), 'i', 'I') && char_eq_ci(s.get_char(start + 1), 'n', 'N')
        && char_eq_ci(s.get_char(start + 2), 'f', 'F');
    proof {
        assert(b[0] == s@[start as int] && b[1] == s@[start + 1] && b[2] == s@[start + 2]);
        if r {
            assert forall|i: int| 0 <= i < b.len() implies eq_ci(
                #[trigger] b[i],
                seq!['i', 'n', 'f'][i],
            ) by {
                if i == 0 {
                } else if i == 1 {
                } else {
                    assert(i == 2);
                }
            }
        }
    }
    r
}

/// Whether `s[start..n]` equals `infinity` up to case.
fn kw_infinity(s: &str, start: usize, n: usize) -> (r: bool)
    requires
        start <= n,
        n == s@.len(),
    ensures
        r == matches_ci(
            s@.subrange(start as int, n as int),
            seq!['i', 'n', 'f', 'i', 'n', 'i', 't', 'y'],
        ),
{
    let ghost b = s@.subrange(start as int, n as int);
    if n - start != 8 {
        return false;
    }
    let r = char_eq_ci(s.get_char(start), 'i', 'I') && char_eq_ci(s.get_char(start + 1), 'n', 'N')
        && char_eq_ci(s.get_char(start + 2), 'f', 'F') && char_eq_ci(
        s.get_char(start + 3),
        'i',
        'I',
    ) && char_eq_ci(s.get_char(start + 4), 'n', 'N') && char_eq_ci(s.get_char(start + 5), 'i', 'I')
        && char_eq_ci(s.get_char(start + 6), 't', 'T') && char_eq_ci(
        s.get_char(start + 7),
        'y',
        'Y',
    );
    proof {
        assert(b[0] == s@[start as int] && b[1] == s@[start + 1] && b[2] == s@[start + 2] && b[3]
            == s@[start + 3] && b[4] == s@[start + 4] && b[5] == s@[start + 5] && b[6] == s@[start
            + 6] && b[7] == s@[start + 7]);
        if r {
            assert forall|i: int| 0 <= i < b.len() implies eq_ci(
                #[trigger] b[i],
                seq!['i', 'n', 'f', 'i', 'n', 'i', 't', 'y'][i],
            ) by {
                if i == 0 {
                } else if i == 1 {
                } else if i == 2 {
                } else if i == 3 {
                } else if i == 4 {
                } else if i == 5 {
                } else if i == 6 {
                } else {
                    assert(i == 7);
                }
            }
        }
    }
    r
}

/// Whether `s[start..n]` equals `nan` up to case.
fn kw_nan(s: &str, start: usize, n: usize) -> (r: bool)
    requires
        start <= n,
        n == s@.len(),
    ensures
        r == matches_ci(s@.subrange(start as int, n as int), seq!['n', 'a', 'n']),
{
    let ghost b = s@.subrange(start as int, n as int);
    if n - start != 3 {
        return false;
    }
    let r = char_eq_ci(s.get_char(start), 'n', 'N') && char_eq_ci(s.get_char(start + 1), 'a', 'A')
        && char_eq_ci(s.get_char(start + 2), 'n', 'N');
    proof {
        assert(b[0] == s@[start as int] && b[1] == s@[start + 1] && b[2] == s@[start + 2]);
        if r {
            assert forall|i: int| 0 <= i < b.len() implies eq_ci(
                #[trigger] b[i],
                seq!['n', 'a', 'n'][i],
            ) by {
                if i == 0 {
                } else if i == 1 {
                } else {
                    assert(i == 2);
                }
            }
        }
    }
    r
}

/// Whether `s[from..n]` is an optional sign followed by at least one digit.
fn scan_exp_suffix(s: &str, from: usize, n: usize) -> (r: bool)
    requires
        from <= n,
        n == s@.len(),
    ensures
        r == is_exp_suffix(s@.subrange(from as int, n as int)),
{
    let ghost e = s@.subrange(from as int, n as int);
    proof {
        assert(forall|i: int| 0 <= i < e.len() ==> e[i] == s@[from + i]);
    }
    let mut k = from;
    if k < n {
        let c = s.get_char(k);
        if c == '+' || c == '-' {
            k = k + 1;
        }
    }
    let ghost d = strip_sign(e);
    proof {
        if k == from {
            assert(d =~= e);
        } else {
            assert(d =~= e.drop_first());
        }
        assert(forall|i: int| 0 <= i < d.len() ==> d[i] == s@[k + i]);
    }
    if k >= n {
        proof {
            assert(d.len() == 0);
        }
        return false;
    }
    let mut j = k;
    while j < n
        invariant
            k <= j <= n,
            n == s@.len(),
            d == strip_sign(e),
            e == s@.subrange(from as int, n as int),
            from <= k <= n,
            d.len() == n - k,
            forall|i: int| 0 <= i < d.len() ==> d[i] == s@[k + i],
            forall|p: int| k <= p < j ==> is_digit_char(#[trigger] s@[p]),
        decreases n - j,
    {
        let c = s.get_char(j);
        if !is_digit(c) {
            proof {
                assert(d[j - k] == s@[j as int]);
                assert(!is_digit_char(d[j - k]));
            }
            return false;
        }
        j = j + 1;
    }
    proof {
        assert forall|i: int| 0 <= i < d.len() implies is_digit_char(#[trigger] d[i]) by {
            assert(d[i] == s@[k + i]);
        }
        assert(d.len() > 0);
    }
    true
}

/// Whether the whole text fits the float grammar.
pub fn parses_as_float(s: &str) -> (r: bool)
    ensures
        r == is_float_literal(s@),
{
    let n = s.unicode_len();
    let mut start: usize = 0;
    if n > 0 {
        let c = s.get_char(0);
        if c == '+' || c == '-' {
            start = 1;
        }
    }
    let ghost b = strip_sign(s@);
    proof {
        if start == 0 {
            assert(b =~= s@.subrange(0, n as int));
        } else {
            assert(b =~= s@.drop_first());
            assert(b =~= s@.subrange(1, n as int));
        }
        assert(b == s@.subrange(start as int, n as int));
        assert(b.len() == n - start);
        assert(forall|i: int| 0 <= i < b.len() ==> b[i] == s@[start + i]);
    }
    if kw_inf(s, start, n) || kw_infinity(s, start, n) || kw_nan(s, start, n) {
        return true;
    }
    let mut seen_digit = false;
    let mut seen_dot = false;
    let mut j = start;
    while j < n
        invariant
            start <= j <= n,
            n == s@.len(),
            b == strip_sign(s@),
            b == s@.subrange(start as int, n as int),
            b.len() == n - start,
            forall|i: int| 0 <= i < b.len() ==> b[i] == s@[start + i],
            forall|p: int| start <= p < j ==> is_digit_or_dot(#[trigger] s@[p]),
            seen_digit <==> exists|p: int| start <= p < j && is_digit_char(#[trigger] s@[p]),
            seen_dot <==> exists|p: int| start <= p < j && #[trigger] s@[p] == '.',
            forall|p: int, q: int|
                #![trigger s@[p], s@[q]]
                start <= p < q < j && s@[p] == '.' ==> s@[q] != '.',
            !is_special(b),
        decreases n - j,
    {
        let c = s.get_char(j);
        if is_digit(c) {
            seen_digit = true;
        } else if c == '.' {
            if seen_dot {
                proof {
                    lemma_reject_second_dot(s@, b, start as int, j as int);
                }
                return false;
            }
            seen_dot = true;
        } else if c == 'e' || c == 'E' {
            if !seen_digit {
                proof {
                    lemma_reject_no_digit_before_exp(s@, b, start as int, j as int);
                }
                return false;
            }
            let ok = scan_exp_suffix(s, j + 1, n);
            proof {
                if ok {
                    lemma_accept_exp(s@, b, start as int, j as int);
                } else {
                    lemma_reject_bad_exp(s@, b, start as int, j as int);
                }
            }
            return ok;
        } else {
            proof {
                lemma_reject_bad_char(s@, b, start as int, j as int);
            }
            return false;
        }
        j = j + 1;
    }
    proof {
        if seen_digit {
            assert forall|i: int| 0 <= i < b.len() implies is_digit_or_dot(#[trigger] b[i]) by {
                assert(b[i] == s@[start + i]);
            }
            let w = choose|p: int| start <= p < n && is_digit_char(#[trigger] s@[p]);
            assert(b[w - start] == s@[w]);
            assert(is_mantissa(b));
        } else {
            lemma_reject_no_digit_at_end(s@, b, start as int);
        }
    }
    seen_digit
}

/// The scan saw a second dot at position `j`: nothing after any split can
/// make the text a number.
proof fn lemma_reject_second_dot(s: Seq<char>, b: Seq<char>, start: int, j: int)
    requires
        0 <= start <= j < s.len(),
        b == strip_sign(s),
        b == s.subrange(start, s.len() as int),
        forall|p: int| start <= p < j ==> is_digit_or_dot(#[trigger] s[p]),
        exists|p: int| start <= p < j && #[trigger] s[p] == '.',
        s[j] == '.',
        !is_special(b),
    ensures
        !is_float_literal(s),
{
    let d = choose|p: int| start <= p < j && #[trigger] s[p] == '.';
    assert(b[d - start] == s[d]);
    assert(b[j - start] == s[j]);
    assert(!is_mantissa(b));
    assert forall|k: int|
        !(0 <= k < b.len() && is_exp_char(#[trigger] b[k]) && is_mantissa(b.subrange(0, k))
            && is_exp_suffix(b.subrange(k + 1, b.len() as int))) by {
        if 0 <= k < b.len() && is_exp_char(b[k]) {
            assert(b[k] == s[start + k]);
            assert(start + k > j);
            let m = b.subrange(0, k);
            assert(m[d - start] == b[d - start]);
            assert(m[j - start] == b[j - start]);
            assert(!is_mantissa(m));
        }
    }
}

/// The scan hit an exponent marker at `j` without having seen a digit.
proof fn lemma_reject_no_digit_before_exp(s: Seq<char>, b: Seq<char>, start: int, j: int)
    requires
        0 <= start <= j < s.len(),
        b == strip_sign(s),
        b == s.subrange(start, s.len() as int),
        forall|p: int| start <= p < j ==> is_digit_or_dot(#[trigger] s[p]),
        !(exists|p: int| start <= p < j && is_digit_char(#[trigger] s[p])),
        is_exp_char(s[j]),
        !is_special(b),
    ensures
        !is_float_literal(s),
{
    assert(b[j - start] == s[j]);
    assert(!is_digit_or_dot(s[j]));
    assert(!is_mantissa(b));
    assert forall|k: int|
        !(0 <= k < b.len() && is_exp_char(#[trigger] b[k]) && is_mantissa(b.subrange(0, k))
            && is_exp_suffix(b.subrange(k + 1, b.len() as int))) by {
        if 0 <= k < b.len() && is_exp_char(b[k]) {
            assert(b[k] == s[start + k]);
            let m = b.subrange(0, k);
            if k <= j - start {
                assert forall|i: int| !(0 <= i < m.len() && is_digit_char(#[trigger] m[i])) by {
                    if 0 <= i < m.len() {
                        assert(m[i] == s[start + i]);
                    }
                }
                assert(!is_mantissa(m));
            } else {
                assert(m[j - start] == s[j]);
                assert(!is_mantissa(m));
            }
        }
    }
}

/// The scan found a mantissa, a marker at `j`, and a valid exponent suffix.
proof fn lemma_accept_exp(s: Seq<char>, b: Seq<char>, start: int, j: int)
    requires
        0 <= start <= j < s.len(),
        b == strip_sign(s),
        b == s.subrange(start, s.len() as int),
        forall|p: int| start <= p < j ==> is_digit_or_dot(#[trigger] s[p]),
        exists|p: int| start <= p < j && is_digit_char(#[trigger] s[p]),
        forall|p: int, q: int|
            #![trigger s[p], s[q]]
            start <= p < q < j && s[p] == '.' ==> s[q] != '.',
        is_exp_char(s[j]),
        is_exp_suffix(s.subrange(j + 1, s.len() as int)),
    ensures
        is_float_literal(s),
{
    let k = j - start;
    assert(b[k] == s[j]);
    let m = b.subrange(0, k);
    assert forall|i: int| 0 <= i < m.len() implies is_digit_or_dot(#[trigger] m[i]) by {
        assert(m[i] == s[start + i]);
    }
    let w = choose|p: int| start <= p < j && is_digit_char(#[trigger] s[p]);
    assert(m[w - start] == s[w]);
    assert forall|p: int, q: int|
        #![trigger m[p], m[q]]
        0 <= p < q < m.len() && m[p] == '.' implies m[q] != '.' by {
        assert(m[p] == s[start + p]);
        assert(m[q] == s[start + q]);
    }
    assert(is_mantissa(m));
    assert(b.subrange(k + 1, b.len() as int) =~= s.subrange(j + 1, s.len() as int));
    assert(is_number_body(b));
}

/// The marker at `j` is not followed by a valid exponent suffix.
proof fn lemma_reject_bad_exp(s: Seq<char>, b: Seq<char>, start: int, j: int)
    requires
        0 <= start <= j < s.len(),
        b == strip_sign(s),
        b == s.subrange(start, s.len() as int),
        forall|p: int| start <= p < j ==> is_digit_or_dot(#[trigger] s[p]),
        is_exp_char(s[j]),
        !is_exp_suffix(s.subrange(j + 1, s.len() as int)),
        !is_special(b),
    ensures
        !is_float_literal(s),
{
    assert(b[j - start] == s[j]);
    assert(!is_mantissa(b));
    assert forall|k: int|
        !(0 <= k < b.len() && is_exp_char(#[trigger] b[k]) && is_mantissa(b.subrange(0, k))
            && is_exp_suffix(b.subrange(k + 1, b.len() as int))) by {
        if 0 <= k < b.len() && is_exp_char(b[k]) {
            assert(b[k] == s[start + k]);
            let m = b.subrange(0, k);
            if k < j - start {
                assert(m.len() == k);
            } else if k == j - start {
                assert(b.subrange(k + 1, b.len() as int) =~= s.subrange(j + 1, s.len() as int));
            } else {
                assert(m[j - start] == s[j]);
                assert(!is_digit_or_dot(s[j]));
                assert(!is_mantissa(m));
            }
        }
    }
}

/// The scan hit a character that fits nowhere in the grammar.
proof fn lemma_reject_bad_char(s: Seq<char>, b: Seq<char>, start: int, j: int)
    requires
        0 <= start <= j < s.len(),
        b == strip_sign(s),
        b == s.subrange(start, s.len() as int),
        forall|p: int| start <= p < j ==> is_digit_or_dot(#[trigger] s[p]),
        !is_digit_or_dot(s[j]),
        !is_exp_char(s[j]),
        !is_special(b),
    ensures
        !is_float_literal(s),
{
    assert(b[j - start] == s[j]);
    assert(!is_mantissa(b));
    assert forall|k: int|
        !(0 <= k < b.len() && is_exp_char(#[trigger] b[k]) && is_mantissa(b.subrange(0, k))
            && is_exp_suffix(b.subrange(k + 1, b.len() as int))) by {
        if 0 <= k < b.len() && is_exp_char(b[k]) {
            assert(b[k] == s[start + k]);
            assert(start + k != j);
            let m = b.subrange(0, k);
            if k < j - start {
                assert(is_digit_or_dot(s[start + k]));
            } else {
                assert(m[j - start] == s[j]);
                assert(!is_mantissa(m));
            }
        }
    }
}

/// The scan ran out of text without ever seeing a digit.
proof fn lemma_reject_no_digit_at_end(s: Seq<char>, b: Seq<char>, start: int)
    requires
        0 <= start <= s.len(),
        b == strip_sign(s),
        b == s.subrange(start, s.len() as int),
        forall|p: int| start <= p < s.len() ==> is_digit_or_dot(#[trigger] s[p]),
        !(exists|p: int| start <= p < s.len() && is_digit_char(#[trigger] s[p])),
        !is_special(b),
    ensures
        !is_float_literal(s),
{
    assert forall|i: int| !(0 <= i < b.len() && is_digit_char(#[trigger] b[i])) by {
        if 0 <= i < b.len() {
            assert(b[i] == s[start + i]);
        }
    }
    assert(!is_mantissa(b));
    assert forall|k: int|
        !(0 <= k < b.len() && is_exp_char(#[trigger] b[k]) && is_mantissa(b.subrange(0, k))
            && is_exp_suffix(b.subrange(k + 1, b.len() as int))) by {
        if 0 <= k < b.len() {
            assert(b[k] == s[start + k]);
            assert(is_digit_or_dot(s[start + k]));
        }
    }
}

} // verus!
