//! Numeric validators and the decimal grammars behind them.
//!
//! The integer grammar (optional sign, one or more digits, value within
//! the widest signed machine range) and the float grammar (optional
//! sign, then `inf` / `infinity` / `nan` in any case, or a mantissa with
//! at most one dot and an optional exponent part) are stated as spec
//! functions, and the recognizers are proved to accept exactly those
//! grammars.

use vstd::prelude::*;

use crate::validators::ValidationError;

verus! {

// ---------------------------------------------------------------------
// Decimal digits
// ---------------------------------------------------------------------
pub open spec fn is_digit(c: char) -> bool {
    48 <= c as u32 && c as u32 <= 57
}

pub open spec fn digit_val(c: char) -> int {
    c as u32 - 48
}

pub open spec fn all_digits(s: Seq<char>) -> bool {
    forall|i: int| 0 <= i < s.len() ==> is_digit(#[trigger] s[i])
}

/// Value of a run of decimal digits, most significant first.
pub open spec fn digits_val(s: Seq<char>) -> int
    decreases s.len(),
{
    if s.len() == 0 {
        0
    } else {
        digits_val(s.drop_last()) * 10 + digit_val(s.last())
    }
}

pub open spec fn has_sign(s: Seq<char>) -> bool {
    s.len() > 0 && (s[0] == '+' || s[0] == '-')
}

pub open spec fn sign_stripped(s: Seq<char>) -> Seq<char> {
    if has_sign(s) {
        s.drop_first()
    } else {
        s
    }
}

pub open spec fn is_negative_literal(s: Seq<char>) -> bool {
    s.len() > 0 && s[0] == '-'
}

pub open spec fn starts_with_plus(s: Seq<char>) -> bool {
    s.len() > 0 && s[0] == '+'
}

/// A decimal integer literal: an optional sign, then one or more digits.
pub open spec fn is_int_literal(s: Seq<char>) -> bool {
    sign_stripped(s).len() > 0 && all_digits(sign_stripped(s))
}

pub open spec fn int_literal_value(s: Seq<char>) -> int {
    if is_negative_literal(s) {
        -digits_val(sign_stripped(s))
    } else {
        digits_val(sign_stripped(s))
    }
}

/// Exactly the strings a full-string `i128` parse accepts.
pub open spec fn parses_as_i128(s: Seq<char>) -> bool {
    is_int_literal(s) && i128::MIN <= int_literal_value(s) <= i128::MAX
}

/// Exactly the strings a full-string `i64` parse accepts.
pub open spec fn parses_as_i64(s: Seq<char>) -> bool {
    is_int_literal(s) && i64::MIN <= int_literal_value(s) <= i64::MAX
}

proof fn lemma_digits_val_nonneg(s: Seq<char>)
    requires
        all_digits(s),
    ensures
        digits_val(s) >= 0,
    decreases s.len(),
{
    if s.len() > 0 {
        assert(all_digits(s.drop_last()));
        lemma_digits_val_nonneg(s.drop_last());
    }
}

/// Appending digits never shrinks the value of a digit run.
proof fn lemma_digits_val_prefix_le(s: Seq<char>, i: int)
    requires
        all_digits(s),
        0 <= i <= s.len(),
    ensures
        digits_val(s.subrange(0, i)) <= digits_val(s),
    decreases s.len() - i,
{
    if i == s.len() {
        assert(s.subrange(0, i) =~= s);
    } else {
        let t = s.subrange(0, i + 1);
        assert(t.drop_last() =~= s.subrange(0, i));
        assert(digits_val(t) == digits_val(s.subrange(0, i)) * 10 + digit_val(s[i]));
        lemma_digits_val_nonneg(s.subrange(0, i));
        lemma_digits_val_prefix_le(s, i + 1);
    }
}

// magnitude of the most negative i128 value, and its split into
// leading digits and final digit
const I128_MIN_ABS: u128 = 170141183460469231731687303715884105728;

const I128_MIN_ABS_DIV_10: u128 = 17014118346046923173168730371588410572;

/// Full-string signed decimal parse with the exact acceptance of
/// `i128`'s `FromStr`: rejects empty input, stray characters and
/// out-of-range values.
pub fn parse_i128_str(s: &str) -> (r: Option<i128>)
    ensures
        r is Some <==> parses_as_i128(s@),
        r matches Some(v) ==> v as int == int_literal_value(s@),
{
    let n = s.unicode_len();
    if n == 0 {
        return None;
    }
    let c0 = s.get_char(0);
    let neg = c0 == '-';
    let start: usize = if c0 == '-' || c0 == '+' {
        1
    } else {
        0
    };
    if start == n {
        return None;
    }
    let ghost body = sign_stripped(s@);
    proof {
        assert(body =~= s@.subrange(start as int, n as int));
    }
    let mut acc: u128 = 0;
    let mut i: usize = start;
    while i < n
        invariant
            start <= i <= n,
            n == s@.len(),
            start == if has_sign(s@) { 1int } else { 0int },
            start < n,
            neg == is_negative_literal(s@),
            body == sign_stripped(s@),
            body =~= s@.subrange(start as int, n as int),
            all_digits(s@.subrange(start as int, i as int)),
            acc == digits_val(s@.subrange(start as int, i as int)),
            acc <= I128_MIN_ABS,
        decreases n - i,
    {
        let c = s.get_char(i);
        let u = c as u32;
        if u < 48 || u > 57 {
            proof {
                assert(!is_digit(body[i - start]));
            }
            return None;
        }
        let d = (u - 48) as u128;
        let ghost pre = s@.subrange(start as int, i as int);
        let ghost cur = s@.subrange(start as int, i + 1 as int);
        proof {
            assert(cur.drop_last() =~= pre);
            assert(cur.last() == s@[i as int]);
        }
        if acc > I128_MIN_ABS_DIV_10 || (acc == I128_MIN_ABS_DIV_10 && d > 8) {
            proof {
                lemma_digits_val_nonneg(pre);
                assert(acc * 10 + d > I128_MIN_ABS) by (nonlinear_arith)
                    requires
                        acc > I128_MIN_ABS_DIV_10 || (acc == I128_MIN_ABS_DIV_10 && d > 8),
                        I128_MIN_ABS == I128_MIN_ABS_DIV_10 * 10 + 8,
                        acc >= 0,
                        d >= 0,
                ;
                if parses_as_i128(s@) {
                    lemma_digits_val_prefix_le(body, i + 1 - start);
                    assert(body.subrange(0, i + 1 - start) =~= cur);
                    assert(digits_val(body) >= digits_val(cur));
                    assert(digits_val(cur) == acc * 10 + d);
                    assert(false);
                }
            }
            return None;
        }
        proof {
            lemma_digits_val_nonneg(pre);
            assert(acc * 10 + d <= I128_MIN_ABS) by (nonlinear_arith)
                requires
                    acc <= I128_MIN_ABS_DIV_10,
                    !(acc > I128_MIN_ABS_DIV_10 || (acc == I128_MIN_ABS_DIV_10 && d > 8)),
                    I128_MIN_ABS == I128_MIN_ABS_DIV_10 * 10 + 8,
                    acc >= 0,
                    0 <= d <= 9,
            ;
        }
        acc = acc * 10 + d;
        i = i + 1;
    }
    proof {
        assert(s@.subrange(start as int, n as int) =~= body);
        assert(all_digits(body));
        assert(acc == digits_val(body));
        lemma_digits_val_nonneg(body);
    }
    if neg {
        if acc == I128_MIN_ABS {
            Some(i128::MIN)
        } else {
            Some(-(acc as i128))
        }
    } else {
        if acc == I128_MIN_ABS {
            None
        } else {
            Some(acc as i128)
        }
    }
}

/// Full-string signed decimal parse with the exact acceptance of
/// `i64`'s `FromStr`.
pub fn parse_i64_str(s: &str) -> (r: Option<i64>)
    ensures
        r is Some <==> parses_as_i64(s@),
        r matches Some(v) ==> v as int == int_literal_value(s@),
{
    match parse_i128_str(s) {
        Some(v) => if i64::MIN as i128 <= v && v <= i64::MAX as i128 {
            Some(v as i64)
        } else {
            None
        },
        None => None,
    }
}

// ---------------------------------------------------------------------
// Float literals
// ---------------------------------------------------------------------
/// `c` equals the lowercase letter `l`, ignoring case.
pub open spec fn eq_ci(c: char, l: char) -> bool {
    c == l || c as u32 == l as u32 - 32
}

/// `inf`, `infinity` or `nan`, in any mix of case.
pub open spec fn is_special_float_body(s: Seq<char>) -> bool {
    ||| (s.len() == 3 && eq_ci(s[0], 'i') && eq_ci(s[1], 'n') && eq_ci(s[2], 'f'))
    ||| (s.len() == 8 && eq_ci(s[0], 'i') && eq_ci(s[1], 'n') && eq_ci(s[2], 'f') && eq_ci(
        s[3],
        'i',
    ) && eq_ci(s[4], 'n') && eq_ci(s[5], 'i') && eq_ci(s[6], 't') && eq_ci(s[7], 'y'))
    ||| (s.len() == 3 && eq_ci(s[0], 'n') && eq_ci(s[1], 'a') && eq_ci(s[2], 'n'))
}

/// Digits with at most one dot and at least one digit.
pub open spec fn is_mantissa(m: Seq<char>) -> bool {
    ||| (m.len() > 0 && all_digits(m))
    ||| (m.len() >= 2 && exists|k: int|
        0 <= k < m.len() && m[k] == '.' && all_digits(m.subrange(0, k)) && all_digits(
            m.subrange(k + 1, m.len() as int),
        ))
}

/// What may follow `e` / `E`: an optional sign, then one or more digits.
pub open spec fn is_exp_tail(t: Seq<char>) -> bool {
    sign_stripped(t).len() > 0 && all_digits(sign_stripped(t))
}

pub open spec fn is_number_body(b: Seq<char>) -> bool {
    ||| is_mantissa(b)
    ||| exists|k: int|
        0 <= k < b.len() && (b[k] == 'e' || b[k] == 'E') && is_mantissa(b.subrange(0, k))
            && is_exp_tail(b.subrange(k + 1, b.len() as int))
}

/// Exactly the strings a full-string `f64` parse accepts: an optional
/// sign, then a special word or a decimal number with an optional
/// exponent part.
pub open spec fn is_float_literal(s: Seq<char>) -> bool {
    is_special_float_body(sign_stripped(s)) || is_number_body(sign_stripped(s))
}

fn eq_ci_exec(c: char, l: char) -> (r: bool)
    requires
        97 <= l as u32 <= 122,
    ensures
        r == eq_ci(c, l),
{
    c == l || c as u32 == l as u32 - 32
}

fn all_digits_range(s: &str, from: usize, to: usize) -> (r: bool)
    requires
        from <= to <= s@.len(),
    ensures
        r == all_digits(s@.subrange(from as int, to as int)),
{
    let ghost seg = s@.subrange(from as int, to as int);
    let mut i = from;
    while i < to
        invariant
            from <= i <= to <= s@.len(),
            seg == s@.subrange(from as int, to as int),
            forall|j: int| 0 <= j < i - from ==> is_digit(#[trigger] seg[j]),
        decreases to - i,
    {
        let c = s.get_char(i);
        let u = c as u32;
        if u < 48 || u > 57 {
            proof {
                assert(seg[i - from] == s@[i as int]);
            }
            return false;
        }
        i = i + 1;
    }
    true
}

fn check_exp_tail(s: &str, from: usize, to: usize) -> (r: bool)
    requires
        from <= to <= s@.len(),
    ensures
        r == is_exp_tail(s@.subrange(from as int, to as int)),
{
    let ghost seg = s@.subrange(from as int, to as int);
    if from == to {
        return false;
    }
    let c = s.get_char(from);
    let body_from: usize = if c == '+' || c == '-' {
        from + 1
    } else {
        from
    };
    proof {
        assert(seg[0] == s@[from as int]);
        assert(sign_stripped(seg) =~= s@.subrange(body_from as int, to as int));
    }
    if body_from == to {
        return false;
    }
    all_digits_range(s, body_from, to)
}

fn check_mantissa(s: &str, from: usize, to: usize) -> (r: bool)
    requires
        from <= to <= s@.len(),
    ensures
        r == is_mantissa(s@.subrange(from as int, to as int)),
{
    let ghost seg = s@.subrange(from as int, to as int);
    if from == to {
        return false;
    }
    // find the first dot, if any
    let mut dot: usize = to;
    let mut i = from;
    while i < to && dot == to
        invariant
            from <= i <= to <= s@.len(),
            seg == s@.subrange(from as int, to as int),
            dot == to || (from <= dot < to && dot == i && seg[dot - from] == '.'),
            forall|j: int| 0 <= j < i - from ==> seg[j] != '.',
        decreases to - i + (if dot == to {
            1int
        } else {
            0int
        }),
    {
        let c = s.get_char(i);
        proof {
            assert(seg[i - from] == s@[i as int]);
        }
        if c == '.' {
            dot = i;
        } else {
            i = i + 1;
        }
    }
    if dot == to {
        // no dot: a plain digit run
        let r = all_digits_range(s, from, to);
        proof {
            if !r {
                // a dotted mantissa needs a dot
                assert(forall|k: int| 0 <= k < seg.len() ==> seg[k] != '.');
            }
        }
        r
    } else {
        proof {
            assert(seg[dot - from] == '.');
        }
        if to - from < 2 {
            proof {
                assert(seg.len() == 1 && seg[0] == '.');
                assert(!all_digits(seg)) by {
                    assert(!is_digit(seg[0]));
                }
            }
            return false;
        }
        let left = all_digits_range(s, from, dot);
        let right = all_digits_range(s, dot + 1, to);
        proof {
            assert(s@.subrange(from as int, dot as int) =~= seg.subrange(0, dot - from));
            assert(s@.subrange(dot + 1 as int, to as int) =~= seg.subrange(
                dot - from + 1,
                seg.len() as int,
            ));
        }
        if left && right {
            proof {
                assert(is_mantissa(seg)) by {
                    let k = dot - from;
                    assert(0 <= k < seg.len() && seg[k] == '.' && all_digits(seg.subrange(0, k))
                        && all_digits(seg.subrange(k + 1, seg.len() as int)));
                }
            }
            true
        } else {
            proof {
                // any valid dot split must use the first dot
                assert forall|k: int|
                    0 <= k < seg.len() && seg[k] == '.' implies !(all_digits(
                    seg.subrange(0, k),
                ) && all_digits(seg.subrange(k + 1, seg.len() as int))) by {
                    let first = dot - from;
                    if k > first {
                        assert(seg.subrange(0, k)[first] == '.');
                        assert(!is_digit(seg.subrange(0, k)[first]));
                    } else if k == first {
                        assert(!(left && right));
                    }
                }
                assert(!all_digits(seg)) by {
                    assert(!is_digit(seg[dot - from]));
                }
            }
            false
        }
    }
}

/// Recognizes exactly the float grammar.
pub fn is_float_text(s: &str) -> (r: bool)
    ensures
        r == is_float_literal(s@),
{
    let n = s.unicode_len();
    if n == 0 {
        return false;
    }
    let c0 = s.get_char(0);
    let start: usize = if c0 == '-' || c0 == '+' {
        1
    } else {
        0
    };
    let ghost body = sign_stripped(s@);
    proof {
        assert(body =~= s@.subrange(start as int, n as int));
    }
    if start == n {
        return false;
    }
    let m = n - start;
    if m == 3 {
        let a = s.get_char(start);
        let b = s.get_char(start + 1);
        let c = s.get_char(start + 2);
        proof {
            assert(body[0] == s@[start as int]);
            assert(body[1] == s@[start + 1 as int]);
            assert(body[2] == s@[start + 2 as int]);
        }
        if (eq_ci_exec(a, 'i') && eq_ci_exec(b, 'n') && eq_ci_exec(c, 'f')) || (eq_ci_exec(
            a,
            'n',
        ) && eq_ci_exec(b, 'a') && eq_ci_exec(c, 'n')) {
            return true;
        }
    }
    if m == 8 {
        let mut special = true;
        let letters: [char; 8] = ['i', 'n', 'f', 'i', 'n', 'i', 't', 'y'];
        let mut j: usize = 0;
        while j < 8 && special
            invariant
                0 <= j <= 8,
                n == s@.len(),
                start + 8 == n,
                body == sign_stripped(s@),
                body =~= s@.subrange(start as int, n as int),
                letters@ =~= seq!['i', 'n', 'f', 'i', 'n', 'i', 't', 'y'],
                special ==> forall|t: int| 0 <= t < j ==> eq_ci(#[trigger] body[t], letters@[t]),
                !special ==> j < 8 && !eq_ci(body[j as int], letters@[j as int]),
            decreases 8 - j + (if special {
                1int
            } else {
                0int
            }),
        {
            let c = s.get_char(start + j);
            proof {
                assert(body[j as int] == s@[start + j as int]);
            }
            if !eq_ci_exec(c, letters[j]) {
                special = false;
            } else {
                j = j + 1;
            }
        }
        if special {
            proof {
                assert(is_special_float_body(body)) by {
                    assert(eq_ci(body[0], letters@[0]) && eq_ci(body[1], letters@[1]) && eq_ci(
                        body[2],
                        letters@[2],
                    ) && eq_ci(body[3], letters@[3]) && eq_ci(body[4], letters@[4]) && eq_ci(
                        body[5],
                        letters@[5],
                    ) && eq_ci(body[6], letters@[6]) && eq_ci(body[7], letters@[7]));
                }
            }
            return true;
        }
    }
    proof {
        assert(!is_special_float_body(body)) by {
            if is_special_float_body(body) {
                if body.len() == 3 {
                    assert(m == 3);
                } else {
                    assert(body.len() == 8 && m == 8);
                    assert(eq_ci(body[0], 'i') && eq_ci(body[1], 'n') && eq_ci(body[2], 'f')
                        && eq_ci(body[3], 'i') && eq_ci(body[4], 'n') && eq_ci(body[5], 'i')
                        && eq_ci(body[6], 't') && eq_ci(body[7], 'y'));
                }
            }
        }
    }
    // find the first exponent marker, if any
    let mut epos: usize = n;
    let mut i = start;
    while i < n && epos == n
        invariant
            start <= i <= n,
            n == s@.len(),
            body == sign_stripped(s@),
            body =~= s@.subrange(start as int, n as int),
            epos == n || (start <= epos < n && epos == i && (body[epos - start] == 'e'
                || body[epos - start] == 'E')),
            forall|j: int| 0 <= j < i - start ==> !(body[j] == 'e' || body[j] == 'E'),
        decreases n - i + (if epos == n {
            1int
        } else {
            0int
        }),
    {
        let c = s.get_char(i);
        proof {
            assert(body[i - start] == s@[i as int]);
        }
        if c == 'e' || c == 'E' {
            epos = i;
        } else {
            i = i + 1;
        }
    }
    if epos == n {
        let r = check_mantissa(s, start, n);
        proof {
            assert(s@.subrange(start as int, n as int) =~= body);
            if !r {
                assert(!is_number_body(body)) by {
                    if is_number_body(body) && !is_mantissa(body) {
                        let k = choose|k: int|
                            0 <= k < body.len() && (body[k] == 'e' || body[k] == 'E')
                                && is_mantissa(body.subrange(0, k)) && is_exp_tail(
                                body.subrange(k + 1, body.len() as int),
                            );
                        assert(!(body[k] == 'e' || body[k] == 'E'));
                    }
                }
            }
        }
        r
    } else {
        proof {
            assert(body[epos - start] == 'e' || body[epos - start] == 'E');
        }
        let left = check_mantissa(s, start, epos);
        let right = check_exp_tail(s, epos + 1, n);
        proof {
            assert(s@.subrange(start as int, epos as int) =~= body.subrange(0, epos - start));
            assert(s@.subrange(epos + 1 as int, n as int) =~= body.subrange(
                epos - start + 1,
                body.len() as int,
            ));
        }
        if left && right {
            proof {
                assert(is_number_body(body)) by {
                    let k = epos - start;
                    assert(0 <= k < body.len() && (body[k] == 'e' || body[k] == 'E')
                        && is_mantissa(body.subrange(0, k)) && is_exp_tail(
                        body.subrange(k + 1, body.len() as int),
                    ));
                }
            }
            true
        } else {
            proof {
                assert(!is_number_body(body)) by {
                    if is_mantissa(body) {
                        mantissa_without_exp_marker(body);
                        assert(!(body[epos - start] == 'e' || body[epos - start] == 'E'));
                    }
                    if is_number_body(body) {
                        let k = choose|k: int|
                            0 <= k < body.len() && (body[k] == 'e' || body[k] == 'E')
                                && is_mantissa(body.subrange(0, k)) && is_exp_tail(
                                body.subrange(k + 1, body.len() as int),
                            );
                        // the marker of a valid split is the first one
                        if k > epos - start {
                            mantissa_without_exp_marker(body.subrange(0, k));
                            assert(body.subrange(0, k)[epos - start] == body[epos - start]);
                        } else if k < epos - start {
                            assert(!(body[k] == 'e' || body[k] == 'E'));
                        } else {
                            assert(!(left && right));
                        }
                    }
                }
            }
            false
        }
    }
}

/// No character of a mantissa is an exponent marker.
proof fn mantissa_without_exp_marker(m: Seq<char>)
    requires
        is_mantissa(m),
    ensures
        forall|j: int| 0 <= j < m.len() ==> !(m[j] == 'e' || m[j] == 'E'),
{
    assert forall|j: int| 0 <= j < m.len() implies !(m[j] == 'e' || m[j] == 'E') by {
        if all_digits(m) {
            assert(is_digit(m[j]));
        } else if m.len() >= 2 {
            let k = choose|k: int|
                0 <= k < m.len() && m[k] == '.' && all_digits(m.subrange(0, k)) && all_digits(
                    m.subrange(k + 1, m.len() as int),
                );
            if j < k {
                assert(is_digit(m.subrange(0, k)[j]));
            } else if j > k {
                assert(is_digit(m.subrange(k + 1, m.len() as int)[j - k - 1]));
            }
        }
    }
}

// ---------------------------------------------------------------------
// Integer validator
// ---------------------------------------------------------------------
/// The observed minimum after one more value: never larger than before.
pub open spec fn widen_min_value(m: Option<i128>, v: int) -> Option<i128> {
    match m {
        Some(x) => if x as int <= v {
            Some(x)
        } else {
            Some(v as i128)
        },
        None => Some(v as i128),
    }
}

/// The observed maximum after one more value: never smaller than before.
pub open spec fn widen_max_value(m: Option<i128>, v: int) -> Option<i128> {
    match m {
        Some(x) => if x as int >= v {
            Some(x)
        } else {
            Some(v as i128)
        },
        None => Some(v as i128),
    }
}

/// Accepts decimal integer text; remembers the widest value range seen
/// and whether any accepted value wrote an explicit `+` sign.
#[derive(Debug, Clone, Copy)]
pub struct Integer {
    pub min_value: Option<i128>,
    pub max_value: Option<i128>,
    pub leading_plus: bool,
}

/// The state of an `Integer` validator after it accepts one value.
pub open spec fn integer_considered(pre: Integer, v: Seq<char>) -> Integer {
    Integer {
        min_value: widen_min_value(pre.min_value, int_literal_value(v)),
        max_value: widen_max_value(pre.max_value, int_literal_value(v)),
        leading_plus: pre.leading_plus || starts_with_plus(v),
    }
}

impl Default for Integer {
    fn default() -> (r: Self)
        ensures
            r.min_value is None,
            r.max_value is None,
            !r.leading_plus,
    {
        Integer { min_value: None, max_value: None, leading_plus: false }
    }
}

impl Integer {
    /// Succeeds iff the value is integer-parsable; reads no state.
    pub fn validate(&self, value: &str) -> (r: Result<(), ValidationError>)
        ensures
            r is Ok <==> parses_as_i128(value@),
    {
        match parse_i128_str(value) {
            Some(_) => Ok(()),
            None => Err(ValidationError { details: String::from_str("not an integer") }),
        }
    }

    /// On integer-parsable text, widens the observed range to cover the
    /// value (the maximum never decreases, the minimum never increases)
    /// and records a leading `+`; on anything else, fails and leaves
    /// the state exactly as it was.
    pub fn consider(&mut self, value: &str) -> (r: Result<(), ValidationError>)
        ensures
            r is Ok <==> parses_as_i128(value@),
            !parses_as_i128(value@) ==> *final(self) == *old(self),
            parses_as_i128(value@) ==> *final(self) == integer_considered(*old(self), value@),
            old(self).min_value matches Some(m) ==> final(self).min_value matches Some(lo)
                && lo <= m,
            old(self).max_value matches Some(m) ==> final(self).max_value matches Some(hi)
                && hi >= m,
    {
        match parse_i128_str(value) {
            Some(parsed) => {
                self.min_value = Some(
                    match self.min_value {
                        Some(m) => if m <= parsed {
                            m
                        } else {
                            parsed
                        },
                        None => parsed,
                    },
                );
                self.max_value = Some(
                    match self.max_value {
                        Some(m) => if m >= parsed {
                            m
                        } else {
                            parsed
                        },
                        None => parsed,
                    },
                );
                let c0 = value.get_char(0);
                self.leading_plus = self.leading_plus || c0 == '+';
                Ok(())
            },
            None => Err(ValidationError { details: String::from_str("not an integer") }),
        }
    }
}

// ---------------------------------------------------------------------
// Float validator
// ---------------------------------------------------------------------
/// Accepts float-parsable text; remembers whether any accepted value
/// wrote a leading `+` or used `e` notation.  Exact numeric bounds are
/// not tracked: candidate narrowing needs only acceptance, which the
/// grammar above decides.
#[derive(Debug, Clone, Copy)]
pub struct Float {
    pub leading_plus: bool,
    pub e_notation: bool,
}

/// The state of a `Float` validator after it accepts one value.
pub open spec fn float_considered(pre: Float, v: Seq<char>) -> Float {
    Float {
        leading_plus: pre.leading_plus || starts_with_plus(v),
        e_notation: pre.e_notation || v.contains('e'),
    }
}

impl Default for Float {
    fn default() -> (r: Self)
        ensures
            !r.leading_plus,
            !r.e_notation,
    {
        Float { leading_plus: false, e_notation: false }
    }
}

fn contains_lower_e(s: &str) -> (r: bool)
    ensures
        r == s@.contains('e'),
{
    let n = s.unicode_len();
    let mut i: usize = 0;
    let mut found = false;
    while i < n && !found
        invariant
            0 <= i <= n,
            n == s@.len(),
            found ==> i < n && s@[i as int] == 'e',
            !found ==> forall|j: int| 0 <= j < i ==> s@[j] != 'e',
        decreases n - i + (if found {
            0int
        } else {
            1int
        }),
    {
        let c = s.get_char(i);
        if c == 'e' {
            found = true;
        } else {
            i = i + 1;
        }
    }
    proof {
        if found {
            assert(s@.contains('e'));
        } else {
            if s@.contains('e') {
                let j = choose|j: int| 0 <= j < s@.len() && s@[j] == 'e';
                assert(s@[j] != 'e');
            }
        }
    }
    found
}

impl Float {
    /// Succeeds iff the value is float-parsable and does not introduce
    /// a leading `+` the validator has not seen during narrowing.
    pub fn validate(&self, value: &str) -> (r: Result<(), ValidationError>)
        ensures
            r is Ok <==> is_float_literal(value@) && (self.leading_plus || !starts_with_plus(
                value@,
            )),
    {
        if !is_float_text(value) {
            return Err(ValidationError { details: String::from_str("not a float") });
        }
        let n = value.unicode_len();
        if !self.leading_plus && n > 0 {
            let c0 = value.get_char(0);
            if c0 == '+' {
                return Err(ValidationError {
                    details: String::from_str("unexpected leading plus"),
                });
            }
        }
        Ok(())
    }

    /// On float-parsable text, records a leading `+` and `e` notation;
    /// on anything else, fails and leaves the state exactly as it was.
    pub fn consider(&mut self, value: &str) -> (r: Result<(), ValidationError>)
        ensures
            r is Ok <==> is_float_literal(value@),
            !is_float_literal(value@) ==> *final(self) == *old(self),
            is_float_literal(value@) ==> *final(self) == float_considered(*old(self), value@),
    {
        if !is_float_text(value) {
            return Err(ValidationError { details: String::from_str("not a float") });
        }
        let n = value.unicode_len();
        if n > 0 {
            let c0 = value.get_char(0);
            self.leading_plus = self.leading_plus || c0 == '+';
        }
        self.e_notation = self.e_notation || contains_lower_e(value);
        Ok(())
    }
}

} // verus!
