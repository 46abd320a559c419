//! The literal grammars that Rust's `FromStr` accepts for the integers,
//! booleans and floating-point numbers of scenario source.

use vstd::prelude::*;
use crate::text::is_ascii_digit;

verus! {

pub open spec fn is_digits(s: Seq<char>) -> bool {
    s.len() > 0 && forall|i: int| 0 <= i < s.len() ==> is_ascii_digit(#[trigger] s[i])
}

pub open spec fn digit_value(c: char) -> nat {
    ((c as int) - ('0' as int)) as nat
}

/// The value of a string of decimal digits.
pub open spec fn digits_value(s: Seq<char>) -> nat
    decreases s.len(),
{
    if s.len() == 0 {
        0
    } else {
        digits_value(s.drop_last()) * 10 + digit_value(s.last())
    }
}

pub open spec fn is_sign(c: char) -> bool {
    c == '+' || c == '-'
}

/// An unsigned literal: an optional `+` and then decimal digits.
pub open spec fn unsigned_literal(s: Seq<char>) -> Option<nat> {
    let d = if s.len() > 0 && s[0] == '+' {
        s.drop_first()
    } else {
        s
    };
    if is_digits(d) {
        Some(digits_value(d))
    } else {
        None
    }
}

/// A signed literal: an optional `+` or `-` and then decimal digits.
pub open spec fn signed_literal(s: Seq<char>) -> Option<int> {
    if s.len() > 0 && s[0] == '-' {
        if is_digits(s.drop_first()) {
            Some(-(digits_value(s.drop_first()) as int))
        } else {
            None
        }
    } else {
        match unsigned_literal(s) {
            Some(n) => Some(n as int),
            None => None,
        }
    }
}

pub proof fn lemma_digits_value_monotone(s: Seq<char>, k: int)
    requires
        0 <= k <= s.len(),
    ensures
        digits_value(s.take(k)) <= digits_value(s),
    decreases s.len() - k,
{
    if k < s.len() {
        lemma_digits_value_monotone(s, k + 1);
        assert(s.take(k + 1).drop_last() =~= s.take(k));
    } else {
        assert(s.take(k) =~= s);
    }
}

/// The value of a string of decimal digits when it fits in a `u64`.
fn digits_u64(s: &Vec<char>, start: usize) -> (r: Option<u64>)
    requires
        start <= s@.len(),
    ensures
        is_digits(s@.skip(start as int)) && digits_value(s@.skip(start as int)) <= u64::MAX
            <==> r is Some,
        r matches Some(v) ==> v == digits_value(s@.skip(start as int)),
{
    let ghost d = s@.skip(start as int);
    if start == s.len() {
        return None;
    }
    let mut value: u64 = 0;
    let mut i: usize = start;
    while i < s.len()
        invariant
            start <= i <= s@.len(),
            d == s@.skip(start as int),
            forall|j: int| 0 <= j < i - start ==> is_ascii_digit(#[trigger] d[j]),
            value == digits_value(d.take(i - start)),
        decreases s@.len() - i,
    {
        let c = s[i];
        if !('0' <= c && c <= '9') {
            proof {
                assert(!is_ascii_digit(d[i - start]));
            }
            return None;
        }
        proof {
            assert(d.take(i - start + 1).drop_last() =~= d.take(i - start));
        }
        let digit = (c as u32 - '0' as u32) as u64;
        if value > (u64::MAX - digit) / 10 {
            proof {
                assert(digits_value(d.take(i - start + 1)) == value * 10 + digit);
                assert(value * 10 + digit > u64::MAX) by (nonlinear_arith)
                    requires
                        value > (u64::MAX - digit) / 10,
                        digit <= 9,
                ;
                let k = i - start + 1;
                if is_digits(d) {
                    lemma_digits_value_monotone(d, k);
                }
            }
            return None;
        }
        proof {
            assert(value * 10 + digit <= u64::MAX) by (nonlinear_arith)
                requires
                    value <= (u64::MAX - digit) / 10,
                    digit <= 9,
            ;
        }
        value = value * 10 + digit;
        i += 1;
    }
    proof {
        assert(d.take(i - start) =~= d);
    }
    Some(value)
}

/// Parse an unsigned literal that fits in a `u64`.
pub fn parse_u64_literal(s: &Vec<char>) -> (r: Option<u64>)
    ensures
        r is Some <==> (unsigned_literal(s@) matches Some(n) && n <= u64::MAX),
        r matches Some(v) ==> unsigned_literal(s@) == Some(v as nat),
{
    let start: usize = if s.len() > 0 && s[0] == '+' { 1 } else { 0 };
    proof {
        assert(s@.skip(0) =~= s@);
        assert(s@.skip(1) =~= s@.drop_first());
    }
    digits_u64(s, start)
}

/// Parse an unsigned literal that fits in a `u32`.
pub fn parse_u32_literal(s: &Vec<char>) -> (r: Option<u32>)
    ensures
        r is Some <==> (unsigned_literal(s@) matches Some(n) && n <= u32::MAX),
        r matches Some(v) ==> unsigned_literal(s@) == Some(v as nat),
{
    match parse_u64_literal(s) {
        Some(v) => if v <= u32::MAX as u64 {
            Some(v as u32)
        } else {
            None
        },
        None => None,
    }
}

/// Parse a signed literal that fits in an `i64`.
pub fn parse_i64_literal(s: &Vec<char>) -> (r: Option<i64>)
    ensures
        r is Some <==> (signed_literal(s@) matches Some(n) && i64::MIN <= n <= i64::MAX),
        r matches Some(v) ==> signed_literal(s@) == Some(v as int),
{
    proof {
        assert(s@.skip(1) =~= s@.drop_first());
        assert(s@.skip(0) =~= s@);
    }
    if s.len() > 0 && s[0] == '-' {
        match digits_u64(s, 1) {
            Some(v) => if v <= 9223372036854775808u64 {
                if v == 9223372036854775808u64 {
                    Some(i64::MIN)
                } else {
                    Some(-(v as i64))
                }
            } else {
                None
            },
            None => None,
        }
    } else {
        let start: usize = if s.len() > 0 && s[0] == '+' { 1 } else { 0 };
        match digits_u64(s, start) {
            Some(v) => if v <= i64::MAX as u64 {
                Some(v as i64)
            } else {
                None
            },
            None => None,
        }
    }
}

/// `true` or `false`, the literals of `bool`.
pub open spec fn bool_literal(s: Seq<char>) -> Option<bool> {
    if s == seq!['t', 'r', 'u', 'e'] {
        Some(true)
    } else if s == seq!['f', 'a', 'l', 's', 'e'] {
        Some(false)
    } else {
        None
    }
}

pub fn parse_bool_literal(s: &Vec<char>) -> (r: Option<bool>)
    ensures
        r == bool_literal(s@),
{
    if s.len() == 4 && s[0] == 't' && s[1] == 'r' && s[2] == 'u' && s[3] == 'e' {
        proof {
            assert(s@ =~= seq!['t', 'r', 'u', 'e']);
        }
        Some(true)
    } else if s.len() == 5 && s[0] == 'f' && s[1] == 'a' && s[2] == 'l' && s[3] == 's' && s[4]
        == 'e' {
        proof {
            assert(s@ =~= seq!['f', 'a', 'l', 's', 'e']);
        }
        Some(false)
    } else {
        proof {
            if s@ == seq!['t', 'r', 'u', 'e'] {
                assert(s@[0] == 't' && s@[1] == 'r' && s@[2] == 'u' && s@[3] == 'e');
            }
            if s@ == seq!['f', 'a', 'l', 's', 'e'] {
                assert(s@[0] == 'f' && s@[1] == 'a' && s@[2] == 'l' && s@[3] == 's' && s@[4] == 'e');
            }
        }
        None
    }
}

// ---- floating point literals ----
/// `s` equals the lower-case ASCII word `lower`, ignoring ASCII case.
pub open spec fn is_word_ignoring_case(s: Seq<char>, lower: Seq<char>, upper: Seq<char>) -> bool {
    &&& s.len() == lower.len()
    &&& lower.len() == upper.len()
    &&& forall|i: int| 0 <= i < s.len() ==> (#[trigger] s[i] == lower[i] || s[i] == upper[i])
}

pub open spec fn is_special_float(b: Seq<char>) -> bool {
    ||| is_word_ignoring_case(b, seq!['i', 'n', 'f'], seq!['I', 'N', 'F'])
    ||| is_word_ignoring_case(
        b,
        seq!['i', 'n', 'f', 'i', 'n', 'i', 't', 'y'],
        seq!['I', 'N', 'F', 'I', 'N', 'I', 'T', 'Y'],
    )
    ||| is_word_ignoring_case(b, seq!['n', 'a', 'n'], seq!['N', 'A', 'N'])
}

/// Digits with at most one `.`, and at least one digit.
pub open spec fn is_mantissa(m: Seq<char>) -> bool {
    &&& forall|i: int| 0 <= i < m.len() ==> (is_ascii_digit(#[trigger] m[i]) || m[i] == '.')
    &&& forall|i: int, j: int| 0 <= i < m.len() && 0 <= j < m.len() && #[trigger] m[i] == '.' && #[trigger] m[j] == '.' ==> i == j
    &&& exists|i: int| 0 <= i < m.len() && is_ascii_digit(#[trigger] m[i])
}

pub open spec fn is_exponent_marker(c: char) -> bool {
    c == 'e' || c == 'E'
}

/// `e` or `E`, an optional sign, and digits.
pub open spec fn is_exponent(x: Seq<char>) -> bool {
    let r = x.drop_first();
    &&& x.len() >= 2
    &&& is_exponent_marker(x[0])
    &&& is_digits(if is_sign(r[0]) { r.drop_first() } else { r })
}

pub open spec fn is_decimal_number(b: Seq<char>) -> bool {
    exists|k: int|
        0 <= k <= b.len() && is_mantissa(#[trigger] b.take(k)) && (k == b.len() || is_exponent(
            b.skip(k),
        ))
}

/// The grammar of `f64::from_str`: an optional sign, then `inf`, `infinity` or
/// `nan` in any ASCII case, or a decimal number
/// `(Digit+ | Digit+ '.' Digit* | Digit* '.' Digit+) (('e' | 'E') Sign? Digit+)?`.
pub open spec fn is_float_literal(s: Seq<char>) -> bool {
    let b = if s.len() > 0 && is_sign(s[0]) {
        s.drop_first()
    } else {
        s
    };
    is_special_float(b) || is_decimal_number(b)
}

fn word_ignoring_case(s: &Vec<char>, start: usize, lower: &Vec<char>, upper: &Vec<char>) -> (r: bool)
    requires
        start <= s@.len(),
        lower@.len() == upper@.len(),
    ensures
        r == is_word_ignoring_case(s@.skip(start as int), lower@, upper@),
{
    let ghost b = s@.skip(start as int);
    let n = s.len();
    if n - start != lower.len() {
        return false;
    }
    let mut i: usize = 0;
    while i < lower.len()
        invariant
            b == s@.skip(start as int),
            start <= s@.len(),
            n == s@.len(),
            n - start == lower@.len(),
            b.len() == lower@.len(),
            lower@.len() == upper@.len(),
            i <= lower@.len(),
            forall|j: int| 0 <= j < i ==> (#[trigger] b[j] == lower@[j] || b[j] == upper@[j]),
        decreases lower@.len() - i,
    {
        assert(start + i < n);
        let c = s[start + i];
        proof {
            assert(b[i as int] == s@[start + i]);
        }
        if !(c == lower[i] || c == upper[i]) {
            return false;
        }
        i += 1;
    }
    true
}

fn exponent_at(s: &Vec<char>, k: usize) -> (r: bool)
    requires
        k < s@.len(),
    ensures
        r == is_exponent(s@.skip(k as int)),
{
    let ghost x = s@.skip(k as int);
    let n = s.len();
    proof {
        if n - k >= 2 {
            assert(x[0] == s@[k as int]);
            assert(x.drop_first()[0] == s@[k + 1]);
        }
    }
    if n - k < 2 || !(s[k] == 'e' || s[k] == 'E') {
        return false;
    }
    let mut j = k + 1;
    if s[j] == '+' || s[j] == '-' {
        j += 1;
    }
    proof {
        let r = x.drop_first();
        let d = if is_sign(r[0]) { r.drop_first() } else { r };
        assert(d =~= s@.skip(j as int));
    }
    if j == n {
        return false;
    }
    let mut i = j;
    while i < n
        invariant
            n == s@.len(),
            x == s@.skip(k as int),
            x.len() >= 2,
            j == k + 1 || j == k + 2,
            (if is_sign(x.drop_first()[0]) { x.drop_first().drop_first() } else { x.drop_first() }) == s@.skip(j as int),
            j <= i <= n,
            forall|q: int| j <= q < i ==> is_ascii_digit(#[trigger] s@[q]),
        decreases n - i,
    {
        if !('0' <= s[i] && s[i] <= '9') {
            proof {
                let r = x.drop_first();
                let d = if is_sign(r[0]) { r.drop_first() } else { r };
                assert(d[i - j] == s@[i as int]);
                assert(!is_ascii_digit(d[i - j]));
            }
            return false;
        }
        i += 1;
    }
    proof {
        assert forall|q: int| 0 <= q < s@.skip(j as int).len() implies is_ascii_digit(
            #[trigger] s@.skip(j as int)[q],
        ) by {
            assert(s@.skip(j as int)[q] == s@[j + q]);
        }
    }
    true
}

/// Whether `s` is a literal that `f64::from_str` accepts.
pub fn float_literal(s: &Vec<char>) -> (r: bool)
    ensures
        r == is_float_literal(s@),
{
    let start: usize = if s.len() > 0 && (s[0] == '+' || s[0] == '-') { 1 } else { 0 };
    let ghost b = s@.skip(start as int);
    proof {
        assert(s@.skip(0) =~= s@);
        assert(s@.skip(1) =~= s@.drop_first());
    }
    let inf_l = vec!['i', 'n', 'f'];
    let inf_u = vec!['I', 'N', 'F'];
    let infinity_l = vec!['i', 'n', 'f', 'i', 'n', 'i', 't', 'y'];
    let infinity_u = vec!['I', 'N', 'F', 'I', 'N', 'I', 'T', 'Y'];
    let nan_l = vec!['n', 'a', 'n'];
    let nan_u = vec!['N', 'A', 'N'];
    proof {
        assert(inf_l@ =~= seq!['i', 'n', 'f']);
        assert(inf_u@ =~= seq!['I', 'N', 'F']);
        assert(infinity_l@ =~= seq!['i', 'n', 'f', 'i', 'n', 'i', 't', 'y']);
        assert(infinity_u@ =~= seq!['I', 'N', 'F', 'I', 'N', 'I', 'T', 'Y']);
        assert(nan_l@ =~= seq!['n', 'a', 'n']);
        assert(nan_u@ =~= seq!['N', 'A', 'N']);
    }
    if word_ignoring_case(s, start, &inf_l, &inf_u) || word_ignoring_case(
        s,
        start,
        &infinity_l,
        &infinity_u,
    ) || word_ignoring_case(s, start, &nan_l, &nan_u) {
        return true;
    }
    let n = s.len();
    let (k, mantissa) = mantissa_end(s, start);
    proof {
        assert(s@.subrange(start as int, k as int) =~= b.take(k - start));
        if k < n {
            assert(b.skip(k - start) =~= s@.skip(k as int));
            assert(b[k - start] == s@[k as int]);
        }
        assert forall|q: int| 0 <= q < k - start implies !is_exponent_marker(#[trigger] b[q]) by {
            assert(b[q] == s@[start + q]);
        }
        lemma_decimal_number_split(b, k - start);
    }
    mantissa && (k == n || exponent_at(s, k))
}

/// A decimal number's mantissa ends exactly at its first exponent marker.
pub proof fn lemma_decimal_number_split(b: Seq<char>, k: int)
    requires
        0 <= k <= b.len(),
        forall|q: int| 0 <= q < k ==> !is_exponent_marker(#[trigger] b[q]),
        k == b.len() || is_exponent_marker(b[k]),
    ensures
        is_decimal_number(b) == (is_mantissa(b.take(k)) && (k == b.len() || is_exponent(
            b.skip(k),
        ))),
{
    if is_decimal_number(b) {
        let w = choose|w: int|
            0 <= w <= b.len() && is_mantissa(#[trigger] b.take(w)) && (w == b.len() || is_exponent(
                b.skip(w),
            ));
        let mw = b.take(w);
        if w > k {
            assert(mw[k] == b[k]);
            assert(!(is_ascii_digit(mw[k]) || mw[k] == '.'));
        } else if w < k {
            assert(b.skip(w)[0] == b[w]);
        } else {
        }
    }
}

/// Scan the mantissa from `start` to the first exponent marker (or the end),
/// and tell whether it is digits with at most one `.` and at least one digit.
fn mantissa_end(s: &Vec<char>, start: usize) -> (r: (usize, bool))
    requires
        start <= s@.len(),
    ensures
        start <= r.0 <= s@.len(),
        forall|q: int| start <= q < r.0 ==> !is_exponent_marker(#[trigger] s@[q]),
        r.0 == s@.len() || is_exponent_marker(s@[r.0 as int]),
        r.1 == is_mantissa(s@.subrange(start as int, r.0 as int)),
{
    let n = s.len();
    let mut k = start;
    let mut dots: usize = 0;
    let mut digits = false;
    let mut valid = true;
    let ghost mut dot_at: int = 0;
    while k < n && !(s[k] == 'e' || s[k] == 'E')
        invariant
            n == s@.len(),
            start <= k <= n,
            forall|q: int| start <= q < k ==> !is_exponent_marker(#[trigger] s@[q]),
            valid == forall|q: int|
                start <= q < k ==> (is_ascii_digit(#[trigger] s@[q]) || s@[q] == '.'),
            digits == exists|q: int| start <= q < k && is_ascii_digit(#[trigger] s@[q]),
            dots <= 2,
            dots == 0 ==> forall|q: int| start <= q < k ==> #[trigger] s@[q] != '.',
            dots == 1 ==> start <= dot_at < k && s@[dot_at] == '.' && forall|q: int|
                start <= q < k && #[trigger] s@[q] == '.' ==> q == dot_at,
            dots == 2 ==> exists|p: int, q: int|
                start <= p < q < k && #[trigger] s@[p] == '.' && #[trigger] s@[q] == '.',
        decreases n - k,
    {
        let c = s[k];
        if '0' <= c && c <= '9' {
            digits = true;
        } else if c == '.' {
            if dots == 0 {
                proof {
                    dot_at = k as int;
                }
                dots = 1;
            } else if dots == 1 {
                proof {
                    assert(s@[dot_at] == '.' && s@[k as int] == '.' && dot_at < k);
                }
                dots = 2;
            }
        } else {
            valid = false;
        }
        k += 1;
    }
    let ok = valid && digits && dots <= 1;
    proof {
        let m = s@.subrange(start as int, k as int);
        if ok {
            assert forall|q: int| 0 <= q < m.len() implies (is_ascii_digit(#[trigger] m[q])
                || m[q] == '.') by {
                assert(m[q] == s@[start + q]);
            }
            assert forall|p: int, q: int|
                0 <= p < m.len() && 0 <= q < m.len() && #[trigger] m[p] == '.' && #[trigger] m[q]
                    == '.' implies p == q by {
                assert(m[p] == s@[start + p]);
                assert(m[q] == s@[start + q]);
            }
            let w = choose|q: int| start <= q < k && is_ascii_digit(#[trigger] s@[q]);
            assert(m[w - start] == s@[w]);
        } else if !valid {
            let w = choose|q: int|
                start <= q < k && !(is_ascii_digit(#[trigger] s@[q]) || s@[q] == '.');
            assert(m[w - start] == s@[w]);
        } else if !digits {
            assert forall|q: int| 0 <= q < m.len() implies !is_ascii_digit(#[trigger] m[q]) by {
                assert(m[q] == s@[start + q]);
            }
        } else {
            let (p, q) = choose|p: int, q: int|
                start <= p < q < k && #[trigger] s@[p] == '.' && #[trigger] s@[q] == '.';
            assert(m[p - start] == s@[p]);
            assert(m[q - start] == s@[q]);
        }
    }
    (k, ok)
}

} // verus!
