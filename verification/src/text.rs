//! Character classes and small text checks shared by the manifest validators.

use vstd::prelude::*;

verus! {

broadcast use vstd::string::group_string_axioms;

/// `String::push` appends one character.
pub assume_specification[ String::push ](s: &mut String, ch: char)
    ensures
        final(s)@ == old(s)@.push(ch),
;

/// Unicode `White_Space`, the class that `char::is_whitespace` and `str::trim` use.
pub open spec fn is_white_space(c: char) -> bool {
    ||| ('\u{9}' <= c && c <= '\u{d}')
    ||| c == ' '
    ||| c == '\u{85}'
    ||| c == '\u{a0}'
    ||| c == '\u{1680}'
    ||| ('\u{2000}' <= c && c <= '\u{200a}')
    ||| c == '\u{2028}'
    ||| c == '\u{2029}'
    ||| c == '\u{202f}'
    ||| c == '\u{205f}'
    ||| c == '\u{3000}'
}

/// A text is blank when trimming it leaves nothing.
pub open spec fn is_blank(s: Seq<char>) -> bool {
    forall|i: int| 0 <= i < s.len() ==> is_white_space(#[trigger] s[i])
}

pub open spec fn is_ascii_digit(c: char) -> bool {
    '0' <= c && c <= '9'
}

pub open spec fn is_hex_digit(c: char) -> bool {
    ||| is_ascii_digit(c)
    ||| ('a' <= c && c <= 'f')
    ||| ('A' <= c && c <= 'F')
}

pub open spec fn is_ascii_alphanumeric(c: char) -> bool {
    ||| is_ascii_digit(c)
    ||| ('a' <= c && c <= 'z')
    ||| ('A' <= c && c <= 'Z')
}

/// Exactly 64 hexadecimal digits.
pub open spec fn is_sha256_text(s: Seq<char>) -> bool {
    &&& s.len() == 64
    &&& forall|i: int| 0 <= i < s.len() ==> is_hex_digit(#[trigger] s[i])
}

pub open spec fn https_scheme() -> Seq<char> {
    seq!['h', 't', 't', 'p', 's', ':', '/', '/']
}

/// `https://` followed by at least one more character.
pub open spec fn is_https_url_text(s: Seq<char>) -> bool {
    s.len() > 8 && s.take(8) == https_scheme()
}

/// Non-empty, made of ASCII letters, digits, `_` and `-`.
pub open spec fn is_safe_identifier_text(s: Seq<char>) -> bool {
    &&& s.len() > 0
    &&& forall|i: int|
        0 <= i < s.len() ==> (is_ascii_alphanumeric(#[trigger] s[i]) || s[i] == '_' || s[i]
            == '-')
}

pub fn chars_of(s: &str) -> (v: Vec<char>)
    ensures
        v@ == s@,
{
    let mut v: Vec<char> = Vec::new();
    for c in it: s.chars()
        invariant
            it.seq() == s@,
            v@ == s@.take(it.index() as int),
    {
        v.push(c);
    }
    v
}

pub fn white_space(c: char) -> (r: bool)
    ensures
        r == is_white_space(c),
{
    ('\u{9}' <= c && c <= '\u{d}') || c == ' ' || c == '\u{85}' || c == '\u{a0}' || c
        == '\u{1680}' || ('\u{2000}' <= c && c <= '\u{200a}') || c == '\u{2028}' || c
        == '\u{2029}' || c == '\u{202f}' || c == '\u{205f}' || c == '\u{3000}'
}

pub fn hex_digit(c: char) -> (r: bool)
    ensures
        r == is_hex_digit(c),
{
    ('0' <= c && c <= '9') || ('a' <= c && c <= 'f') || ('A' <= c && c <= 'F')
}

pub fn alphanumeric(c: char) -> (r: bool)
    ensures
        r == is_ascii_alphanumeric(c),
{
    ('0' <= c && c <= '9') || ('a' <= c && c <= 'z') || ('A' <= c && c <= 'Z')
}

/// Whether `s.trim().is_empty()`.
pub fn is_blank_text(s: &str) -> (r: bool)
    ensures
        r == is_blank(s@),
{
    let v = chars_of(s);
    let mut i: usize = 0;
    while i < v.len()
        invariant
            v@ == s@,
            i <= v.len(),
            forall|j: int| 0 <= j < i ==> is_white_space(#[trigger] s@[j]),
        decreases v.len() - i,
    {
        if !white_space(v[i]) {
            return false;
        }
        i += 1;
    }
    true
}

/// A SHA-256 hexadecimal digest: 64 hexadecimal digits in either case.
pub fn is_sha256(s: &str) -> (r: bool)
    ensures
        r == is_sha256_text(s@),
{
    let v = chars_of(s);
    if v.len() != 64 {
        return false;
    }
    let mut i: usize = 0;
    while i < v.len()
        invariant
            v@ == s@,
            i <= v.len(),
            forall|j: int| 0 <= j < i ==> is_hex_digit(#[trigger] s@[j]),
        decreases v.len() - i,
    {
        if !hex_digit(v[i]) {
            return false;
        }
        i += 1;
    }
    true
}

/// An `https://` URL with something after the scheme.
pub fn is_https_url(s: &str) -> (r: bool)
    ensures
        r == is_https_url_text(s@),
{
    let v = chars_of(s);
    if v.len() <= 8 {
        return false;
    }
    let ok = v[0] == 'h' && v[1] == 't' && v[2] == 't' && v[3] == 'p' && v[4] == 's' && v[5]
        == ':' && v[6] == '/' && v[7] == '/';
    proof {
        if ok {
            assert(s@.take(8) =~= https_scheme());
        } else {
            assert(s@.take(8)[0] == s@[0]);
            assert(s@.take(8)[1] == s@[1]);
            assert(s@.take(8)[2] == s@[2]);
            assert(s@.take(8)[3] == s@[3]);
            assert(s@.take(8)[4] == s@[4]);
            assert(s@.take(8)[5] == s@[5]);
            assert(s@.take(8)[6] == s@[6]);
            assert(s@.take(8)[7] == s@[7]);
        }
    }
    ok
}

/// Non-empty and made only of ASCII letters, digits, `_` and `-`.
pub fn is_safe_identifier(s: &str) -> (r: bool)
    ensures
        r == is_safe_identifier_text(s@),
{
    let v = chars_of(s);
    if v.len() == 0 {
        return false;
    }
    let mut i: usize = 0;
    while i < v.len()
        invariant
            v@ == s@,
            i <= v.len(),
            forall|j: int|
                0 <= j < i ==> (is_ascii_alphanumeric(#[trigger] s@[j]) || s@[j] == '_' || s@[j]
                    == '-'),
        decreases v.len() - i,
    {
        let c = v[i];
        if !(alphanumeric(c) || c == '_' || c == '-') {
            return false;
        }
        i += 1;
    }
    true
}

/// Equality of two texts.
pub fn text_eq(a: &str, b: &str) -> (r: bool)
    ensures
        r == (a@ == b@),
{
    let x = chars_of(a);
    let y = chars_of(b);
    if x.len() != y.len() {
        return false;
    }
    let mut i: usize = 0;
    while i < x.len()
        invariant
            x@ == a@,
            y@ == b@,
            x.len() == y.len(),
            i <= x.len(),
            forall|j: int| 0 <= j < i ==> a@[j] == b@[j],
        decreases x.len() - i,
    {
        if x[i] != y[i] {
            return false;
        }
        i += 1;
    }
    assert(a@ =~= b@);
    true
}

/// Owned copy of a text.
pub fn owned(s: &str) -> (r: String)
    ensures
        r@ == s@,
{
    s.to_owned()
}

/// `seq![item]` when `flag` holds, otherwise nothing.
pub open spec fn only_if<T>(flag: bool, item: T) -> Seq<T> {
    if flag {
        seq![item]
    } else {
        Seq::empty()
    }
}

/// The decimal digit character for `d < 10`.
pub open spec fn digit_char(d: int) -> char {
    if d == 0 { '0' }
    else if d == 1 { '1' }
    else if d == 2 { '2' }
    else if d == 3 { '3' }
    else if d == 4 { '4' }
    else if d == 5 { '5' }
    else if d == 6 { '6' }
    else if d == 7 { '7' }
    else if d == 8 { '8' }
    else { '9' }
}

/// Decimal rendering of a natural number, as `{}` formats it.
pub open spec fn decimal(n: nat) -> Seq<char>
    decreases n,
{
    if n < 10 {
        seq![digit_char(n as int)]
    } else {
        decimal(n / 10).push(digit_char((n % 10) as int))
    }
}

fn digit_of(d: u64) -> (c: char)
    requires
        d < 10,
    ensures
        c == digit_char(d as int),
{
    if d == 0 { '0' }
    else if d == 1 { '1' }
    else if d == 2 { '2' }
    else if d == 3 { '3' }
    else if d == 4 { '4' }
    else if d == 5 { '5' }
    else if d == 6 { '6' }
    else if d == 7 { '7' }
    else if d == 8 { '8' }
    else { '9' }
}

fn push_decimal(out: &mut String, n: u64)
    ensures
        final(out)@ == old(out)@ + decimal(n as nat),
    decreases n,
{
    if n < 10 {
        out.push(digit_of(n));
        assert(decimal(n as nat) == seq![digit_char(n as int)]);
    } else {
        push_decimal(out, n / 10);
        out.push(digit_of(n % 10));
        assert(decimal(n as nat) == decimal((n / 10) as nat).push(digit_char((n % 10) as int)));
    }
}

/// Append the decimal rendering of `n`.
pub fn append_decimal(out: &mut String, n: u64)
    ensures
        final(out)@ == old(out)@ + decimal(n as nat),
{
    push_decimal(out, n);
}

/// Append a text.
pub fn append_text(out: &mut String, s: &str)
    ensures
        final(out)@ == old(out)@ + s@,
{
    let v = chars_of(s);
    let ghost start = out@;
    let mut i: usize = 0;
    while i < v.len()
        invariant
            v@ == s@,
            i <= v.len(),
            out@ == start + s@.take(i as int),
        decreases v.len() - i,
    {
        out.push(v[i]);
        assert(s@.take(i + 1) =~= s@.take(i as int).push(s@[i as int]));
        i += 1;
    }
    assert(s@.take(v.len() as int) =~= s@);
}

/// `prefix[index]suffix`, the shape of an indexed field path.
pub open spec fn indexed(prefix: Seq<char>, index: nat, suffix: Seq<char>) -> Seq<char> {
    prefix + seq!['['] + decimal(index) + seq![']'] + suffix
}

/// Render `prefix[index]suffix`.
pub fn indexed_path(prefix: &str, index: usize, suffix: &str) -> (r: String)
    ensures
        r@ == indexed(prefix@, index as nat, suffix@),
{
    let mut out = owned(prefix);
    out.push('[');
    append_decimal(&mut out, index as u64);
    out.push(']');
    append_text(&mut out, suffix);
    out
}

/// A whole `..` path segment starts at `i`.
pub open spec fn dot_dot_segment_at(s: Seq<char>, i: int) -> bool {
    &&& 0 <= i
    &&& i + 1 < s.len()
    &&& s[i] == '.'
    &&& s[i + 1] == '.'
    &&& (i == 0 || s[i - 1] == '/')
    &&& (i + 2 == s.len() || s[i + 2] == '/')
}

/// The path begins with a `.` segment, which `Path::components` keeps as `CurDir`.
pub open spec fn leading_dot_segment(s: Seq<char>) -> bool {
    s.len() > 0 && s[0] == '.' && (s.len() == 1 || s[1] == '/')
}

/// A non-empty relative path whose `Path::components` are all `Normal`: it does not
/// start at the root, does not start with a `.` segment (later `.` segments and
/// repeated separators are normalized away) and has no `..` segment.
pub open spec fn is_normal_relative_path(s: Seq<char>) -> bool {
    &&& s.len() > 0
    &&& s[0] != '/'
    &&& !leading_dot_segment(s)
    &&& forall|i: int| !#[trigger] dot_dot_segment_at(s, i)
}

/// Whether `s` contains `c`.
pub open spec fn contains_char(s: Seq<char>, c: char) -> bool {
    exists|i: int| 0 <= i < s.len() && s[i] == c
}

/// Whether `value` is a non-empty relative path made only of normal components.
pub fn normal_relative_path(value: &str) -> (r: bool)
    ensures
        r == is_normal_relative_path(value@),
{
    let v = chars_of(value);
    let n = v.len();
    if n == 0 || v[0] == '/' {
        return false;
    }
    if v[0] == '.' && (n == 1 || v[1] == '/') {
        return false;
    }
    let mut i: usize = 0;
    while i < n
        invariant
            v@ == value@,
            n == v.len(),
            i <= n,
            forall|j: int| 0 <= j < i ==> !#[trigger] dot_dot_segment_at(value@, j),
        decreases n - i,
    {
        if i + 1 < n && v[i] == '.' && v[i + 1] == '.' && (i == 0 || v[i - 1] == '/') && (i + 2
            == n || v[i + 2] == '/') {
            assert(dot_dot_segment_at(value@, i as int));
            return false;
        }
        i += 1;
    }
    assert forall|j: int| !#[trigger] dot_dot_segment_at(value@, j) by {
        if 0 <= j < n {
        }
    }
    true
}

/// Whether `value` contains the character `c`.
pub fn has_char(value: &str, c: char) -> (r: bool)
    ensures
        r == contains_char(value@, c),
{
    let v = chars_of(value);
    let mut i: usize = 0;
    while i < v.len()
        invariant
            v@ == value@,
            i <= v.len(),
            forall|j: int| 0 <= j < i ==> value@[j] != c,
        decreases v.len() - i,
    {
        if v[i] == c {
            return true;
        }
        i += 1;
    }
    false
}

/// The characters `v[start..end]` as a text.
pub fn text_of_range(v: &Vec<char>, start: usize, end: usize) -> (r: String)
    requires
        start <= end <= v@.len(),
    ensures
        r@ == v@.subrange(start as int, end as int),
{
    let mut out = String::new();
    let mut i: usize = start;
    while i < end
        invariant
            start <= i <= end <= v@.len(),
            out@ == v@.subrange(start as int, i as int),
        decreases end - i,
    {
        out.push(v[i]);
        assert(v@.subrange(start as int, i + 1) =~= v@.subrange(start as int, i as int).push(
            v@[i as int],
        ));
        i += 1;
    }
    out
}

/// Whether the characters of `v` end with those of `suffix`.
pub fn ends_with_chars(v: &Vec<char>, suffix: &Vec<char>) -> (r: bool)
    ensures
        r == (v@.len() >= suffix@.len() && v@.skip(v@.len() - suffix@.len()) == suffix@),
{
    if v.len() < suffix.len() {
        return false;
    }
    let n = v.len();
    let off = n - suffix.len();
    let mut i: usize = 0;
    while i < suffix.len()
        invariant
            n == v@.len(),
            off + suffix@.len() == v@.len(),
            i <= suffix@.len(),
            forall|j: int| 0 <= j < i ==> v@[off + j] == suffix@[j],
        decreases suffix@.len() - i,
    {
        if v[off + i] != suffix[i] {
            assert(v@.skip(off as int)[i as int] == v@[off + i]);
            return false;
        }
        i += 1;
    }
    assert(v@.skip(off as int) =~= suffix@);
    true
}

/// Whether the characters `v` spell the text `w`.
pub fn chars_are(v: &Vec<char>, w: &str) -> (r: bool)
    ensures
        r == (v@ == w@),
{
    let x = chars_of(w);
    if x.len() != v.len() {
        return false;
    }
    let mut i: usize = 0;
    while i < x.len()
        invariant
            x@ == w@,
            x@.len() == v@.len(),
            i <= x@.len(),
            forall|j: int| 0 <= j < i ==> v@[j] == w@[j],
        decreases x@.len() - i,
    {
        if x[i] != v[i] {
            return false;
        }
        i += 1;
    }
    assert(v@ =~= w@);
    true
}

/// The decimal rendering of a signed integer.
pub open spec fn signed_decimal(n: int) -> Seq<char> {
    if n < 0 {
        seq!['-'] + decimal((-n) as nat)
    } else {
        decimal(n as nat)
    }
}

/// Append the decimal rendering of a signed integer.
pub fn append_signed(out: &mut String, n: i64)
    ensures
        final(out)@ == old(out)@ + signed_decimal(n as int),
{
    if n < 0 {
        out.push('-');
        let magnitude: u64 = if n == i64::MIN {
            9223372036854775808u64
        } else {
            (-n) as u64
        };
        append_decimal(out, magnitude);
        proof {
            vstd::seq_lib::lemma_concat_associative(
                old(out)@,
                seq!['-'],
                decimal(magnitude as nat),
            );
        }
    } else {
        append_decimal(out, n as u64);
    }
}

/// `t` occurs in `s` at position `i`.
pub open spec fn occurs_at(s: Seq<char>, t: Seq<char>, i: int) -> bool {
    0 <= i && i + t.len() <= s.len() && s.subrange(i, i + t.len()) == t
}

/// `t` occurs somewhere in `s`, as `str::contains` tests.
pub open spec fn has_substring(s: Seq<char>, t: Seq<char>) -> bool {
    exists|i: int| #[trigger] occurs_at(s, t, i)
}

pub fn contains_text(s: &str, t: &str) -> (r: bool)
    ensures
        r == has_substring(s@, t@),
{
    let a = chars_of(s);
    let b = chars_of(t);
    if b.len() > a.len() {
        proof {
            assert forall|i: int| !#[trigger] occurs_at(s@, t@, i) by {}
        }
        return false;
    }
    let n = a.len();
    let last = n - b.len();
    let mut i: usize = 0;
    while i <= last
        invariant
            a@ == s@,
            b@ == t@,
            n == a@.len(),
            last == a@.len() - b@.len(),
            b@.len() <= a@.len(),
            i <= a@.len() - b@.len() + 1,
            forall|k: int| 0 <= k < i ==> !#[trigger] occurs_at(s@, t@, k),
        decreases a@.len() - i,
    {
        let mut j: usize = 0;
        let mut same = true;
        while j < b.len()
            invariant
                a@ == s@,
                b@ == t@,
                n == a@.len(),
                i + b@.len() <= a@.len(),
                j <= b@.len(),
                same == forall|q: int| 0 <= q < j ==> a@[i + q] == b@[q],
            decreases b@.len() - j,
        {
            if a[i + j] != b[j] {
                same = false;
            }
            j += 1;
        }
        if same {
            proof {
                assert(s@.subrange(i as int, i + t@.len()) =~= t@);
                assert(occurs_at(s@, t@, i as int));
            }
            return true;
        }
        proof {
            assert(!occurs_at(s@, t@, i as int)) by {
                if occurs_at(s@, t@, i as int) {
                    assert forall|q: int| 0 <= q < b@.len() implies a@[i + q] == b@[q] by {
                        assert(s@.subrange(i as int, i + t@.len())[q] == s@[i + q]);
                    }
                }
            }
        }
        i += 1;
    }
    proof {
        assert forall|k: int| !#[trigger] occurs_at(s@, t@, k) by {
            if 0 <= k < i {
            }
        }
    }
    false
}

} // verus!
