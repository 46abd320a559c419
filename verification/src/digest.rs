//! SHA-256 content hashes in their lower-case hexadecimal rendering, and the
//! case-insensitive comparison that source locks use.

use vstd::prelude::*;
use sha2::Digest;
use crate::text::{is_hex_digit, is_sha256_text};

verus! {

/// The SHA-256 digest of `data` (FIPS 180-4): 32 bytes.
pub uninterp spec fn sha256(data: Seq<u8>) -> Seq<u8>;

/// `sha2::Sha256::digest`, which feeds `data` to a fresh hasher and returns
/// its 32-byte digest. Claimed: the result is the digest of exactly these
/// bytes, and it has 32 bytes (the `U32` output size of `Sha256`).
#[verifier::external_body]
fn sha256_digest(data: &[u8]) -> (r: Vec<u8>)
    ensures
        r@ == sha256(data@),
        r@.len() == 32,
{
    sha2::Sha256::digest(data).to_vec()
}

/// The lower-case hexadecimal digit of `d < 16`.
pub open spec fn hex_char(d: int) -> char {
    if d < 10 {
        (('0' as int) + d) as char
    } else {
        (('a' as int) + d - 10) as char
    }
}

/// Two lower-case hexadecimal digits per byte, high nibble first, as `{:02x}`
/// and `{:x}` render a digest.
pub open spec fn hex_lower(bytes: Seq<u8>) -> Seq<char>
    decreases bytes.len(),
{
    if bytes.len() == 0 {
        Seq::empty()
    } else {
        hex_lower(bytes.drop_last()) + seq![
            hex_char(bytes.last() as int / 16),
            hex_char(bytes.last() as int % 16),
        ]
    }
}

fn hex_digit_char(d: u8) -> (c: char)
    requires
        d < 16,
    ensures
        c == hex_char(d as int),
{
    let table: [char; 16] = [
        '0', '1', '2', '3', '4', '5', '6', '7', '8', '9', 'a', 'b', 'c', 'd', 'e', 'f',
    ];
    let c = table[d as usize];
    proof {
        assert(table@[d as int] == hex_char(d as int)) by {
            assert(('0' as int) + 0 == '0' as int);
        }
    }
    c
}

/// Lower-case hexadecimal rendering of `bytes`.
pub fn to_hex(bytes: &Vec<u8>) -> (r: String)
    ensures
        r@ == hex_lower(bytes@),
{
    let mut out = String::new();
    let mut i: usize = 0;
    while i < bytes.len()
        invariant
            i <= bytes@.len(),
            out@ == hex_lower(bytes@.take(i as int)),
        decreases bytes@.len() - i,
    {
        let b = bytes[i];
        out.push(hex_digit_char(b / 16));
        out.push(hex_digit_char(b % 16));
        proof {
            assert(bytes@.take(i + 1).drop_last() =~= bytes@.take(i as int));
        }
        i += 1;
    }
    proof {
        assert(bytes@.take(bytes@.len() as int) =~= bytes@);
    }
    out
}

/// The rendering has two hexadecimal digits per byte.
pub proof fn lemma_hex_lower_digits(bytes: Seq<u8>)
    ensures
        hex_lower(bytes).len() == 2 * bytes.len(),
        forall|i: int| 0 <= i < hex_lower(bytes).len() ==> is_hex_digit(#[trigger] hex_lower(bytes)[i]),
    decreases bytes.len(),
{
    if bytes.len() > 0 {
        lemma_hex_lower_digits(bytes.drop_last());
        let hi = bytes.last() as int / 16;
        let lo = bytes.last() as int % 16;
        assert(is_hex_digit(hex_char(hi)) && is_hex_digit(hex_char(lo))) by {
            assert(0 <= hi < 16 && 0 <= lo < 16);
        }
        let prefix = hex_lower(bytes.drop_last());
        assert forall|i: int| 0 <= i < hex_lower(bytes).len() implies is_hex_digit(
            #[trigger] hex_lower(bytes)[i],
        ) by {
            if i < prefix.len() {
                assert(hex_lower(bytes)[i] == prefix[i]);
            }
        }
    }
}

/// The SHA-256 digest of `data` in lower-case hexadecimal: 64 hexadecimal
/// digits, a text that catalogs accept as a content lock.
pub fn hex_digest(data: &[u8]) -> (r: String)
    ensures
        r@ == hex_lower(sha256(data@)),
        is_sha256_text(r@),
{
    let digest = sha256_digest(data);
    proof {
        lemma_hex_lower_digits(digest@);
    }
    to_hex(&digest)
}

/// The ASCII lower-case of a character; others are unchanged.
pub open spec fn ascii_lower(c: char) -> char {
    if 'A' <= c && c <= 'Z' {
        ((c as int) + 32) as char
    } else {
        c
    }
}

/// Equality of two texts when ASCII letters are compared without case.
pub open spec fn eq_ignoring_ascii_case(a: Seq<char>, b: Seq<char>) -> bool {
    a.len() == b.len() && forall|i: int| 0 <= i < a.len() ==> ascii_lower(#[trigger] a[i]) == ascii_lower(b[i])
}

fn lower_char(c: char) -> (r: char)
    ensures
        r == ascii_lower(c),
{
    if 'A' <= c && c <= 'Z' {
        ((c as u32) + 32) as u8 as char
    } else {
        c
    }
}

/// Whether `x` and `y` are equal ignoring ASCII case.
pub fn chars_eq_ignore_ascii_case(x: &Vec<char>, y: &Vec<char>) -> (r: bool)
    ensures
        r == eq_ignoring_ascii_case(x@, y@),
{
    if x.len() != y.len() {
        return false;
    }
    let mut i: usize = 0;
    while i < x.len()
        invariant
            x@.len() == y@.len(),
            i <= x@.len(),
            forall|j: int| 0 <= j < i ==> ascii_lower(#[trigger] x@[j]) == ascii_lower(y@[j]),
        decreases x@.len() - i,
    {
        if lower_char(x[i]) != lower_char(y[i]) {
            return false;
        }
        i += 1;
    }
    true
}

/// Whether `a` and `b` are equal ignoring ASCII case, as `str::eq_ignore_ascii_case`.
pub fn eq_ignore_ascii_case(a: &str, b: &str) -> (r: bool)
    ensures
        r == eq_ignoring_ascii_case(a@, b@),
{
    let x = crate::text::chars_of(a);
    let y = crate::text::chars_of(b);
    chars_eq_ignore_ascii_case(&x, &y)
}

} // verus!
