use chiyoda_core::bundle::{canonical_hash, verifies_hash};
use chiyoda_core::digest::{eq_ignore_ascii_case, hex_digest, to_hex};

#[test]
fn hex_digest_is_the_lowercase_sha256() {
    assert_eq!(
        hex_digest(b""),
        "e3b0c44298fc1c149afbf4c8996fb92427ae41e4649b934ca495991b7852b855"
    );
    assert_eq!(
        hex_digest(b"abc"),
        "ba7816bf8f01cfea414140de5dae2223b00361a396177a9cb410ff61f20015ad"
    );
}

#[test]
fn bytes_render_as_two_lowercase_digits_each() {
    assert_eq!(to_hex(&vec![0x00, 0x0f, 0xa0, 0xff]), "000fa0ff");
}

#[test]
fn a_recorded_hash_verifies_only_its_own_serialization() {
    let serialized = br#"{"scenario":"x"}"#;
    let recorded = canonical_hash(serialized);
    assert!(verifies_hash(&recorded, serialized));
    assert!(!verifies_hash(&recorded, br#"{"scenario":"y"}"#));
}

#[test]
fn ascii_case_is_ignored_only_for_letters() {
    assert!(eq_ignore_ascii_case("AbC-1", "aBc-1"));
    assert!(!eq_ignore_ascii_case("abc", "abd"));
    assert!(!eq_ignore_ascii_case("abc", "abcd"));
}
