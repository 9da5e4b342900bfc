use ocipkg::digest::{to_hex, Algorithm, Digest};

const EMPTY: &str = "sha256:e3b0c44298fc1c149afbf4c8996fb92427ae41e4649b934ca495991b7852b855";
const ABC: &str = "sha256:ba7816bf8f01cfea414140de5dae2223b00361a396177a9cb410ff61f20015ad";

#[test]
fn digest_of_empty_input() {
    let d = Digest::of_bytes(b"");
    assert_eq!(d.to_string(), EMPTY);
}

#[test]
fn digest_of_abc() {
    let d = Digest::of_bytes(b"abc");
    assert_eq!(d.to_string(), ABC);
    assert_eq!(d.hex(), &ABC[7..]);
    assert_eq!(d.algorithm(), Algorithm::Sha256);
}

#[test]
fn digest_is_stable_across_computations() {
    let data = b"the same bytes, hashed twice".to_vec();
    let first = Digest::of_bytes(&data);
    let second = Digest::of_bytes(&data.clone());
    assert_eq!(first, second);
    assert!(first.equals(&second));
    assert_eq!(first.to_string(), second.to_string());
}

#[test]
fn digest_differs_for_different_content() {
    let a = Digest::of_bytes(b"abc");
    let b = Digest::of_bytes(b"abd");
    assert!(!a.equals(&b));
    assert_ne!(a, b);
}

#[test]
fn digest_parses_its_own_text() {
    let d = Digest::of_bytes(b"abc");
    let parsed = Digest::parse(&d.to_string()).unwrap();
    assert_eq!(parsed, d);
    assert!(parsed.clone().equals(&d));
}

#[test]
fn digest_parse_rejects_malformed_text() {
    let upper = ABC.to_uppercase();
    for text in [
        "",
        "sha256:",
        "sha256:abc",
        "ba7816bf8f01cfea414140de5dae2223b00361a396177a9cb410ff61f20015ad",
        "sha512:ba7816bf8f01cfea414140de5dae2223b00361a396177a9cb410ff61f20015ad",
        "sha256:ba7816bf8f01cfea414140de5dae2223b00361a396177a9cb410ff61f20015a",
        "sha256:ba7816bf8f01cfea414140de5dae2223b00361a396177a9cb410ff61f20015adf",
        "sha256:ga7816bf8f01cfea414140de5dae2223b00361a396177a9cb410ff61f20015ad",
        "sha256-ba7816bf8f01cfea414140de5dae2223b00361a396177a9cb410ff61f20015ad",
        upper.as_str(),
    ] {
        assert_eq!(Digest::parse(text), None, "{}", text);
    }
}

#[test]
fn digest_verifies_content() {
    let d = Digest::parse(ABC).unwrap();
    assert!(d.verify(b"abc"));
    assert!(!d.verify(b"abC"));
    assert!(!d.verify(b""));
}

#[test]
fn hex_is_lowercase_and_high_half_first() {
    assert_eq!(to_hex(&[]), "");
    assert_eq!(to_hex(&[0x00, 0x0f, 0xf0, 0xab, 0x9a, 0xff]), "000ff0ab9aff");
}
