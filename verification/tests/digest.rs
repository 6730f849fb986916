use image_registry::digest::{compute, verify, Digest};
use image_registry::hex::hex_digit_value;
use image_registry::text::{decimal_text, same_text};

const HELLO_WORLD: &str = "sha256:b94d27b9934d3e08a52e52d7da7dabfac484efe37a5380ee9088f7ace2efcde9";
const EMPTY: &str = "sha256:e3b0c44298fc1c149afbf4c8996fb92427ae41e4649b934ca495991b7852b855";

#[test]
fn compute_hashes_hello_world() {
    assert_eq!(compute(b"hello world").to_text(), HELLO_WORLD);
}

#[test]
fn compute_hashes_empty_input() {
    assert_eq!(compute(b"").to_text(), EMPTY);
}

#[test]
fn compute_is_deterministic() {
    assert_eq!(compute(b"abc"), compute(b"abc"));
    assert_ne!(compute(b"abc"), compute(b"abd"));
}

#[test]
fn hex_is_the_hash_portion() {
    assert_eq!(
        compute(b"abc").hex(),
        "ba7816bf8f01cfea414140de5dae2223b00361a396177a9cb410ff61f20015ad"
    );
}

#[test]
fn parse_reads_what_compute_writes() {
    let parsed = Digest::parse(HELLO_WORLD).unwrap();
    assert_eq!(parsed, compute(b"hello world"));
    assert!(parsed.same_as(&compute(b"hello world")));
    assert_eq!(parsed.to_text(), HELLO_WORLD);
}

#[test]
fn parse_takes_hex_of_either_case() {
    let upper = HELLO_WORLD.replace("b94d27b9934d3e08", "B94D27B9934D3E08");
    assert_ne!(upper, HELLO_WORLD);
    let parsed = Digest::parse(&upper).unwrap();
    assert_eq!(parsed, compute(b"hello world"));
    assert_eq!(parsed.to_text(), HELLO_WORLD);
}

#[test]
fn parse_takes_other_algorithms() {
    let parsed = Digest::parse("md5:00ff10").unwrap();
    assert_eq!(parsed.to_text(), "md5:00ff10");
    assert_eq!(parsed.hex(), "00ff10");
    assert_ne!(parsed, Digest::parse("sha1:00ff10").unwrap());
}

#[test]
fn parse_refuses_malformed_text() {
    assert!(Digest::parse("").is_none());
    assert!(Digest::parse("sha256").is_none());
    assert!(Digest::parse("sha256:").is_none());
    assert!(Digest::parse(":abcd").is_none());
    assert!(Digest::parse("sha256:abc").is_none());
    assert!(Digest::parse("sha256:zz").is_none());
    assert!(Digest::parse("SHA256:abcd").is_none());
    assert!(Digest::parse("sha256:ab:cd").is_none());
    assert!(Digest::parse("sha256 :abcd").is_none());
    assert!(Digest::parse("sha256:\u{e9}\u{e9}").is_none());
    assert!(Digest::parse("b94d27b9934d3e08").is_none());
}

#[test]
fn verify_accepts_the_digest_of_the_data() {
    assert!(verify(b"hello world", &Digest::parse(HELLO_WORLD).unwrap()));
    assert!(verify(b"", &Digest::parse(EMPTY).unwrap()));
}

#[test]
fn verify_refuses_another_digest() {
    assert!(!verify(b"hello world!", &Digest::parse(HELLO_WORLD).unwrap()));
    assert!(!verify(b"hello world", &Digest::parse(EMPTY).unwrap()));
    let other_tag = HELLO_WORLD.replace("sha256", "sha512");
    assert!(!verify(b"hello world", &Digest::parse(&other_tag).unwrap()));
}

#[test]
fn clone_is_the_same_digest() {
    let d = compute(b"layer");
    assert_eq!(d.clone(), d);
}

#[test]
fn hex_digit_values() {
    assert_eq!(hex_digit_value(b'0'), Some(0));
    assert_eq!(hex_digit_value(b'9'), Some(9));
    assert_eq!(hex_digit_value(b'a'), Some(10));
    assert_eq!(hex_digit_value(b'f'), Some(15));
    assert_eq!(hex_digit_value(b'A'), Some(10));
    assert_eq!(hex_digit_value(b'F'), Some(15));
    assert_eq!(hex_digit_value(b'g'), None);
    assert_eq!(hex_digit_value(b':'), None);
}

#[test]
fn decimal_text_of_numbers() {
    assert_eq!(decimal_text(0), "0");
    assert_eq!(decimal_text(7), "7");
    assert_eq!(decimal_text(11), "11");
    assert_eq!(decimal_text(1024), "1024");
    assert_eq!(decimal_text(usize::MAX), usize::MAX.to_string());
}

#[test]
fn same_text_compares_texts() {
    assert!(same_text("", ""));
    assert!(same_text("app", "app"));
    assert!(same_text("d\u{e9}p\u{f4}t", "d\u{e9}p\u{f4}t"));
    assert!(!same_text("app", "apq"));
    assert!(!same_text("app", "ap"));
    assert!(!same_text("app", "App"));
    assert!(!same_text("d\u{e9}p", "d\u{e8}p"));
}
