use desmos_image::hash::{graph_hash, hex_prefix_of, random_seed, resolve_hash, validate_hash, HashError};
use desmos_image::text::{push_decimal, push_hex_padded, push_signed_decimal};

#[test]
fn accepts_alphanumeric_hash() {
    assert_eq!(validate_hash("abc123defg"), Ok(()));
    assert_eq!(validate_hash("ABCDEFGHIJ"), Ok(()));
}

#[test]
fn short_hash_is_refused() {
    assert_eq!(validate_hash("short"), Err(HashError::Length));
    assert_eq!(validate_hash(""), Err(HashError::Length));
    assert_eq!(validate_hash("abc123defgh"), Err(HashError::Length));
}

#[test]
fn hash_with_symbol_is_refused() {
    assert_eq!(validate_hash("abc123def!"), Err(HashError::Charset));
    assert_eq!(validate_hash("abc 23defg"), Err(HashError::Charset));
}

#[test]
fn supplied_hash_is_kept_verbatim() {
    assert_eq!(resolve_hash(Some("abc123defg"), 5), Ok("abc123defg".to_string()));
    assert_eq!(resolve_hash(Some("short"), 5), Err(HashError::Length));
    assert_eq!(graph_hash(Some("abc123defg")), Ok("abc123defg".to_string()));
}

#[test]
fn generated_hash_is_leading_hex_digits() {
    let n: u128 = 0x0123456789abcdef_fedcba9876543210;
    assert_eq!(resolve_hash(None, n), Ok("0123456789".to_string()));
    assert_eq!(resolve_hash(None, 0), Ok("0000000000".to_string()));
    assert_eq!(hex_prefix_of(n, 16), "0123456789abcdef");
    assert_eq!(hex_prefix_of(n, 32), "0123456789abcdeffedcba9876543210");
    assert_eq!(hex_prefix_of(n, 0), "");
}

#[test]
fn generated_hash_passes_the_checks() {
    let h = graph_hash(None).unwrap();
    assert_eq!(h.len(), 10);
    assert_eq!(validate_hash(&h), Ok(()));
    assert!(h.chars().all(|c| c.is_ascii_hexdigit() && !c.is_ascii_uppercase()));
}

#[test]
fn seed_has_sixteen_hex_digits() {
    let s = random_seed();
    assert_eq!(s.len(), 16);
    assert!(s.chars().all(|c| c.is_ascii_hexdigit() && !c.is_ascii_uppercase()));
}

#[test]
fn decimal_forms() {
    let mut s = String::new();
    push_decimal(&mut s, 0);
    s.push(' ');
    push_decimal(&mut s, 1234567890);
    s.push(' ');
    push_signed_decimal(&mut s, -170);
    s.push(' ');
    push_signed_decimal(&mut s, i64::MIN);
    s.push(' ');
    push_hex_padded(&mut s, 255, 4);
    assert_eq!(s, "0 1234567890 -170 -9223372036854775808 00ff");
}
