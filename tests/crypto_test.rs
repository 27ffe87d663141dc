use contract_core::crypto::Signature;

#[test]
fn test_hash_creation() {
    let data = b"test data";
    let hash = contract_core::crypto::Hash::new(data);
    assert_eq!(hash.0.len(), 32);
}

#[test]
fn test_hash_to_hex() {
    let data = b"test data";
    let hash = contract_core::crypto::Hash::new(data);
    let hex = hash.to_hex();
    assert_eq!(hex.len(), 64);
    assert!(hex.chars().all(|c| c.is_ascii_hexdigit()));
}

#[test]
fn empty_input_has_the_blake3_empty_digest() {
    let hash = contract_core::crypto::Hash::new(b"");
    assert_eq!(
        hash.to_hex(),
        "af1349b9f5f9a1a6a0404dea36dcc9499bcb25c9adc112b7cc9a93cae41f3262"
    );
}

#[test]
fn hex_is_two_lowercase_digits_per_byte() {
    let mut bytes = [0u8; 32];
    bytes[0] = 0xab;
    bytes[1] = 0x05;
    bytes[31] = 0xf0;
    let hash = contract_core::crypto::Hash(bytes);
    let hex = hash.to_hex();
    assert!(hex.starts_with("ab05"));
    assert!(hex.ends_with("f0"));
    assert_eq!(hash.to_bytes(), &bytes[..]);
}

#[test]
fn hashes_compare_by_bytes() {
    let a = contract_core::crypto::Hash::new(b"x");
    let b = contract_core::crypto::Hash::new(b"x");
    let c = contract_core::crypto::Hash::new(b"y");
    assert_eq!(a, b);
    assert_ne!(a, c);
    let sig = Signature(vec![1, 2, 3]);
    assert_eq!(sig.to_bytes(), &[1u8, 2, 3][..]);
}
