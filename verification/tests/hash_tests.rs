use local_sync::hash::{hash_bytes, tagged_hex};

#[test]
fn hash_of_empty_content() {
    assert_eq!(
        hash_bytes(b""),
        "sha256:e3b0c44298fc1c149afbf4c8996fb92427ae41e4649b934ca495991b7852b855"
    );
}

#[test]
fn hash_of_abc() {
    assert_eq!(
        hash_bytes(b"abc"),
        "sha256:ba7816bf8f01cfea414140de5dae2223b00361a396177a9cb410ff61f20015ad"
    );
}

#[test]
fn equal_bytes_give_equal_hashes_and_different_bytes_do_not() {
    assert_eq!(hash_bytes(b"same content"), hash_bytes(b"same content"));
    assert_ne!(hash_bytes(b"same content"), hash_bytes(b"same content "));
}

#[test]
fn hash_is_tagged_and_has_fixed_length() {
    let h = hash_bytes(&[0u8; 1000]);
    assert!(h.starts_with("sha256:"));
    assert_eq!(h.len(), 7 + 64);
    assert!(h[7..].chars().all(|c| c.is_ascii_digit() || ('a'..='f').contains(&c)));
}

#[test]
fn tagged_hex_writes_two_lower_case_digits_per_byte() {
    assert_eq!(tagged_hex(&[]), "sha256:");
    assert_eq!(tagged_hex(&[0x00, 0x09, 0x0a, 0x0f, 0x10, 0xab, 0xff]), "sha256:00090a0f10abff");
}

#[test]
fn tagged_hex_covers_every_byte_value() {
    let all: Vec<u8> = (0..=255u8).collect();
    let mut expected = String::from("sha256:");
    for b in &all {
        expected.push_str(&format!("{:02x}", b));
    }
    assert_eq!(tagged_hex(&all), expected);
}
