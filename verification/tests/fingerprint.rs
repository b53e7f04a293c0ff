use clipit::fingerprint::{image_fingerprint, sha256_hex, tagged_fingerprint, to_hex_lower};
use sha2::{Digest, Sha256};

#[test]
fn sha256_hex_of_a_known_text() {
    assert_eq!(
        sha256_hex("hello world"),
        "b94d27b9934d3e08a52e52d7da7dabfac484efe37a5380ee9088f7ace2efcde9"
    );
}

#[test]
fn sha256_hex_of_the_empty_text() {
    assert_eq!(
        sha256_hex(""),
        "e3b0c44298fc1c149afbf4c8996fb92427ae41e4649b934ca495991b7852b855"
    );
}

#[test]
fn hex_is_lower_case_with_two_digits_per_byte() {
    assert_eq!(to_hex_lower(&[0x00, 0x0f, 0xa0, 0xff, 0x7b]), "000fa0ff7b");
    assert_eq!(to_hex_lower(&[]), "");
}

#[test]
fn tagged_fingerprint_hashes_kind_colon_payload() {
    assert_eq!(tagged_fingerprint("text", "abc"), sha256_hex("text:abc"));
    assert_eq!(tagged_fingerprint("file", "/tmp/a"), sha256_hex("file:/tmp/a"));
}

#[test]
fn tagged_fingerprint_hashes_utf8_bytes() {
    let mut hasher = Sha256::new();
    hasher.update("text:héllo ✓".as_bytes());
    let expected = format!("{:x}", hasher.finalize());
    assert_eq!(tagged_fingerprint("text", "héllo ✓"), expected);
}

#[test]
fn text_and_file_fingerprints_of_the_same_payload_differ() {
    assert_ne!(tagged_fingerprint("text", "/tmp/a"), tagged_fingerprint("file", "/tmp/a"));
}

#[test]
fn image_fingerprint_hashes_tag_dimensions_and_pixels() {
    let pixels: Vec<u8> = vec![1, 2, 3, 4, 5, 6, 7, 8];
    let mut hasher = Sha256::new();
    hasher.update(b"image:");
    hasher.update(2u64.to_le_bytes());
    hasher.update(1u64.to_le_bytes());
    hasher.update(&pixels);
    let expected = format!("{:x}", hasher.finalize());
    assert_eq!(image_fingerprint(2, 1, &pixels), expected);
}

#[test]
fn image_fingerprint_depends_on_the_dimensions() {
    let pixels: Vec<u8> = vec![0; 16];
    assert_ne!(image_fingerprint(2, 2, &pixels), image_fingerprint(4, 1, &pixels));
    assert_ne!(image_fingerprint(2, 2, &pixels), image_fingerprint(1, 4, &pixels));
}

#[test]
fn image_and_text_fingerprints_differ() {
    assert_ne!(image_fingerprint(0, 0, &[]), tagged_fingerprint("text", ""));
    assert_ne!(image_fingerprint(0, 0, &[]), sha256_hex("image:"));
}
