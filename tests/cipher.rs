use cred_man::container::{encode_container, parse_container};
use cred_man::crypto::{decrypt, derive_key, encrypt, generate_salt, seal};

#[test]
fn round_trip() {
    let text = "[{\"key\":\"bank\"}]";
    let c = encrypt(text, "correct horse").unwrap();
    assert_eq!(decrypt(&c, "correct horse").as_deref(), Some(text));
}

#[test]
fn round_trip_of_empty_text() {
    let c = encrypt("", "correct horse").unwrap();
    assert_eq!(decrypt(&c, "correct horse").as_deref(), Some(""));
}

#[test]
fn round_trip_of_non_ascii_text() {
    let text = "päss wörd ✓ 🎉";
    let c = encrypt(text, "pässwörd").unwrap();
    assert_eq!(decrypt(&c, "pässwörd").as_deref(), Some(text));
}

#[test]
fn round_trip_with_empty_password() {
    let c = encrypt("data", "").unwrap();
    assert_eq!(decrypt(&c, "").as_deref(), Some("data"));
}

#[test]
fn wrong_password_gives_nothing() {
    let c = encrypt("secret", "first").unwrap();
    assert_eq!(decrypt(&c, "second"), None);
    assert_eq!(decrypt(&c, "First"), None);
    assert_eq!(decrypt(&c, ""), None);
}

fn flipped(bytes: &[u8], at: usize, bit: u8) -> Vec<u8> {
    let mut b = bytes.to_vec();
    b[at] ^= 1 << bit;
    b
}

#[test]
fn flipping_a_ciphertext_bit_is_detected() {
    let c = encrypt("tamper me", "pw").unwrap();
    let b = encode_container(&c);
    for (at, bit) in [(55usize, 0u8), (59, 7), (b.len() - 1, 4)] {
        let t = parse_container(&flipped(&b, at, bit)).unwrap();
        assert_eq!(decrypt(&t, "pw"), None);
    }
}

#[test]
fn flipping_a_tag_bit_is_detected() {
    let c = encrypt("tamper me", "pw").unwrap();
    let b = encode_container(&c);
    for (at, bit) in [(39usize, 3u8), (54, 0)] {
        let t = parse_container(&flipped(&b, at, bit)).unwrap();
        assert_eq!(decrypt(&t, "pw"), None);
    }
}

#[test]
fn flipping_a_nonce_or_salt_bit_is_detected() {
    let c = encrypt("tamper me", "pw").unwrap();
    let b = encode_container(&c);
    let t = parse_container(&flipped(&b, 30, 0)).unwrap();
    assert_eq!(decrypt(&t, "pw"), None);
    let t = parse_container(&flipped(&b, 12, 0)).unwrap();
    assert_eq!(decrypt(&t, "pw"), None);
}

#[test]
fn salt_and_nonce_are_fresh() {
    let a = encrypt("same text", "same password").unwrap();
    let b = encrypt("same text", "same password").unwrap();
    assert_ne!(a.salt(), b.salt());
    assert_ne!(a.nonce(), b.nonce());
    assert_ne!(a.ciphertext(), b.ciphertext());
    assert_eq!(a.salt().len(), 16);
    assert_eq!(a.nonce().len(), 12);
    assert_eq!(a.tag().len(), 16);
}

#[test]
fn ciphertext_hides_the_plaintext() {
    let c = encrypt("plain text here", "pw").unwrap();
    assert_eq!(c.ciphertext().len(), "plain text here".len());
    assert_ne!(c.ciphertext(), b"plain text here");
}

#[test]
fn seal_is_deterministic_for_given_salt_and_nonce() {
    let a = seal("abc", "pw", vec![7u8; 16], vec![9u8; 12]).unwrap();
    let b = seal("abc", "pw", vec![7u8; 16], vec![9u8; 12]).unwrap();
    assert_eq!(a.ciphertext(), b.ciphertext());
    assert_eq!(a.tag(), b.tag());
    assert_eq!(a.salt(), &[7u8; 16]);
    assert_eq!(a.nonce(), &[9u8; 12]);
    assert_eq!(decrypt(&a, "pw").as_deref(), Some("abc"));
}

#[test]
fn derive_key_matches_scrypt_test_vector() {
    let key = derive_key(b"SodiumChloride", "pleaseletmein");
    let expected: [u8; 32] = [
        0x70, 0x23, 0xbd, 0xcb, 0x3a, 0xfd, 0x73, 0x48, 0x46, 0x1c, 0x06, 0xcd, 0x81, 0xfd, 0x38, 0xeb,
        0xfd, 0xa8, 0xfb, 0xba, 0x90, 0x4f, 0x8e, 0x3e, 0xa9, 0xb5, 0x43, 0xf6, 0x54, 0x5d, 0xa1, 0xf2,
    ];
    assert_eq!(key, expected.to_vec());
}

#[test]
fn derive_key_is_deterministic_and_salt_dependent() {
    let a = derive_key(&[1u8; 16], "pw");
    let b = derive_key(&[1u8; 16], "pw");
    let c = derive_key(&[2u8; 16], "pw");
    assert_eq!(a.len(), 32);
    assert_eq!(a, b);
    assert_ne!(a, c);
}

#[test]
fn generate_salt_has_the_requested_length() {
    assert_eq!(generate_salt(16).unwrap().len(), 16);
    assert_eq!(generate_salt(0).unwrap().len(), 0);
    assert_ne!(generate_salt(32).unwrap(), vec![0u8; 32]);
}
