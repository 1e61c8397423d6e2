use cred_man::container::{encode_container, i32_to_bytes, parse_container, HEADER_LEN};
use cred_man::crypto::{decrypt, encrypt};
use cred_man::error::StoreError;

fn header(version: [u8; 4]) -> Vec<u8> {
    let mut b = b"CREDMAN".to_vec();
    b.extend_from_slice(&version);
    b.extend_from_slice(&[1u8; 16]);
    b.extend_from_slice(&[2u8; 12]);
    b.extend_from_slice(&[3u8; 16]);
    b
}

#[test]
fn i32_to_bytes_is_big_endian() {
    assert_eq!(i32_to_bytes(1), [0, 0, 0, 1]);
    assert_eq!(i32_to_bytes(0x0102_0304), [1, 2, 3, 4]);
    assert_eq!(i32_to_bytes(-1), [0xff, 0xff, 0xff, 0xff]);
    assert_eq!(i32_to_bytes(i32::MIN), [0x80, 0, 0, 0]);
}

#[test]
fn parse_reads_every_field() {
    let mut b = header([0, 0, 0, 1]);
    b.extend_from_slice(b"secret");
    let c = parse_container(&b).unwrap();
    assert_eq!(c.salt(), &[1u8; 16]);
    assert_eq!(c.nonce(), &[2u8; 12]);
    assert_eq!(c.tag(), &[3u8; 16]);
    assert_eq!(c.ciphertext(), b"secret");
}

#[test]
fn parse_accepts_empty_ciphertext_and_older_versions() {
    let c = parse_container(&header([0, 0, 0, 0])).unwrap();
    assert!(c.ciphertext().is_empty());
    assert_eq!(HEADER_LEN, 55);
}

#[test]
fn bad_magic_is_a_format_error() {
    let mut b = header([0, 0, 0, 1]);
    b[0] = b'X';
    assert!(matches!(parse_container(&b), Err(StoreError::FormatError)));
    let mut b = header([0, 0, 0, 1]);
    b[6] = b'n';
    assert!(matches!(parse_container(&b), Err(StoreError::FormatError)));
}

#[test]
fn short_file_is_a_format_error() {
    let b = header([0, 0, 0, 1]);
    assert!(matches!(parse_container(&b[..54]), Err(StoreError::FormatError)));
    assert!(matches!(parse_container(b"CREDMAN"), Err(StoreError::FormatError)));
    assert!(matches!(parse_container(b""), Err(StoreError::FormatError)));
}

#[test]
fn version_two_is_unsupported() {
    let b = header([0, 0, 0, 2]);
    assert!(matches!(parse_container(&b), Err(StoreError::UnsupportedVersionError(2))));
    let b = header([0, 0, 1, 0]);
    assert!(matches!(parse_container(&b), Err(StoreError::UnsupportedVersionError(256))));
}

#[test]
fn encoded_container_has_the_layout() {
    let c = encrypt("hello", "pw").unwrap();
    let b = encode_container(&c);
    assert_eq!(&b[..7], b"CREDMAN");
    assert_eq!(&b[7..11], &[0, 0, 0, 1]);
    assert_eq!(&b[11..27], c.salt());
    assert_eq!(&b[27..39], c.nonce());
    assert_eq!(&b[39..55], c.tag());
    assert_eq!(&b[55..], c.ciphertext());
    assert_eq!(b.len(), 55 + 5);
}

#[test]
fn encoded_container_parses_back() {
    let c = encrypt("round trip through bytes", "pw").unwrap();
    let b = encode_container(&c);
    let p = parse_container(&b).unwrap();
    assert_eq!(p.salt(), c.salt());
    assert_eq!(p.nonce(), c.nonce());
    assert_eq!(p.tag(), c.tag());
    assert_eq!(p.ciphertext(), c.ciphertext());
    assert_eq!(decrypt(&p, "pw").as_deref(), Some("round trip through bytes"));
}

#[test]
fn error_messages_are_not_empty() {
    assert!(!StoreError::FormatError.message().is_empty());
    assert!(!StoreError::UnsupportedVersionError(2).message().is_empty());
    assert!(!StoreError::InvalidRecordDataError.message().is_empty());
}
