use password_cracker::constants::{SHA1_DIGEST_LENGTH, SHA1_HEX_STRING_LENGTH};
use password_cracker::digest::{digest_of, digest_to_hex, hash_password};
use sha1::Digest;

#[test]
fn hash_of_the_empty_word() {
    assert_eq!(hash_password(""), "da39a3ee5e6b4b0d3255bfef95601890afd80709");
}

#[test]
fn hash_of_known_words() {
    assert_eq!(hash_password("abc"), "a9993e364706816aba3e25717850c26c9cd0d89d");
    assert_eq!(hash_password("hello"), "aaf4c61ddcc5e8a2dabede0f3b482cd9aea9434d");
    assert_eq!(hash_password("password"), "5baa61e4c9b93f3f0682250b6cf8331b7ee68fd8");
    assert_eq!(hash_password("password123"), "cbfdac6008f9cab4083784cbd1874f76618d2a97");
}

#[test]
fn hash_has_forty_small_hex_digits() {
    for word in ["", "a", "Zürich", "correct horse battery staple", "\u{3000}"] {
        let hash = hash_password(word);
        assert_eq!(hash.len(), SHA1_HEX_STRING_LENGTH);
        assert!(hash.chars().all(|c| c.is_ascii_digit() || ('a'..='f').contains(&c)));
    }
}

#[test]
fn hash_is_taken_of_the_utf8_bytes() {
    for word in ["é", "пароль", "密码", "a\u{0301}"] {
        let expected = hex::encode(sha1::Sha1::digest(word.as_bytes()));
        assert_eq!(hash_password(word), expected);
    }
}

#[test]
fn digest_of_abc() {
    let expected: Vec<u8> = vec![
        0xa9, 0x99, 0x3e, 0x36, 0x47, 0x06, 0x81, 0x6a, 0xba, 0x3e, 0x25, 0x71, 0x78, 0x50, 0xc2,
        0x6c, 0x9c, 0xd0, 0xd8, 0x9d,
    ];
    let digest = digest_of("abc");
    assert_eq!(digest.len(), SHA1_DIGEST_LENGTH);
    assert_eq!(digest, expected);
}

#[test]
fn digest_differs_from_its_input() {
    let digest = digest_of("abc");
    assert_ne!(digest, b"abc".to_vec());
    assert_ne!(digest_of("abd"), digest);
}

#[test]
fn digest_to_hex_writes_two_digits_for_each_byte() {
    assert_eq!(digest_to_hex(&[]), "");
    assert_eq!(digest_to_hex(&[0x00]), "00");
    assert_eq!(digest_to_hex(&[0x0f]), "0f");
    assert_eq!(digest_to_hex(&[0xf0]), "f0");
    assert_eq!(digest_to_hex(&[1, 2, 3, 15, 16]), "0102030f10");
    assert_eq!(digest_to_hex(&[0x00, 0xff, 0xab, 0xcd, 0xef]), "00ffabcdef");
}

#[test]
fn digest_to_hex_of_every_byte() {
    let digits = "0123456789abcdef";
    for byte in 0u16..256 {
        let byte = byte as u8;
        let upper = digits.chars().nth((byte / 16) as usize).unwrap();
        let lower = digits.chars().nth((byte % 16) as usize).unwrap();
        assert_eq!(digest_to_hex(&[byte]), format!("{}{}", upper, lower));
    }
}
