use base64::engine::general_purpose;
use base64::Engine;
use dotenvx::decrypt;
use dotenvx::encrypt;
use dotenvx::DotenvxError;
use dotenvx::Keypair;

#[test]
fn test_encrypt_decrypt_roundtrip() {
    let keypair = Keypair::generate();
    let plaintext = "Hello, World!";

    let encrypted = encrypt(plaintext, &keypair.public_key()).unwrap();
    assert!(encrypted.starts_with("encrypted:"));

    let decrypted = decrypt(&encrypted, &keypair.private_key()).unwrap();
    assert_eq!(decrypted, plaintext);
}

#[test]
fn test_encrypt_multiple_times_different_output() {
    let keypair = Keypair::generate();
    let plaintext = "test";

    let encrypted1 = encrypt(plaintext, &keypair.public_key()).unwrap();
    let encrypted2 = encrypt(plaintext, &keypair.public_key()).unwrap();

    assert_ne!(encrypted1, encrypted2);

    assert_eq!(decrypt(&encrypted1, &keypair.private_key()).unwrap(), plaintext);
    assert_eq!(decrypt(&encrypted2, &keypair.private_key()).unwrap(), plaintext);
}

#[test]
fn test_decrypt_without_prefix() {
    let plaintext = "not_encrypted";
    let keypair = Keypair::generate();

    let result = decrypt(plaintext, &keypair.private_key()).unwrap();
    assert_eq!(result, plaintext);
}

#[test]
fn test_decrypt_invalid_base64() {
    let keypair = Keypair::generate();
    let result = decrypt("encrypted:!!!invalid!!!", &keypair.private_key());
    assert!(result.is_err());
}

#[test]
fn test_decrypt_wrong_key() {
    let keypair1 = Keypair::generate();
    let keypair2 = Keypair::generate();
    let plaintext = "secret";

    let encrypted = encrypt(plaintext, &keypair1.public_key()).unwrap();
    let result = decrypt(&encrypted, &keypair2.private_key());
    assert!(result.is_err());
    assert_eq!(result.unwrap_err().code(), "DECRYPTION_FAILED");
}

#[test]
fn test_encrypt_empty_string() {
    let keypair = Keypair::generate();
    let plaintext = "";

    let encrypted = encrypt(plaintext, &keypair.public_key()).unwrap();
    let decrypted = decrypt(&encrypted, &keypair.private_key()).unwrap();
    assert_eq!(decrypted, plaintext);
}

#[test]
fn test_encrypt_long_string() {
    let keypair = Keypair::generate();
    let plaintext = "a".repeat(10000);

    let encrypted = encrypt(&plaintext, &keypair.public_key()).unwrap();
    let decrypted = decrypt(&encrypted, &keypair.private_key()).unwrap();
    assert_eq!(decrypted, plaintext);
}

#[test]
fn test_encrypt_unicode() {
    let keypair = Keypair::generate();
    let plaintext = "Hello, 世界! 🌍";

    let encrypted = encrypt(plaintext, &keypair.public_key()).unwrap();
    let decrypted = decrypt(&encrypted, &keypair.private_key()).unwrap();
    assert_eq!(decrypted, plaintext);
}

#[test]
fn test_decrypt_short_body_is_malformed() {
    let keypair = Keypair::generate();
    let body = general_purpose::STANDARD.encode([7u8; 60]);
    let token = format!("encrypted:{}", body);
    let result = decrypt(&token, &keypair.private_key());
    assert_eq!(result.unwrap_err().code(), "MALFORMED_ENCRYPTED_DATA");
}

#[test]
fn test_decrypt_body_of_minimum_length_reaches_the_cipher() {
    let keypair = Keypair::generate();
    let good = encrypt("x", &keypair.public_key()).unwrap();
    let bytes = general_purpose::STANDARD.decode(&good["encrypted:".len()..]).unwrap();
    assert!(bytes.len() >= 61);
    let mut tampered = bytes.clone();
    let last = tampered.len() - 1;
    tampered[last] ^= 0x01;
    let token = format!("encrypted:{}", general_purpose::STANDARD.encode(&tampered));
    assert_eq!(decrypt(&token, &keypair.private_key()).unwrap_err().code(), "DECRYPTION_FAILED");
}

#[test]
fn test_generate_keypair() {
    let keypair = Keypair::generate();
    assert_eq!(keypair.public_key().len(), 66);
    assert_eq!(keypair.private_key().len(), 64);
}

#[test]
fn test_generated_keys_are_lowercase_hex() {
    let keypair = Keypair::generate();
    let ok = |s: &str| s.chars().all(|c| c.is_ascii_digit() || ('a'..='f').contains(&c));
    assert!(ok(&keypair.public_key()));
    assert!(ok(&keypair.private_key()));
}

#[test]
fn test_from_private_key() {
    let keypair1 = Keypair::generate();
    let private_key = keypair1.private_key();
    let public_key = keypair1.public_key();

    let keypair2 = Keypair::from_private_key(&private_key).unwrap();
    assert_eq!(keypair2.public_key(), public_key);
    assert_eq!(keypair2.private_key(), private_key);
}

#[test]
fn test_from_public_key() {
    let keypair1 = Keypair::generate();
    let public_key = keypair1.public_key();

    let keypair2 = Keypair::from_public_key(&public_key).unwrap();
    assert_eq!(keypair2.public_key(), public_key);
}

#[test]
fn test_invalid_private_key() {
    let result = Keypair::from_private_key("invalid_key");
    assert!(result.is_err());
}

#[test]
fn test_invalid_public_key() {
    let result = Keypair::from_public_key("invalid_key");
    assert!(result.is_err());
}

#[test]
fn test_keypair_consistency() {
    for _ in 0..10 {
        let keypair = Keypair::generate();
        let public_key = keypair.public_key();
        let private_key = keypair.private_key();

        let recreated = Keypair::from_private_key(&private_key).unwrap();
        assert_eq!(recreated.public_key(), public_key);
    }
}

#[test]
fn test_zero_scalar_is_invalid_private_key() {
    let zeros = "0".repeat(64);
    match Keypair::from_private_key(&zeros) {
        Err(DotenvxError::InvalidPrivateKey(_)) => {}
        other => panic!("unexpected outcome: {:?}", other.map(|_| ())),
    }
}

#[test]
fn test_non_hex_private_key_reports_hex_error() {
    match Keypair::from_private_key("zz") {
        Err(e) => assert_eq!(e.code(), "HEX_DECODE_ERROR"),
        Ok(_) => panic!("accepted a non-hex key"),
    }
}

#[test]
fn test_uncompressed_public_key_is_rejected() {
    let uncompressed = format!("04{}", "00".repeat(64));
    match Keypair::from_public_key(&uncompressed) {
        Err(e) => assert_eq!(e.code(), "INVALID_PUBLIC_KEY"),
        Ok(_) => panic!("accepted a 65-byte encoding"),
    }
    match encrypt("x", &uncompressed) {
        Err(e) => assert_eq!(e.code(), "INVALID_PUBLIC_KEY"),
        Ok(_) => panic!("encrypted to a 65-byte encoding"),
    }
}

#[test]
fn test_public_key_leading_byte_is_compressed() {
    let keypair = Keypair::generate();
    let public_key = keypair.public_key();
    assert!(public_key.starts_with("02") || public_key.starts_with("03"));
}

#[test]
fn test_non_point_public_key_is_rejected() {
    let bogus = format!("02{}", "ff".repeat(32));
    match Keypair::from_public_key(&bogus) {
        Err(e) => assert_eq!(e.code(), "INVALID_PUBLIC_KEY"),
        Ok(_) => panic!("accepted a non-curve point"),
    }
}

#[test]
fn test_hex_codec_roundtrip() {
    let bytes = vec![0u8, 1, 15, 16, 171, 255];
    let text = dotenvx::encode_hex(&bytes);
    assert_eq!(text, "00010f10abff");
    assert_eq!(dotenvx::decode_hex(&text).unwrap(), bytes);
    assert_eq!(dotenvx::decode_hex("00010F10ABFF").unwrap(), bytes);
    assert!(dotenvx::decode_hex("abc").is_none());
    assert!(dotenvx::decode_hex("zz").is_none());
}
