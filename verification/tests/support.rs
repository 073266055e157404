//! The supporting pieces: timestamps, encryption, interned strings, and
//! money amounts.

use track_payments::crypto::{decrypt, decrypt_str, encrypt, encrypt_str};
use track_payments::interning::CustomString;
use track_payments::time::FakeUtcTime;
use track_payments::types::money::Money;

#[test]
fn encryption() {
    let plain_text = "Random text which i want to cipher!".as_bytes();
    let key_str = "12345678901234567890123456789012".as_bytes();
    let cipher_text = encrypt(key_str, plain_text).unwrap();
    let decipher_text = decrypt(key_str, &cipher_text).unwrap();
    assert_eq!(plain_text, decipher_text);
}

#[test]
fn encryption_str() {
    let plain_text = "Random text which i want to cipher!";
    let key_str = "12345678901234567890123456789012".as_bytes();
    let cipher_text = encrypt_str(key_str, plain_text).unwrap();
    let decipher_text = decrypt_str(key_str, &cipher_text).unwrap();
    assert_eq!(plain_text, decipher_text);
}

#[test]
fn encryption_rejects_wrong_key() {
    let key_str = "12345678901234567890123456789012".as_bytes();
    let other_key = "99999999999999999999999999999999".as_bytes();
    let cipher_text = encrypt_str(key_str, "secret").unwrap();
    assert_eq!(cipher_text.len(), "secret".len() + 28);
    assert!(decrypt_str(other_key, &cipher_text).is_err());
    assert!(decrypt_str(key_str, &[1, 2, 3]).is_err());
    assert!(encrypt(b"short key", b"data").is_err());
}

#[test]
fn parse_format_time() {
    let fake_utc_time = FakeUtcTime::from_timestamp(1_743_044_280);
    let date_str = fake_utc_time.format_str().unwrap();
    assert_eq!(date_str, "2025/03/27 02:58");
    let fake_utc_time2 = FakeUtcTime::parse_str(&date_str).unwrap();
    assert_eq!(fake_utc_time, fake_utc_time2);
}

#[test]
fn parse_rejects_malformed_time() {
    assert!(FakeUtcTime::parse_str("not a date").is_err());
    assert!(FakeUtcTime::parse_str_fmt("2025-03-27", "%Y/%m/%d %H:%M").is_err());
}

#[test]
fn interned_strings_share_text() {
    let a = CustomString::new(String::from("String1"));
    let b = CustomString::new(String::from("String1"));
    let c = CustomString::new(String::from("String2"));
    assert_eq!(a, b);
    assert_ne!(a, c);
    assert_eq!(a.as_str(), "String1");
}

#[test]
fn money_in_cents() {
    let m = Money::new(1234);
    assert_eq!(m.cents(), 1234);
    let m2 = Money::new_cents(12, 34);
    assert_eq!(m, m2);
    let m3: Money = 99u32.into();
    assert_eq!(m3.cents(), 99);
}

#[test]
fn format_rejects_out_of_range_time() {
    let far = FakeUtcTime::from_timestamp(i64::MAX);
    assert!(far.format_str().is_err());
}

#[test]
fn decrypt_str_rejects_binary_plaintext() {
    let key_str = "12345678901234567890123456789012".as_bytes();
    let cipher = encrypt(key_str, &[0xff, 0xfe, 0x80]).unwrap();
    assert!(decrypt_str(key_str, &cipher).is_err());
}
