//! Encryption of the stored ledger: AES-256-GCM with a fresh random
//! nonce kept as the first twelve bytes of the ciphertext.

use aes_gcm::aead::{Aead, Generate};
use aes_gcm::KeyInit;
use vstd::prelude::*;

verus! {

use crate::error::Error;
use vstd::string::StringExecFns;
use vstd::string::StringSliceAdditionalSpecFns;

/// What decrypting a byte string under a key yields: the plaintext for a
/// well-formed ciphertext (a 12-byte nonce, the ciphertext, a 16-byte
/// tag) under its key, nothing otherwise.
pub uninterp spec fn aead_decrypt(key: Seq<u8>, data: Seq<u8>) -> Option<Seq<u8>>;

/// What parsing bytes as UTF-8 yields.
pub uninterp spec fn utf8_parse(b: Seq<u8>) -> Option<Seq<char>>;

/// Relies on aes_gcm's `Aes256Gcm` through `Aead::decrypt`, with the
/// nonce read from the first twelve bytes: the outcome is a function of
/// the key and the data alone, and fails on a short input, a wrong key
/// length, or an inauthentic ciphertext.
#[verifier::external_body]
fn aes_decrypt_call(key: &[u8], data: &[u8]) -> (r: Option<Vec<u8>>)
    ensures
        match r {
            Some(p) => aead_decrypt(key@, data@) == Some(p@),
            None => aead_decrypt(key@, data@) is None,
        },
{
    if data.len() < 12 {
        return None;
    }
    let cipher = aes_gcm::Aes256Gcm::new_from_slice(key).ok()?;
    let (nonce_arr, ciphered) = data.split_at(12);
    let nonce = aes_gcm::Nonce::try_from(nonce_arr).ok()?;
    cipher.decrypt(&nonce, ciphered).ok()
}

/// Relies on aes_gcm's `Aes256Gcm` through `Aead::encrypt` with a fresh
/// random nonce: of the random result only its length and that the same
/// key decrypts it back to the plaintext are stated, both from the AEAD
/// contract.
#[verifier::external_body]
fn aes_encrypt_call(key: &[u8], plain: &[u8]) -> (r: Option<Vec<u8>>)
    ensures
        r matches Some(c) ==> c@.len() == plain@.len() + 28 && aead_decrypt(key@, c@) == Some(
            plain@,
        ),
{
    let cipher = aes_gcm::Aes256Gcm::new_from_slice(key).ok()?;
    let nonce = aes_gcm::Nonce::<aes_gcm::aead::consts::U12>::try_generate().ok()?;
    let ciphered = cipher.encrypt(&nonce, plain).ok()?;
    let mut out = nonce.as_slice().to_vec();
    out.extend_from_slice(&ciphered);
    Some(out)
}

/// Relies on `str::as_bytes` and `String::from_utf8`: a string's UTF-8
/// bytes are a function of it alone and decode back to it.
#[verifier::external_body]
fn str_bytes<'a>(s: &'a str) -> (r: &'a [u8])
    ensures
        r@ == s.spec_bytes(),
        utf8_parse(r@) == Some(s@),
{
    s.as_bytes()
}

/// Relies on `String::from_utf8`: bytes either decode to their text or
/// are rejected, as a function of the bytes alone.
#[verifier::external_body]
fn utf8_to_string(bytes: Vec<u8>) -> (r: Option<String>)
    ensures
        match r {
            Some(s) => utf8_parse(bytes@) == Some(s@),
            None => utf8_parse(bytes@) is None,
        },
{
    String::from_utf8(bytes).ok()
}

/// Encrypts bytes under a 32-byte key; the result opens back to the
/// plaintext under the same key.
pub fn encrypt(key_str: &[u8], plaintext: &[u8]) -> (r: Result<Vec<u8>, Error>)
    ensures
        r matches Ok(c) ==> c@.len() == plaintext@.len() + 28 && aead_decrypt(key_str@, c@)
            == Some(plaintext@),
        r is Err ==> r == Err::<Vec<u8>, Error>(Error::EncryptionFailed),
{
    match aes_encrypt_call(key_str, plaintext) {
        Some(c) => Ok(c),
        None => Err(Error::EncryptionFailed),
    }
}

/// Encrypts a text's UTF-8 bytes under a 32-byte key; what the result
/// decrypts to parses back to the text.
pub fn encrypt_str(key_str: &[u8], plaintext: &str) -> (r: Result<Vec<u8>, Error>)
    ensures
        r matches Ok(c) ==> c@.len() == plaintext.spec_bytes().len() + 28 && aead_decrypt(
            key_str@,
            c@,
        ) == Some(plaintext.spec_bytes()) && utf8_parse(plaintext.spec_bytes()) == Some(
            plaintext@,
        ),
        r is Err ==> r == Err::<Vec<u8>, Error>(Error::EncryptionFailed),
{
    encrypt(key_str, str_bytes(plaintext))
}

/// Decrypts bytes under a key: exactly what the cipher gives back.
pub fn decrypt(key_str: &[u8], encrypted_data: &[u8]) -> (r: Result<Vec<u8>, Error>)
    ensures
        match aead_decrypt(key_str@, encrypted_data@) {
            Some(p) => r matches Ok(b) && b@ == p,
            None => r == Err::<Vec<u8>, Error>(Error::DecryptionFailed),
        },
{
    match aes_decrypt_call(key_str, encrypted_data) {
        Some(p) => Ok(p),
        None => Err(Error::DecryptionFailed),
    }
}

/// Decrypts bytes and reads them as UTF-8 text.
pub fn decrypt_str(key_str: &[u8], encrypted_data: &[u8]) -> (r: Result<String, Error>)
    ensures
        match aead_decrypt(key_str@, encrypted_data@) {
            Some(p) => match utf8_parse(p) {
                Some(t) => r matches Ok(s) && s@ == t,
                None => r matches Err(e) && e matches Error::Generic(_),
            },
            None => r == Err::<String, Error>(Error::DecryptionFailed),
        },
{
    let bytes = match decrypt(key_str, encrypted_data) {
        Ok(b) => b,
        Err(e) => {
            return Err(Error::DecryptionFailed);
        },
    };
    match utf8_to_string(bytes) {
        Some(s) => Ok(s),
        None => Err(Error::Generic(String::from_str("invalid utf-8"))),
    }
}

} // verus!
