//! Symmetric encryption of fully-formed frame bytes: the mechanical
//! application of an already-initialized cipher context, whose state carries
//! across calls so a stream stays one stream.

use vstd::prelude::*;

verus! {

/// A pair of one-shot encryption primitives a user of the library may
/// provide over its own key handling.
pub trait Cryptor {
    /// Encrypts one buffer of plaintext under `key` and `iv`.
    fn encrypt_plaintext(plaintext: &[u8], key: &[u8], iv: &[u8]) -> Vec<u8>;

    /// Decrypts one buffer of ciphertext under `key` and `iv`.
    fn decrypt_plaintext(plaintext: &[u8], key: &[u8], iv: &[u8]) -> Vec<u8>;
}

#[verifier::external_type_specification]
#[verifier::external_body]
pub struct ExCrypter(openssl::symm::Crypter);

/// Relies on openssl's `Crypter::new` with `Cipher::aes_128_cbc`: it builds
/// a cipher context for the given direction, or reports the library's
/// refusal; an IV is always passed, so its panic condition cannot arise.
#[verifier::external_body]
fn new_aes128_cbc(encrypt: bool, key: &[u8], iv: &[u8]) -> (r: Option<openssl::symm::Crypter>)
{
    let mode = if encrypt {
        openssl::symm::Mode::Encrypt
    } else {
        openssl::symm::Mode::Decrypt
    };
    match openssl::symm::Crypter::new(openssl::symm::Cipher::aes_128_cbc(), mode, key, Some(iv)) {
        Ok(c) => Some(c),
        Err(e) => None,
    }
}

/// Relies on `Crypter::update`: it writes at most the input's length plus
/// one cipher block into the output and returns the count written. The
/// buffer passed exceeds the input by 32 bytes — more than any of the
/// library's symmetric block sizes — and the input bound keeps the buffer
/// under the documented `c_int` panic limit.
#[verifier::external_body]
fn cipher_update(enc: &mut openssl::symm::Crypter, data: &[u8]) -> (r: Option<Vec<u8>>)
    requires
        data@.len() + 32 <= 0x7fff_ffff,
    ensures
        r is Some ==> r->0@.len() <= data@.len() + 32,
{
    let mut out = vec![0u8; data.len() + 32];
    match enc.update(data, &mut out) {
        Ok(n) => {
            out.truncate(n);
            Some(out)
        },
        Err(e) => None,
    }
}

/// Relies on `Crypter::finalize`: it writes at most one cipher block of
/// remaining data into the output and returns the count written; the 32-byte
/// buffer passed exceeds any of the library's symmetric block sizes.
#[verifier::external_body]
fn cipher_finalize(enc: &mut openssl::symm::Crypter) -> (r: Option<Vec<u8>>)
    ensures
        r is Some ==> r->0@.len() <= 32,
{
    let mut out = vec![0u8; 32];
    match enc.finalize(&mut out) {
        Ok(n) => {
            out.truncate(n);
            Some(out)
        },
        Err(e) => None,
    }
}

/// Builds an AES-128-CBC cipher context for one direction of a connection;
/// `None` when the library refuses the key or IV.
pub fn new_stream_cipher(encrypt: bool, key: &[u8], iv: &[u8]) -> Option<
    openssl::symm::Crypter,
> {
    new_aes128_cbc(encrypt, key, iv)
}

/// Runs one buffer through an initialized cipher context: the update's
/// output followed by the final padding block, as the bytes to put on the
/// wire. The context's state carries across calls — the cipher is not
/// re-initialized per packet — so the outputs concatenate into one stream.
/// `None` when the context refuses, after which the stream is unusable.
pub fn encrypt_plaintext(enc: &mut openssl::symm::Crypter, plaintext: &[u8]) -> (r: Option<
    Vec<u8>,
>)
    requires
        plaintext@.len() + 32 <= 0x7fff_ffff,
    ensures
        r is Some ==> r->0@.len() <= plaintext@.len() + 64,
{
    let mut ciphertext = match cipher_update(enc, plaintext) {
        Some(c) => c,
        None => { return None },
    };
    let fin = match cipher_finalize(enc) {
        Some(f) => f,
        None => { return None },
    };
    ciphertext.extend_from_slice(fin.as_slice());
    Some(ciphertext)
}

} // verus!
