use mcproto::crypt::{encrypt_plaintext, new_stream_cipher};

#[test]
fn cipher_round_trip() {
    let key = [0x11u8; 16];
    // the modeled protocol initializes the IV equal to the key
    let mut enc = new_stream_cipher(true, &key, &key).unwrap();
    let plaintext = b"hello world";
    let ciphertext = encrypt_plaintext(&mut enc, plaintext).unwrap();

    // AES-128-CBC pads to a whole block and never echoes the input
    assert_eq!(16, ciphertext.len());
    assert_ne!(plaintext.to_vec(), ciphertext[..plaintext.len()].to_vec());

    let mut dec = new_stream_cipher(false, &key, &key).unwrap();
    let recovered = encrypt_plaintext(&mut dec, &ciphertext).unwrap();
    assert_eq!(plaintext.to_vec(), recovered);
}

#[test]
fn cipher_depends_on_key_and_iv() {
    let key1 = [0x22u8; 16];
    let key2 = [0x23u8; 16];
    let mut enc1 = new_stream_cipher(true, &key1, &key1).unwrap();
    let mut enc2 = new_stream_cipher(true, &key2, &key2).unwrap();
    let c1 = encrypt_plaintext(&mut enc1, b"0123456789abcdef").unwrap();
    let c2 = encrypt_plaintext(&mut enc2, b"0123456789abcdef").unwrap();
    assert_ne!(c1, c2);

    // a key of the wrong size is refused, not misused
    let rejected = new_stream_cipher(true, &[0x33u8; 5], &key1);
    assert!(rejected.is_none());
}
