use kzg10::aes::{Encryptable, AES, AES_CTR};

fn hex(s: &str) -> Vec<u8> {
    (0..s.len()).step_by(2).map(|i| u8::from_str_radix(&s[i..i + 2], 16).unwrap()).collect()
}

fn key_of(s: &str) -> [u8; 16] {
    let mut k = [0u8; 16];
    k.copy_from_slice(&hex(s));
    k
}

#[test]
fn aes_block_matches_standard_vector() {
    let aes = AES::new(key_of("000102030405060708090a0b0c0d0e0f"));
    let plaintext = hex("00112233445566778899aabbccddeeff");
    let ciphertext = aes.encrypt_block(&plaintext);
    assert_eq!(ciphertext, hex("69c4e0d86a7b0430d8cdb78070b4c55a"));
    assert_eq!(aes.decrypt_block(&ciphertext), plaintext);
}

#[test]
fn aes_block_second_vector() {
    let aes = AES::new(key_of("2b7e151628aed2a6abf7158809cf4f3c"));
    let plaintext = hex("3243f6a8885a308d313198a2e0370734");
    assert_eq!(aes.encrypt_block(&plaintext), hex("3925841d02dc09fbdc118597196a0b32"));
    assert_eq!(aes.key, key_of("2b7e151628aed2a6abf7158809cf4f3c"));
}

#[test]
fn ctr_round_trip_and_layout() {
    let cipher = AES_CTR::with_nonce(key_of("000102030405060708090a0b0c0d0e0f"), [7u8; 8]);
    let message: Vec<u8> = (0u8..40).collect();
    let ciphertext = cipher.encrypt(&message);
    assert_eq!(ciphertext.len(), 8 + message.len());
    assert_eq!(&ciphertext[..8], &[7u8; 8]);
    assert_ne!(&ciphertext[8..], &message[..]);
    assert_eq!(cipher.decrypt(&ciphertext), message);
}

#[test]
fn ctr_keystream_is_encrypted_counter() {
    let key = key_of("000102030405060708090a0b0c0d0e0f");
    let cipher = AES_CTR::with_nonce(key, [1, 2, 3, 4, 5, 6, 7, 8]);
    let zeros = vec![0u8; 20];
    let ciphertext = cipher.encrypt(&zeros);
    let aes = AES::new(key);
    let mut block0 = vec![1, 2, 3, 4, 5, 6, 7, 8];
    block0.extend_from_slice(&0u64.to_be_bytes());
    let mut block1 = vec![1, 2, 3, 4, 5, 6, 7, 8];
    block1.extend_from_slice(&1u64.to_be_bytes());
    assert_eq!(&ciphertext[8..24], &aes.encrypt_block(&block0)[..]);
    assert_eq!(&ciphertext[24..28], &aes.encrypt_block(&block1)[..4]);
}

#[test]
fn ctr_short_ciphertext_decrypts_to_nothing() {
    let cipher = AES_CTR::new(key_of("000102030405060708090a0b0c0d0e0f"));
    assert!(cipher.decrypt(&[1, 2, 3, 4, 5, 6, 7, 8]).is_empty());
    assert!(cipher.decrypt(&[]).is_empty());
    let ciphertext = cipher.encrypt(b"");
    assert_eq!(ciphertext.len(), 8);
}

#[test]
fn ctr_random_nonces_differ_in_ciphertext_prefix() {
    let key = key_of("000102030405060708090a0b0c0d0e0f");
    let a = AES_CTR::new(key).encrypt(b"same message");
    let b = AES_CTR::new(key).encrypt(b"same message");
    assert_eq!(a.len(), b.len());
    assert_ne!(a, b);
}
