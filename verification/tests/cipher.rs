use stream_crypt::cipher::{BlockCipher, XorCipher, XOR_BLOCK_SIZE};
use stream_crypt::error::CryptoError;

#[test]
fn xor_cipher_has_sixteen_byte_blocks() {
    assert_eq!(XorCipher::block_size(), 16);
    assert_eq!(XOR_BLOCK_SIZE, 16);
}

#[test]
fn xor_cipher_refuses_keys_of_the_wrong_length() {
    assert_eq!(XorCipher::new(b"", None).err(), Some(CryptoError::InvalidKeyLength));
    assert_eq!(XorCipher::new(&[0u8; 15], None).err(), Some(CryptoError::InvalidKeyLength));
    assert_eq!(XorCipher::new(&[0u8; 17], None).err(), Some(CryptoError::InvalidKeyLength));
    assert_eq!(XorCipher::new(&[0u8; 32], None).err(), Some(CryptoError::InvalidKeyLength));
}

#[test]
fn xor_cipher_refuses_vectors_of_the_wrong_length() {
    let key = [0u8; 16];
    assert_eq!(XorCipher::new(&key, Some(&[])).err(), Some(CryptoError::InvalidIvLength));
    assert_eq!(XorCipher::new(&key, Some(&[1u8; 15])).err(), Some(CryptoError::InvalidIvLength));
    assert_eq!(XorCipher::new(&key, Some(&[1u8; 17])).err(), Some(CryptoError::InvalidIvLength));
}

#[test]
fn xor_cipher_reports_the_key_before_the_vector() {
    assert_eq!(
        XorCipher::new(&[0u8; 3], Some(&[1u8; 3])).err(),
        Some(CryptoError::InvalidKeyLength)
    );
}

#[test]
fn xor_cipher_accepts_key_with_and_without_vector() {
    assert!(XorCipher::new(&[7u8; 16], None).is_ok());
    assert!(XorCipher::new(&[7u8; 16], Some(&[9u8; 16])).is_ok());
}

#[test]
fn encrypt_block_xors_with_the_key() {
    let cipher = XorCipher::new(b"0123456789abcdef", None).unwrap();
    let mut block = b"hello\x0b\x0b\x0b\x0b\x0b\x0b\x0b\x0b\x0b\x0b\x0b".to_vec();
    cipher.encrypt_block(&mut block);
    assert_eq!(
        block,
        vec![88u8, 84, 94, 95, 91, 62, 61, 60, 51, 50, 106, 105, 104, 111, 110, 109]
    );
}

#[test]
fn encrypt_block_adds_the_vector_after_the_key() {
    let cipher = XorCipher::new(b"0123456789abcdef", Some(b"fedcba9876543210")).unwrap();
    let mut block = b"hello\x0b\x0b\x0b\x0b\x0b\x0b\x0b\x0b\x0b\x0b\x0b".to_vec();
    cipher.encrypt_block(&mut block);
    assert_eq!(
        block,
        vec![190u8, 185, 194, 194, 189, 159, 118, 116, 106, 104, 159, 157, 155, 161, 159, 157]
    );
}

#[test]
fn encrypt_block_wraps_around_at_256() {
    let cipher = XorCipher::new(&[0xffu8; 16], Some(&[1u8; 16])).unwrap();
    let mut block = vec![0u8; 16];
    cipher.encrypt_block(&mut block);
    assert_eq!(block, vec![0u8; 16]);
    let mut block = b"0123456789abcdef".to_vec();
    cipher.encrypt_block(&mut block);
    assert_eq!(
        block,
        vec![208u8, 207, 206, 205, 204, 203, 202, 201, 200, 199, 159, 158, 157, 156, 155, 154]
    );
}

#[test]
fn decrypt_block_undoes_encrypt_block() {
    let cipher = XorCipher::new(b"0123456789abcdef", Some(b"fedcba9876543210")).unwrap();
    for seed in 0..=255u8 {
        let plain: Vec<u8> =
            (0..16u8).map(|i| seed.wrapping_mul(31).wrapping_add(i.wrapping_mul(17))).collect();
        let mut block = plain.clone();
        cipher.encrypt_block(&mut block);
        cipher.decrypt_block(&mut block);
        assert_eq!(block, plain);
    }
}

#[test]
fn decrypt_block_differs_from_encrypt_block() {
    let cipher = XorCipher::new(&[0u8; 16], Some(&[1u8; 16])).unwrap();
    let mut up = vec![10u8; 16];
    cipher.encrypt_block(&mut up);
    assert_eq!(up, vec![11u8; 16]);
    let mut down = vec![10u8; 16];
    cipher.decrypt_block(&mut down);
    assert_eq!(down, vec![9u8; 16]);
}
