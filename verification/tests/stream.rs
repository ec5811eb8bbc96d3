use stream_crypt::cipher::{BlockCipher, XorCipher};
use stream_crypt::error::CryptoError;
use stream_crypt::stream::{
    decrypt_stream, default_chunk_size, encrypt_stream, DEFAULT_CHUNK_SIZE,
};

fn keyed_cipher() -> XorCipher {
    XorCipher::new(b"0123456789abcdef", Some(b"fedcba9876543210")).unwrap()
}

fn plain_cipher() -> XorCipher {
    XorCipher::new(&[0u8; 16], None).unwrap()
}

fn pattern(len: usize) -> Vec<u8> {
    (0..len).map(|i| ((i * 7 + 3) % 256) as u8).collect()
}

#[test]
fn default_chunk_size_is_4096_for_sixteen_byte_blocks() {
    assert_eq!(DEFAULT_CHUNK_SIZE, 4096);
    assert_eq!(default_chunk_size::<XorCipher>(), 4096);
}

#[test]
fn encrypt_stream_gives_the_expected_bytes() {
    let cipher = XorCipher::new(b"0123456789abcdef", None).unwrap();
    let mut sink: Vec<u8> = Vec::new();
    assert_eq!(encrypt_stream(&cipher, b"hello", &mut sink, 16), Ok(()));
    assert_eq!(
        sink,
        vec![88u8, 84, 94, 95, 91, 62, 61, 60, 51, 50, 106, 105, 104, 111, 110, 109]
    );
}

#[test]
fn encrypt_stream_with_a_vector_gives_the_expected_bytes() {
    let cipher = keyed_cipher();
    let mut sink: Vec<u8> = Vec::new();
    assert_eq!(encrypt_stream(&cipher, b"hello", &mut sink, 4096), Ok(()));
    assert_eq!(
        sink,
        vec![190u8, 185, 194, 194, 189, 159, 118, 116, 106, 104, 159, 157, 155, 161, 159, 157]
    );
}

#[test]
fn encrypt_stream_of_a_full_block_appends_a_block_of_padding() {
    let cipher = XorCipher::new(&[0xffu8; 16], Some(&[1u8; 16])).unwrap();
    let mut sink: Vec<u8> = Vec::new();
    assert_eq!(encrypt_stream(&cipher, b"0123456789abcdef", &mut sink, 16), Ok(()));
    assert_eq!(
        sink,
        vec![
            208u8, 207, 206, 205, 204, 203, 202, 201, 200, 199, 159, 158, 157, 156, 155, 154,
            240, 240, 240, 240, 240, 240, 240, 240, 240, 240, 240, 240, 240, 240, 240, 240
        ]
    );
}

#[test]
fn encrypt_stream_appends_to_the_sink() {
    let cipher = plain_cipher();
    let mut sink = vec![1u8, 2, 3];
    assert_eq!(encrypt_stream(&cipher, b"abc", &mut sink, 32), Ok(()));
    let mut expected = vec![1u8, 2, 3];
    expected.extend_from_slice(b"abc");
    expected.extend_from_slice(&[13u8; 13]);
    assert_eq!(sink, expected);
}

#[test]
fn encrypt_stream_refuses_an_invalid_chunk_size() {
    let cipher = plain_cipher();
    let mut sink = vec![9u8];
    for chunk in [0usize, 8, 20, 4097] {
        assert_eq!(
            encrypt_stream(&cipher, b"abc", &mut sink, chunk),
            Err(CryptoError::InvalidState)
        );
        assert_eq!(sink, vec![9u8]);
    }
}

#[test]
fn decrypt_stream_refuses_an_invalid_chunk_size() {
    let cipher = plain_cipher();
    let mut sink = vec![9u8];
    for chunk in [0usize, 8, 20, 4097] {
        assert_eq!(
            decrypt_stream(&cipher, &[16u8; 16], &mut sink, chunk),
            Err(CryptoError::InvalidState)
        );
        assert_eq!(sink, vec![9u8]);
    }
}

#[test]
fn decrypt_stream_gives_the_expected_bytes() {
    let cipher = keyed_cipher();
    let ciphertext =
        [190u8, 185, 194, 194, 189, 159, 118, 116, 106, 104, 159, 157, 155, 161, 159, 157];
    let mut sink = vec![b'>'];
    assert_eq!(decrypt_stream(&cipher, &ciphertext, &mut sink, 16), Ok(()));
    assert_eq!(sink, b">hello".to_vec());
}

#[test]
fn decrypt_stream_reports_truncation_for_every_partial_length() {
    let cipher = keyed_cipher();
    let mut ciphertext: Vec<u8> = Vec::new();
    encrypt_stream(&cipher, &pattern(100), &mut ciphertext, 16).unwrap();
    for cut in 1..16usize {
        let mut sink: Vec<u8> = Vec::new();
        let short = &ciphertext[..ciphertext.len() - cut];
        assert_eq!(
            decrypt_stream(&cipher, short, &mut sink, 4096),
            Err(CryptoError::TruncatedCiphertext)
        );
        assert!(sink.is_empty());
    }
}

#[test]
fn decrypt_stream_of_nothing_reports_bad_padding() {
    let cipher = keyed_cipher();
    let mut sink: Vec<u8> = Vec::new();
    assert_eq!(decrypt_stream(&cipher, &[], &mut sink, 16), Err(CryptoError::InvalidPadding));
    assert!(sink.is_empty());
}

#[test]
fn decrypt_stream_leaves_earlier_chunks_in_the_sink_on_failure() {
    let cipher = plain_cipher();
    let mut ciphertext = pattern(64);
    ciphertext.extend_from_slice(&[99u8; 8]);
    let mut sink: Vec<u8> = Vec::new();
    assert_eq!(
        decrypt_stream(&cipher, &ciphertext, &mut sink, 32),
        Err(CryptoError::TruncatedCiphertext)
    );
    assert_eq!(sink, pattern(48));
    let mut sink: Vec<u8> = Vec::new();
    assert_eq!(
        decrypt_stream(&cipher, &ciphertext, &mut sink, 4096),
        Err(CryptoError::TruncatedCiphertext)
    );
    assert!(sink.is_empty());
}

#[test]
fn streams_round_trip_for_many_lengths_and_chunk_sizes() {
    let cipher = keyed_cipher();
    for len in [0usize, 1, 15, 16, 17, 31, 32, 33, 100, 4095, 4096, 4097, 10_000] {
        let data = pattern(len);
        for chunk in [16usize, 32, 48, 4096, 1 << 20] {
            let mut ciphertext: Vec<u8> = Vec::new();
            assert_eq!(encrypt_stream(&cipher, &data, &mut ciphertext, chunk), Ok(()));
            assert_eq!(ciphertext.len(), (len / 16 + 1) * 16);
            for other in [16usize, 64, 4096] {
                let mut plaintext: Vec<u8> = Vec::new();
                assert_eq!(decrypt_stream(&cipher, &ciphertext, &mut plaintext, other), Ok(()));
                assert_eq!(plaintext, data);
            }
        }
    }
}
