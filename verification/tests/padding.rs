use stream_crypt::error::CryptoError;
use stream_crypt::padding::{PaddingCodec, MAX_BLOCK_SIZE};

#[test]
fn codec_accepts_block_sizes_from_one_to_255() {
    assert!(PaddingCodec::new(1).is_some());
    assert!(PaddingCodec::new(16).is_some());
    assert!(PaddingCodec::new(255).is_some());
    assert_eq!(MAX_BLOCK_SIZE, 255);
    assert_eq!(PaddingCodec::new(16).unwrap().block_size(), 16);
}

#[test]
fn codec_refuses_zero_and_oversized_blocks() {
    assert!(PaddingCodec::new(0).is_none());
    assert!(PaddingCodec::new(256).is_none());
    assert!(PaddingCodec::new(usize::MAX).is_none());
}

#[test]
fn pad_fills_partial_block_with_the_pad_length() {
    let codec = PaddingCodec::new(16).unwrap();
    let mut block = b"hello".to_vec();
    codec.pad(&mut block);
    assert_eq!(block, b"hello\x0b\x0b\x0b\x0b\x0b\x0b\x0b\x0b\x0b\x0b\x0b".to_vec());
}

#[test]
fn pad_of_one_missing_byte_appends_a_single_one() {
    let codec = PaddingCodec::new(8).unwrap();
    let mut block = vec![9u8, 8, 7, 6, 5, 4, 3];
    codec.pad(&mut block);
    assert_eq!(block, vec![9u8, 8, 7, 6, 5, 4, 3, 1]);
}

#[test]
fn pad_of_empty_block_is_a_whole_block_of_padding() {
    let codec = PaddingCodec::new(16).unwrap();
    let mut block: Vec<u8> = Vec::new();
    codec.pad(&mut block);
    assert_eq!(block, vec![16u8; 16]);
}

#[test]
fn pad_of_full_block_appends_an_extra_block() {
    let codec = PaddingCodec::new(4).unwrap();
    let mut block = vec![1u8, 2, 3, 4];
    codec.pad(&mut block);
    assert_eq!(block, vec![1u8, 2, 3, 4, 4, 4, 4, 4]);
}

#[test]
fn pad_with_the_largest_block_size_uses_the_value_255() {
    let codec = PaddingCodec::new(255).unwrap();
    let mut block: Vec<u8> = Vec::new();
    codec.pad(&mut block);
    assert_eq!(block, vec![255u8; 255]);
}

#[test]
fn unpad_returns_the_count_of_data_bytes() {
    let codec = PaddingCodec::new(16).unwrap();
    let block = b"hello\x0b\x0b\x0b\x0b\x0b\x0b\x0b\x0b\x0b\x0b\x0b";
    assert_eq!(codec.unpad(block), Ok(5));
}

#[test]
fn unpad_of_a_block_of_padding_returns_zero() {
    let codec = PaddingCodec::new(16).unwrap();
    assert_eq!(codec.unpad(&[16u8; 16]), Ok(0));
}

#[test]
fn unpad_accepts_a_single_pad_byte() {
    let codec = PaddingCodec::new(4).unwrap();
    assert_eq!(codec.unpad(&[7u8, 7, 7, 1]), Ok(3));
}

#[test]
fn unpad_rejects_a_zero_pad_byte() {
    let codec = PaddingCodec::new(4).unwrap();
    assert_eq!(codec.unpad(&[1u8, 2, 3, 0]), Err(CryptoError::InvalidPadding));
}

#[test]
fn unpad_rejects_a_pad_byte_above_the_block_size() {
    let codec = PaddingCodec::new(16).unwrap();
    let mut block = [17u8; 16];
    assert_eq!(codec.unpad(&block), Err(CryptoError::InvalidPadding));
    block[15] = 255;
    assert_eq!(codec.unpad(&block), Err(CryptoError::InvalidPadding));
}

#[test]
fn unpad_rejects_pad_bytes_that_are_not_all_equal() {
    let codec = PaddingCodec::new(8).unwrap();
    assert_eq!(codec.unpad(&[1u8, 2, 3, 4, 4, 9, 4, 4]), Err(CryptoError::InvalidPadding));
    assert_eq!(codec.unpad(&[1u8, 2, 3, 4, 3, 4, 4, 4]), Err(CryptoError::InvalidPadding));
}

#[test]
fn unpad_ignores_bytes_before_the_padding() {
    let codec = PaddingCodec::new(8).unwrap();
    assert_eq!(codec.unpad(&[2u8, 2, 2, 2, 2, 9, 2, 2]), Ok(6));
}

#[test]
fn unpad_rejects_a_block_of_the_wrong_length() {
    let codec = PaddingCodec::new(8).unwrap();
    assert_eq!(codec.unpad(&[]), Err(CryptoError::InvalidPadding));
    assert_eq!(codec.unpad(&[1u8]), Err(CryptoError::InvalidPadding));
    assert_eq!(codec.unpad(&[4u8; 4]), Err(CryptoError::InvalidPadding));
    assert_eq!(codec.unpad(&[8u8; 16]), Err(CryptoError::InvalidPadding));
}

#[test]
fn unpad_undoes_pad_for_every_used_length() {
    let codec = PaddingCodec::new(16).unwrap();
    for used in 0..16usize {
        let mut block: Vec<u8> = (0..used).map(|i| (200 + i) as u8).collect();
        codec.pad(&mut block);
        assert_eq!(block.len(), 16);
        assert_eq!(codec.unpad(&block), Ok(used));
    }
}
