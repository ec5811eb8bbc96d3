use stream_crypt::blocks::{
    apply_block, cipher_pass, emit_pending, open_tail, release_blocks, seal_tail,
};
use stream_crypt::buffer::ChunkBuffer;
use stream_crypt::cipher::{BlockCipher, XorCipher};
use stream_crypt::error::CryptoError;
use stream_crypt::model::Mode;
use stream_crypt::padding::PaddingCodec;

fn plus_one_cipher() -> XorCipher {
    XorCipher::new(&[0u8; 16], Some(&[1u8; 16])).unwrap()
}

#[test]
fn apply_block_follows_the_mode() {
    let cipher = plus_one_cipher();
    let mut block = vec![5u8; 16];
    apply_block(&cipher, Mode::Encrypt, &mut block);
    assert_eq!(block, vec![6u8; 16]);
    apply_block(&cipher, Mode::Decrypt, &mut block);
    apply_block(&cipher, Mode::Decrypt, &mut block);
    assert_eq!(block, vec![4u8; 16]);
}

#[test]
fn cipher_pass_transforms_every_staged_block() {
    let cipher = plus_one_cipher();
    let mut buffer = ChunkBuffer::new(64);
    let data: Vec<u8> = (0..48u8).collect();
    buffer.fill(&data);
    cipher_pass(&cipher, Mode::Encrypt, &mut buffer);
    let expected: Vec<u8> = (1..49u8).collect();
    assert_eq!(buffer.copy_out(0, 48), expected);
    assert_eq!(buffer.len(), 48);
}

#[test]
fn cipher_pass_on_an_empty_buffer_does_nothing() {
    let cipher = plus_one_cipher();
    let mut buffer = ChunkBuffer::new(16);
    cipher_pass(&cipher, Mode::Decrypt, &mut buffer);
    assert_eq!(buffer.len(), 0);
}

#[test]
fn emit_pending_encrypts_the_block_while_encrypting() {
    let cipher = plus_one_cipher();
    let mut pending = Some(vec![7u8; 16]);
    let mut sink = vec![0u8];
    emit_pending(&cipher, Mode::Encrypt, &mut pending, &mut sink);
    assert!(pending.is_none());
    let mut expected = vec![0u8];
    expected.extend_from_slice(&[8u8; 16]);
    assert_eq!(sink, expected);
}

#[test]
fn emit_pending_writes_the_block_as_it_is_while_decrypting() {
    let cipher = plus_one_cipher();
    let mut pending = Some(vec![7u8; 16]);
    let mut sink: Vec<u8> = Vec::new();
    emit_pending(&cipher, Mode::Decrypt, &mut pending, &mut sink);
    assert!(pending.is_none());
    assert_eq!(sink, vec![7u8; 16]);
}

#[test]
fn emit_pending_without_a_block_writes_nothing() {
    let cipher = plus_one_cipher();
    let mut pending: Option<Vec<u8>> = None;
    let mut sink = vec![3u8];
    emit_pending(&cipher, Mode::Encrypt, &mut pending, &mut sink);
    assert_eq!(sink, vec![3u8]);
}

#[test]
fn release_blocks_withholds_the_last_plaintext_block_while_encrypting() {
    let cipher = plus_one_cipher();
    let mut staged = ChunkBuffer::new(32);
    let data: Vec<u8> = (0..32u8).collect();
    staged.fill(&data);
    let mut pending = Some(vec![100u8; 16]);
    let mut sink: Vec<u8> = Vec::new();
    release_blocks(&cipher, Mode::Encrypt, &mut staged, &mut pending, &mut sink);
    let mut expected = vec![101u8; 16];
    expected.extend((1..17u8).collect::<Vec<u8>>());
    assert_eq!(sink, expected);
    assert_eq!(pending, Some((16..32u8).collect::<Vec<u8>>()));
    assert_eq!(staged.len(), 0);
}

#[test]
fn release_blocks_withholds_the_last_decrypted_block_while_decrypting() {
    let cipher = plus_one_cipher();
    let mut staged = ChunkBuffer::new(32);
    let data: Vec<u8> = (1..33u8).collect();
    staged.fill(&data);
    let mut pending = Some(vec![100u8; 16]);
    let mut sink: Vec<u8> = Vec::new();
    release_blocks(&cipher, Mode::Decrypt, &mut staged, &mut pending, &mut sink);
    let mut expected = vec![100u8; 16];
    expected.extend((0..16u8).collect::<Vec<u8>>());
    assert_eq!(sink, expected);
    assert_eq!(pending, Some((16..32u8).collect::<Vec<u8>>()));
    assert_eq!(staged.len(), 0);
}

#[test]
fn release_blocks_of_a_single_block_writes_only_the_earlier_block() {
    let cipher = plus_one_cipher();
    let mut staged = ChunkBuffer::new(16);
    staged.fill(&[9u8; 16]);
    let mut pending: Option<Vec<u8>> = None;
    let mut sink: Vec<u8> = Vec::new();
    release_blocks(&cipher, Mode::Encrypt, &mut staged, &mut pending, &mut sink);
    assert_eq!(sink, Vec::<u8>::new());
    assert_eq!(pending, Some(vec![9u8; 16]));
}

#[test]
fn seal_tail_pads_and_encrypts_what_is_held() {
    let cipher = plus_one_cipher();
    let codec = PaddingCodec::new(16).unwrap();
    let mut staged = ChunkBuffer::new(32);
    staged.fill(&[20u8; 18]);
    let mut pending = Some(vec![10u8; 16]);
    let mut sink: Vec<u8> = Vec::new();
    seal_tail(&cipher, &codec, &mut staged, &mut pending, &mut sink);
    let mut expected = vec![11u8; 16];
    expected.extend_from_slice(&[21u8; 18]);
    expected.extend_from_slice(&[15u8; 14]);
    assert_eq!(sink, expected);
    assert!(pending.is_none());
    assert_eq!(staged.len(), 0);
}

#[test]
fn seal_tail_of_nothing_writes_one_block_of_padding() {
    let cipher = plus_one_cipher();
    let codec = PaddingCodec::new(16).unwrap();
    let mut staged = ChunkBuffer::new(16);
    let mut pending: Option<Vec<u8>> = None;
    let mut sink: Vec<u8> = Vec::new();
    seal_tail(&cipher, &codec, &mut staged, &mut pending, &mut sink);
    assert_eq!(sink, vec![17u8; 16]);
}

#[test]
fn open_tail_strips_the_padding_of_the_last_staged_block() {
    let cipher = plus_one_cipher();
    let codec = PaddingCodec::new(16).unwrap();
    let mut staged = ChunkBuffer::new(32);
    let mut last = vec![21u8; 2];
    last.extend_from_slice(&[15u8; 14]);
    staged.fill(&[31u8; 16]);
    staged.fill(&last);
    let mut pending = Some(vec![10u8; 16]);
    let mut sink: Vec<u8> = Vec::new();
    assert_eq!(open_tail(&cipher, &codec, &mut staged, &mut pending, &mut sink), Ok(()));
    let mut expected = vec![10u8; 16];
    expected.extend_from_slice(&[30u8; 16]);
    expected.extend_from_slice(&[20u8; 2]);
    assert_eq!(sink, expected);
    assert!(pending.is_none());
    assert_eq!(staged.len(), 0);
}

#[test]
fn open_tail_strips_the_padding_of_the_withheld_block() {
    let cipher = plus_one_cipher();
    let codec = PaddingCodec::new(16).unwrap();
    let mut staged = ChunkBuffer::new(32);
    let mut held = vec![50u8; 13];
    held.extend_from_slice(&[3u8; 3]);
    let mut pending = Some(held);
    let mut sink: Vec<u8> = Vec::new();
    assert_eq!(open_tail(&cipher, &codec, &mut staged, &mut pending, &mut sink), Ok(()));
    assert_eq!(sink, vec![50u8; 13]);
}

#[test]
fn open_tail_reports_truncation_and_writes_nothing() {
    let cipher = plus_one_cipher();
    let codec = PaddingCodec::new(16).unwrap();
    let mut staged = ChunkBuffer::new(32);
    staged.fill(&[17u8; 17]);
    let mut pending = Some(vec![10u8; 16]);
    let mut sink = vec![1u8];
    assert_eq!(
        open_tail(&cipher, &codec, &mut staged, &mut pending, &mut sink),
        Err(CryptoError::TruncatedCiphertext)
    );
    assert_eq!(sink, vec![1u8]);
    assert!(pending.is_none());
    assert_eq!(staged.len(), 0);
}

#[test]
fn open_tail_reports_bad_padding_and_writes_nothing() {
    let cipher = plus_one_cipher();
    let codec = PaddingCodec::new(16).unwrap();
    let mut staged = ChunkBuffer::new(32);
    staged.fill(&[18u8; 16]);
    let mut pending = Some(vec![10u8; 16]);
    let mut sink = vec![1u8];
    assert_eq!(
        open_tail(&cipher, &codec, &mut staged, &mut pending, &mut sink),
        Err(CryptoError::InvalidPadding)
    );
    assert_eq!(sink, vec![1u8]);
    assert!(pending.is_none());
    assert_eq!(staged.len(), 0);
}

#[test]
fn open_tail_of_nothing_reports_bad_padding() {
    let cipher = plus_one_cipher();
    let codec = PaddingCodec::new(16).unwrap();
    let mut staged = ChunkBuffer::new(32);
    let mut pending: Option<Vec<u8>> = None;
    let mut sink: Vec<u8> = Vec::new();
    assert_eq!(
        open_tail(&cipher, &codec, &mut staged, &mut pending, &mut sink),
        Err(CryptoError::InvalidPadding)
    );
    assert!(sink.is_empty());
}
