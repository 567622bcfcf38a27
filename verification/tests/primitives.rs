use mdxlroptimizer::error::MdlxError;
use mdxlroptimizer::primitives::{
    read_bytes, read_name, read_u32, read_words, write_bytes, write_name, write_u32, write_words,
};

#[test]
fn u32_is_read_least_significant_byte_first() {
    let bytes = [0xAAu8, 0x78, 0x56, 0x34, 0x12, 0xBB];
    assert_eq!(read_u32(&bytes, 1), Ok(0x1234_5678));
    assert_eq!(read_u32(&bytes, 0), Ok(0x3456_78AA));
}

#[test]
fn u32_needs_four_bytes() {
    let bytes = [1u8, 2, 3, 4, 5];
    assert_eq!(read_u32(&bytes, 1), Ok(0x0504_0302));
    assert_eq!(read_u32(&bytes, 2), Err(MdlxError::UnexpectedEof));
    assert_eq!(read_u32(&bytes, 5), Err(MdlxError::UnexpectedEof));
    assert_eq!(read_u32(&bytes, usize::MAX), Err(MdlxError::UnexpectedEof));
    assert_eq!(read_u32(&[], 0), Err(MdlxError::UnexpectedEof));
}

#[test]
fn u32_is_written_least_significant_byte_first() {
    let mut buf = vec![0xFFu8; 6];
    assert_eq!(write_u32(&mut buf, 0x1234_5678, 1), Ok(()));
    assert_eq!(buf, vec![0xFF, 0x78, 0x56, 0x34, 0x12, 0xFF]);
}

#[test]
fn u32_is_not_written_without_room() {
    let mut buf = vec![0xFFu8; 6];
    assert_eq!(write_u32(&mut buf, 1, 3), Err(MdlxError::BufferTooSmall));
    assert_eq!(write_u32(&mut buf, 1, 6), Err(MdlxError::BufferTooSmall));
    assert_eq!(buf, vec![0xFF; 6]);
    assert_eq!(write_u32(&mut buf, 1, 2), Ok(()));
    assert_eq!(buf, vec![0xFF, 0xFF, 1, 0, 0, 0]);
}

#[test]
fn words_are_read_in_order() {
    let bytes = [9u8, 1, 0, 0, 0, 2, 0, 0, 0, 0, 0, 0x80, 0x3F];
    assert_eq!(read_words::<3>(&bytes, 1), Ok([1, 2, 1.0f32.to_bits()]));
    assert_eq!(read_words::<3>(&bytes, 2), Err(MdlxError::UnexpectedEof));
    assert_eq!(read_words::<0>(&bytes, 13), Ok([]));
    assert_eq!(read_words::<1>(&bytes, 14), Err(MdlxError::UnexpectedEof));
}

#[test]
fn words_are_written_in_order() {
    let mut buf = vec![7u8; 10];
    assert_eq!(write_words(&mut buf, &[1u32, 0x0403_0201], 1), Ok(()));
    assert_eq!(buf, vec![7, 1, 0, 0, 0, 1, 2, 3, 4, 7]);
    assert_eq!(write_words(&mut buf, &[1u32, 2], 3), Err(MdlxError::BufferTooSmall));
    assert_eq!(buf, vec![7, 1, 0, 0, 0, 1, 2, 3, 4, 7]);
}

#[test]
fn name_ends_at_the_first_zero_byte() {
    let field = b"Stand\0junk\0\0";
    assert_eq!(read_name(field, 0, 12), Ok("Stand".to_string()));
    assert_eq!(read_name(field, 6, 6), Ok("junk".to_string()));
    assert_eq!(read_name(field, 5, 4), Ok(String::new()));
}

#[test]
fn name_may_fill_its_field() {
    let bytes = b"abcdefgh";
    assert_eq!(read_name(bytes, 0, 8), Ok("abcdefgh".to_string()));
    assert_eq!(read_name(bytes, 2, 3), Ok("cde".to_string()));
}

#[test]
fn name_is_utf8() {
    let bytes = [b'G', 0xC3, 0xA9, 0, 0];
    assert_eq!(read_name(&bytes, 0, 5), Ok("G\u{e9}".to_string()));
    let broken = [b'G', 0xC3, 0, 0, 0];
    assert_eq!(read_name(&broken, 0, 5), Err(MdlxError::InvalidName));
    let lone = [0xFFu8, 0, 0];
    assert_eq!(read_name(&lone, 0, 3), Err(MdlxError::InvalidName));
    let hidden = [b'a', 0, 0xFF];
    assert_eq!(read_name(&hidden, 0, 3), Ok("a".to_string()));
}

#[test]
fn name_field_must_lie_within_the_input() {
    let bytes = b"abc\0";
    assert_eq!(read_name(bytes, 0, 5), Err(MdlxError::UnexpectedEof));
    assert_eq!(read_name(bytes, 2, 3), Err(MdlxError::UnexpectedEof));
    assert_eq!(read_name(bytes, 5, 1), Err(MdlxError::UnexpectedEof));
    assert_eq!(read_name(bytes, 3, 1), Ok(String::new()));
    assert_eq!(read_name(bytes, 4, 0), Ok(String::new()));
    assert_eq!(read_name(bytes, 0, 0), Ok(String::new()));
}

#[test]
fn short_name_is_padded_with_zero_bytes() {
    let mut buf = vec![0xEEu8; 10];
    assert_eq!(write_name(&mut buf, "Walk", 1, 8), Ok(()));
    assert_eq!(buf, vec![0xEE, b'W', b'a', b'l', b'k', 0, 0, 0, 0, 0xEE]);
}

#[test]
fn empty_name_is_all_zero_bytes() {
    let mut buf = vec![0xEEu8; 5];
    assert_eq!(write_name(&mut buf, "", 1, 3), Ok(()));
    assert_eq!(buf, vec![0xEE, 0, 0, 0, 0xEE]);
    assert_eq!(write_name(&mut buf, "x", 5, 0), Ok(()));
    assert_eq!(buf, vec![0xEE, 0, 0, 0, 0xEE]);
}

#[test]
fn long_name_is_cut_to_its_field() {
    let mut buf = vec![0xEEu8; 6];
    assert_eq!(write_name(&mut buf, "Attack", 1, 4), Ok(()));
    assert_eq!(buf, vec![0xEE, b'A', b't', b't', b'a', 0xEE]);
    assert_eq!(write_name(&mut buf, "Walk", 0, 4), Ok(()));
    assert_eq!(buf, vec![b'W', b'a', b'l', b'k', b'a', 0xEE]);
}

#[test]
fn name_is_not_written_without_room() {
    let mut buf = vec![0xEEu8; 4];
    assert_eq!(write_name(&mut buf, "ab", 1, 4), Err(MdlxError::BufferTooSmall));
    assert_eq!(write_name(&mut buf, "ab", 5, 1), Err(MdlxError::BufferTooSmall));
    assert_eq!(buf, vec![0xEE; 4]);
}

#[test]
fn written_name_is_read_back() {
    let mut buf = vec![0xEEu8; 80];
    assert_eq!(write_name(&mut buf, "Stand Ready", 0, 80), Ok(()));
    assert_eq!(read_name(&buf, 0, 80), Ok("Stand Ready".to_string()));
}

#[test]
fn bytes_are_copied_out() {
    let bytes = [1u8, 2, 3, 4, 5];
    assert_eq!(read_bytes(&bytes, 1, 3), Ok(vec![2, 3, 4]));
    assert_eq!(read_bytes(&bytes, 0, 5), Ok(vec![1, 2, 3, 4, 5]));
    assert_eq!(read_bytes(&bytes, 5, 0), Ok(vec![]));
    assert_eq!(read_bytes(&bytes, 3, 3), Err(MdlxError::UnexpectedEof));
    assert_eq!(read_bytes(&bytes, 6, 0), Err(MdlxError::UnexpectedEof));
}

#[test]
fn bytes_are_copied_in() {
    let mut buf = vec![0u8; 5];
    assert_eq!(write_bytes(&mut buf, &[7, 8, 9], 2), Ok(()));
    assert_eq!(buf, vec![0, 0, 7, 8, 9]);
    assert_eq!(write_bytes(&mut buf, &[1, 1], 4), Err(MdlxError::BufferTooSmall));
    assert_eq!(buf, vec![0, 0, 7, 8, 9]);
}

#[test]
fn no_bytes_are_written_anywhere_within_the_buffer() {
    let mut buf = vec![3u8; 2];
    assert_eq!(write_bytes(&mut buf, &[], 0), Ok(()));
    assert_eq!(write_bytes(&mut buf, &[], 2), Ok(()));
    assert_eq!(write_bytes(&mut buf, &[], 3), Err(MdlxError::BufferTooSmall));
    assert_eq!(buf, vec![3, 3]);
}
