use hwr_hod_parser::analysis::{classify_match, decode_match as analysis_decode_match, find_indicator_context, try_find_indicator_context};
use hwr_hod_parser::mips::calc_total_size;
use hwr_hod_parser::xpress::{decode_match, decode_stream, decompress_lsb, decompress_msb, process_bit};

/// Three literals, a one-byte match copying them again, and a zero literal.
fn abc_stream() -> Vec<u8> {
    vec![8, 0, 0, 0, b'a', b'b', b'c', 12, 0]
}

#[test]
fn lsb_literals_and_short_match() {
    let out = decompress_lsb(&abc_stream(), 6).unwrap();
    assert_eq!(out, b"abcabc".to_vec());
}

#[test]
fn lsb_stops_at_requested_size() {
    assert_eq!(decompress_lsb(&abc_stream(), 4).unwrap(), b"abca".to_vec());
    assert_eq!(decompress_lsb(&abc_stream(), 0).unwrap(), Vec::<u8>::new());
}

#[test]
fn lsb_larger_size_gives_what_the_stream_holds() {
    assert_eq!(decompress_lsb(&abc_stream(), 100).unwrap(), b"abcabc\0".to_vec());
}

#[test]
fn match_header_in_last_byte_is_read_as_nothing() {
    // A match needs two bytes left; the decoder moves on to the next bit,
    // which reads the same byte as a literal.
    let stream = vec![8, 0, 0, 0, b'a', b'b', b'c', 12];
    assert_eq!(decompress_lsb(&stream, 6).unwrap(), vec![b'a', b'b', b'c', 12]);
}

#[test]
fn msb_reads_indicator_from_the_top() {
    let stream = vec![0, 0, 0, 0x10, b'a', b'b', b'c', 12, 0];
    assert_eq!(decompress_msb(&stream, 6).unwrap(), b"abcabc".to_vec());
    // Read from the bottom, the same word describes five literals.
    assert_eq!(decompress_lsb(&stream, 6).unwrap(), vec![b'a', b'b', b'c', 12, 0]);
}

#[test]
fn two_byte_match_with_overlap() {
    // Literals x, y, then a match of length 5 from 2 bytes back.
    let stream = vec![4, 0, 0, 0, b'x', b'y', 138, 0];
    assert_eq!(decompress_lsb(&stream, 7).unwrap(), b"xyxyxyx".to_vec());
}

#[test]
fn truncated_match_header_is_reported() {
    let stream = vec![1, 0, 0, 0, 0b111, 0];
    assert!(decode_stream(&stream, 10, false).is_none());
    assert!(decode_stream(&abc_stream(), 6, false).is_some());
}

#[test]
fn empty_stream_decodes_to_nothing() {
    assert_eq!(decompress_lsb(&[], 5).unwrap(), Vec::<u8>::new());
    assert_eq!(decompress_msb(&[1, 2], 5).unwrap(), Vec::<u8>::new());
}

#[test]
fn decode_match_all_kinds() {
    // One byte: offset in the upper six bits, length 3.
    assert_eq!(decode_match(12, &[12], 0).unwrap(), (3, 3, 1));
    // Two bytes, type 1.
    assert_eq!(decode_match(138, &[138, 5], 0).unwrap(), (5, 22, 2));
    // Two bytes, type 2.
    assert_eq!(decode_match(0b0000_0101, &[5, 3], 0).unwrap(), (3, 3 * 64 + 1, 2));
    // Four bytes.
    let b1 = 0b1111_1111u8;
    let input = [b1, 0b0000_1011, 2, 1];
    let (len, off, used) = decode_match(b1, &input, 0).unwrap();
    assert_eq!(len, ((0b011 << 5) | 31) + 3);
    assert_eq!(off, (1 << 13) | (2 << 5) | 1);
    assert_eq!(used, 4);
    // Three bytes.
    assert_eq!(decode_match(0b0001_0011, &[0b0001_0011, 0x34, 0x12], 0).unwrap(), (5, 0x1234, 3));
}

#[test]
fn both_decode_match_agree() {
    let input = [0b1111_1111u8, 0b0000_1011, 2, 1];
    assert_eq!(analysis_decode_match(input[0], &input, 0), decode_match(input[0], &input, 0).unwrap());
    assert_eq!(analysis_decode_match(12, &[12], 0), (3, 3, 1));
}

#[test]
fn process_bit_literal_and_match() {
    let input = [b'q', 4];
    let mut out = vec![0u8; 4];
    let mut oi = 0usize;
    let mut ii = 0usize;
    process_bit(0, &mut out, &mut oi, &mut ii, &input, 4).unwrap();
    assert_eq!((oi, ii), (1, 1));
    assert_eq!(out[0], b'q');
    // A one-byte match of length 3 from 1 back: repeats q, stopped at the end.
    let input2 = [4u8, 0];
    let mut ii2 = 0usize;
    process_bit(1, &mut out, &mut oi, &mut ii2, &input2, 4).unwrap();
    assert_eq!(oi, 4);
    assert_eq!(ii2, 1);
    assert_eq!(out, b"qqqq".to_vec());
}

#[test]
fn classify_match_names() {
    assert_eq!(classify_match(0), "Type 0 (1-byte, offset<64, len=3)");
    assert_eq!(classify_match(2), "Type 1 (2-byte, offset<1024, len 3-18)");
    assert_eq!(classify_match(1), "Type 2 (2-byte, offset<16384, len=3)");
    assert_eq!(classify_match(7), "Type 3 (4-byte, offset up to 2MB)");
    assert_eq!(classify_match(3), "Type 4 (3-byte, offset up to 65535)");
}

#[test]
fn indicator_context_of_literal_and_match() {
    let s = abc_stream();
    let (ctx, pos) = find_indicator_context(&s, 1);
    // The reported position is that of the indicator word covering the byte.
    assert_eq!((ctx.bit_in_word, ctx.bit_value, ctx.match_type.as_str(), pos), (1, 0, "literal", 0));
    let (ctx, pos) = find_indicator_context(&s, 4);
    assert_eq!(ctx.bit_in_word, 3);
    assert_eq!(ctx.bit_value, 1);
    assert_eq!(ctx.match_type, "Type 0 (1-byte, offset<64, len=3)");
    assert_eq!((ctx.match_offset, ctx.match_length, pos), (3, 3, 0));
    let (ctx, pos) = find_indicator_context(&s, 50);
    assert_eq!((ctx.match_type.as_str(), pos), ("unknown", 0));
    let (ctx, _) = find_indicator_context(&[1, 2], 0);
    assert_eq!(ctx.match_type, "unknown");
}

#[test]
fn indicator_position_is_the_covering_word() {
    let (ctx, pos) = find_indicator_context(&[0x02, 0, 0, 0, 0x41, 0x08], 2);
    assert_eq!((ctx.bit_in_word, ctx.bit_value), (1, 1));
    assert_eq!(ctx.match_type, "Type 0 (1-byte, offset<64, len=3)");
    assert_eq!((ctx.match_offset, ctx.match_length, pos), (2, 3, 0));
    // A second indicator word, read after 32 literals.
    let mut s = vec![0u8, 0, 0, 0];
    s.extend(std::iter::repeat(b'x').take(32));
    s.extend_from_slice(&[0, 0, 0, 0, b'y']);
    let (ctx, pos) = find_indicator_context(&s, 32);
    assert_eq!((ctx.bit_in_word, ctx.bit_value, pos), (0, 0, 36));
}

#[test]
fn indicator_context_of_truncated_header() {
    assert!(try_find_indicator_context(&[1, 0, 0, 0, 0b01], 3).is_none());
}

#[test]
fn mip_chain_sizes() {
    assert_eq!(calc_total_size(1024, 1024, "DXT1"), 699064);
    assert_eq!(calc_total_size(1024, 1024, "DXT5"), 1398128);
    assert_eq!(calc_total_size(256, 64, "DXT1"), 10944);
    assert_eq!(calc_total_size(0, 0, "DXT1"), 0);
    assert_eq!(calc_total_size(4, 4, "BC7"), 0);
    assert_eq!(calc_total_size(1, 1, "DXT5"), 16);
    assert_eq!(calc_total_size(3, 0, "DXT1"), 16);
}
