use path_walker::byte_buffer::ByteBuffer;
use path_walker::varint::{encode_compound_int, StreamError, MAX_ENCODED_LEN};

fn decode(bytes: &[u8]) -> Result<i64, StreamError> {
    ByteBuffer::new(bytes).read_compound_int()
}

#[test]
fn zero_byte_decodes_to_zero_and_takes_one_byte() {
    let bytes = [0x00u8, 0xAA];
    let mut buf = ByteBuffer::new(&bytes);
    assert_eq!(buf.consumed(), 0);
    assert_eq!(buf.read_compound_int(), Ok(0));
    assert_eq!(buf.consumed(), 1);
    assert_eq!(buf.next(), Some(0xAA));
    assert!(buf.is_empty());
}

#[test]
fn one_leading_bit_takes_one_more_byte() {
    let bytes = [0x80u8, 0x05, 0xAA];
    let mut buf = ByteBuffer::new(&bytes);
    assert_eq!(buf.read_compound_int(), Ok(5));
    assert_eq!(buf.consumed(), 2);
    assert_eq!(buf.next(), Some(0xAA));
    assert!(buf.is_empty());
}

#[test]
fn all_ones_byte_takes_eight_more_bytes() {
    let bytes = [0xFFu8, 0x00, 0x01, 0x02, 0x03, 0x04, 0x05, 0x06, 0x07, 0xAA];
    let mut buf = ByteBuffer::new(&bytes);
    assert_eq!(buf.read_compound_int(), Ok(0x0001_0203_0405_0607));
    assert_eq!(buf.consumed(), 9);
    assert_eq!(buf.next(), Some(0xAA));
    assert!(buf.is_empty());
}

#[test]
fn single_byte_values_are_the_byte_itself() {
    assert_eq!(decode(&[0x01]), Ok(1));
    assert_eq!(decode(&[0x7F]), Ok(127));
}

#[test]
fn low_bits_of_first_byte_are_most_significant() {
    assert_eq!(decode(&[0xC1, 0x02, 0x03]), Ok(0x01_0203));
    assert_eq!(decode(&[0xBF, 0xFF]), Ok(0x3FFF));
    assert_eq!(decode(&[0xE5, 0x00, 0x00, 0x01]), Ok(0x0500_0001));
}

#[test]
fn seven_leading_bits_leave_no_payload_in_first_byte() {
    assert_eq!(
        decode(&[0xFE, 0x01, 0x02, 0x03, 0x04, 0x05, 0x06, 0x07]),
        Ok(0x01_0203_0405_0607)
    );
}

#[test]
fn longer_encodings_of_small_values_decode_too() {
    assert_eq!(decode(&[0x80, 0x00]), Ok(0));
    assert_eq!(decode(&[0xC0, 0x00, 0x05]), Ok(5));
}

#[test]
fn empty_stream_is_unexpected_end() {
    assert_eq!(decode(&[]), Err(StreamError::UnexpectedEndOfStream));
}

#[test]
fn stream_that_ends_inside_a_value_is_unexpected_end() {
    let bytes = [0xC0u8, 0x01];
    let mut buf = ByteBuffer::new(&bytes);
    assert_eq!(buf.read_compound_int(), Err(StreamError::UnexpectedEndOfStream));
    assert!(buf.is_empty());
    assert_eq!(buf.consumed(), 2);
    assert_eq!(decode(&[0x80]), Err(StreamError::UnexpectedEndOfStream));
    assert_eq!(
        decode(&[0xFF, 0, 0, 0, 0, 0, 0, 0]),
        Err(StreamError::UnexpectedEndOfStream)
    );
}

#[test]
fn largest_coordinate_decodes() {
    assert_eq!(
        decode(&[0xFF, 0x7F, 0xFF, 0xFF, 0xFF, 0xFF, 0xFF, 0xFF, 0xFF]),
        Ok(i64::MAX)
    );
}

#[test]
fn value_above_largest_coordinate_overflows() {
    let bytes = [0xFFu8, 0x80, 0, 0, 0, 0, 0, 0, 0, 0xAA];
    let mut buf = ByteBuffer::new(&bytes);
    assert_eq!(buf.read_compound_int(), Err(StreamError::Overflow));
    assert_eq!(buf.consumed(), 9);
    assert_eq!(buf.next(), Some(0xAA));
    assert_eq!(
        decode(&[0xFF, 0xFF, 0xFF, 0xFF, 0xFF, 0xFF, 0xFF, 0xFF, 0xFF]),
        Err(StreamError::Overflow)
    );
}

#[test]
fn truncated_overflowing_value_is_unexpected_end() {
    assert_eq!(
        decode(&[0xFF, 0x80, 0, 0]),
        Err(StreamError::UnexpectedEndOfStream)
    );
}

#[test]
fn encoder_picks_shortest_form() {
    assert_eq!(encode_compound_int(0), vec![0x00]);
    assert_eq!(encode_compound_int(5), vec![0x05]);
    assert_eq!(encode_compound_int(127), vec![0x7F]);
    assert_eq!(encode_compound_int(128), vec![0x80, 0x80]);
    assert_eq!(encode_compound_int(0x3FFF), vec![0xBF, 0xFF]);
    assert_eq!(encode_compound_int(0x4000), vec![0xC0, 0x40, 0x00]);
    assert_eq!(encode_compound_int(0x01_0203), vec![0xC1, 0x02, 0x03]);
    assert_eq!(
        encode_compound_int(0x00FF_FFFF_FFFF_FFFF),
        vec![0xFE, 0xFF, 0xFF, 0xFF, 0xFF, 0xFF, 0xFF, 0xFF]
    );
    assert_eq!(
        encode_compound_int(0x0100_0000_0000_0000),
        vec![0xFF, 0x01, 0, 0, 0, 0, 0, 0, 0]
    );
    assert_eq!(
        encode_compound_int(i64::MAX),
        vec![0xFF, 0x7F, 0xFF, 0xFF, 0xFF, 0xFF, 0xFF, 0xFF, 0xFF]
    );
}

#[test]
fn encode_then_decode_gives_value_back() {
    let mut values: Vec<i64> = vec![0, 1, 5, 127, 128, 255, 256, 1000, 65535, 65536, i64::MAX];
    for shift in 0..63 {
        let p: i64 = 1 << shift;
        values.push(p);
        values.push(p - 1);
        values.push(p + (p >> 1));
    }
    for v in values {
        let bytes = encode_compound_int(v);
        assert!(bytes.len() >= 1 && bytes.len() <= MAX_ENCODED_LEN);
        let mut buf = ByteBuffer::new(&bytes);
        assert_eq!(buf.read_compound_int(), Ok(v));
        assert!(buf.is_empty());
    }
}

#[test]
fn encoded_value_decodes_in_front_of_other_bytes() {
    let mut bytes = encode_compound_int(300);
    let len = bytes.len();
    bytes.push(0x11);
    bytes.push(0x22);
    let mut buf = ByteBuffer::new(&bytes);
    assert_eq!(len, 2);
    assert_eq!(buf.read_compound_int(), Ok(300));
    assert_eq!(buf.next(), Some(0x11));
    assert_eq!(buf.next(), Some(0x22));
    assert_eq!(buf.next(), None);
}

#[test]
fn next_walks_the_bytes_and_then_stays_at_the_end() {
    let bytes = [7u8, 8];
    let mut buf = ByteBuffer::new(&bytes);
    assert!(!buf.is_empty());
    assert_eq!(buf.next(), Some(7));
    assert!(!buf.is_empty());
    assert_eq!(buf.next(), Some(8));
    assert!(buf.is_empty());
    assert_eq!(buf.next(), None);
    assert_eq!(buf.next(), None);
    assert!(buf.is_empty());
}

#[test]
fn cloned_buffer_reads_on_its_own() {
    let bytes = [1u8, 2, 3];
    let mut buf = ByteBuffer::new(&bytes);
    assert_eq!(buf.next(), Some(1));
    let mut copy = buf.clone();
    assert_eq!(copy.next(), Some(2));
    assert_eq!(buf.next(), Some(2));
    assert_eq!(copy.next(), Some(3));
}
