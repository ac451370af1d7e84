use kafka_wire::errors::KafkaErrors;
use kafka_wire::parser::{
    array, decode_nullable_string, read_array, read_bool, read_byte, read_bytes,
    read_compact_string, read_int, read_int_array, read_long, read_many,
    read_nullable_compact_string, read_short, read_u128, read_u128_array, read_u16, read_u32,
    read_u64, read_u8, read_uvarint, read_varint, tag_buffer, KafkaRead, Reader,
};
use kafka_wire::writer::{
    write_array, write_bool, write_bytes, write_compact_string, write_many, write_null,
    write_nullable_compact_string, write_raw, write_tag_buffer, write_uvarint, write_varint,
    write_varint_len, write_varint_main, KafkaWrite,
};

fn uvarint(x: u32) -> Vec<u8> {
    let mut out = Vec::new();
    write_uvarint(&mut out, x).unwrap();
    out
}

fn varint(x: i32) -> Vec<u8> {
    let mut out = Vec::new();
    write_varint_main(&mut out, x).unwrap();
    out
}

#[test]
fn fixed_width_integers_are_big_endian() {
    let mut out = Vec::new();
    write_bytes(&mut out, &0x0102_i16).unwrap();
    write_bytes(&mut out, &-2_i32).unwrap();
    write_bytes(&mut out, &-1_i8).unwrap();
    write_bytes(&mut out, &i64::MIN).unwrap();
    assert_eq!(
        out,
        vec![0x01, 0x02, 0xFF, 0xFF, 0xFF, 0xFE, 0xFF, 0x80, 0, 0, 0, 0, 0, 0, 0]
    );
}

#[test]
fn reading_fixed_width_integers() {
    let data = [
        0xFF, 0x80, 0x00, 0x7F, 0xFF, 0xFF, 0xFF, 0x80, 0, 0, 0, 0, 0, 0, 0, 0x12, 0x34,
    ];
    let mut r = Reader::new(&data);
    assert_eq!(read_byte(&mut r), Ok(-1));
    assert_eq!(read_short(&mut r), Ok(-32768));
    assert_eq!(read_int(&mut r), Ok(0x7FFF_FFFF));
    assert_eq!(read_long(&mut r), Ok(i64::MIN));
    assert_eq!(read_u16(&mut r), Ok(0x1234));
    assert_eq!(r.remaining(), 0);
    assert_eq!(read_u8(&mut r), Err(KafkaErrors::UnexpectedEndOfInput));
}

#[test]
fn reading_unsigned_integers() {
    let mut data = vec![0xFE];
    data.extend_from_slice(&[0xDE, 0xAD, 0xBE, 0xEF]);
    data.extend_from_slice(&[0x80, 0, 0, 0, 0, 0, 0, 1]);
    data.extend_from_slice(&[0xFF; 16]);
    let mut r = Reader::new(&data);
    assert_eq!(read_u8(&mut r), Ok(0xFE));
    assert_eq!(read_u32(&mut r), Ok(0xDEAD_BEEF));
    assert_eq!(read_u64(&mut r), Ok(0x8000_0000_0000_0001));
    assert_eq!(read_u128(&mut r), Ok(u128::MAX));
}

#[test]
fn a_short_read_leaves_the_stream_where_it_was() {
    let data = [1, 2, 3];
    let mut r = Reader::new(&data);
    assert_eq!(read_int(&mut r), Err(KafkaErrors::UnexpectedEndOfInput));
    assert_eq!(r.remaining(), 3);
    assert_eq!(read_short(&mut r), Ok(0x0102));
    assert_eq!(r.remaining(), 1);
}

#[test]
fn booleans() {
    let data = [0, 1, 7];
    let mut r = Reader::new(&data);
    assert_eq!(read_bool(&mut r), Ok(false));
    assert_eq!(read_bool(&mut r), Ok(true));
    assert_eq!(read_bool(&mut r), Ok(true));
    let mut out = Vec::new();
    write_bool(&mut out, true).unwrap();
    write_bool(&mut out, false).unwrap();
    assert_eq!(out, vec![1, 0]);
}

#[test]
fn fixed_width_round_trips() {
    for v in [i32::MIN, -1, 0, 1, 0x1234_5678, i32::MAX] {
        let mut out = Vec::new();
        v.write(&mut out).unwrap();
        assert_eq!(out.len(), 4);
        let mut r = Reader::new(&out);
        assert_eq!(i32::read(&mut r), Ok(v));
    }
    for v in [i64::MIN, -1, 0, i64::MAX] {
        let mut out = Vec::new();
        v.write(&mut out).unwrap();
        let mut r = Reader::new(&out);
        assert_eq!(read_long(&mut r), Ok(v));
    }
    for v in [0u128, 1, u128::MAX, 0x0123_4567_89AB_CDEF_0123_4567_89AB_CDEF] {
        let mut out = Vec::new();
        v.write(&mut out).unwrap();
        let mut r = Reader::new(&out);
        assert_eq!(read_u128(&mut r), Ok(v));
    }
    for v in [i16::MIN, -1, 0, i16::MAX] {
        let mut out = Vec::new();
        v.write(&mut out).unwrap();
        let mut r = Reader::new(&out);
        assert_eq!(read_short(&mut r), Ok(v));
    }
    for v in [i8::MIN, -1, 0, i8::MAX] {
        let mut out = Vec::new();
        v.write(&mut out).unwrap();
        let mut r = Reader::new(&out);
        assert_eq!(read_byte(&mut r), Ok(v));
    }
}

#[test]
fn unsigned_varint_encodings() {
    assert_eq!(uvarint(0), vec![0x00]);
    assert_eq!(uvarint(1), vec![0x01]);
    assert_eq!(uvarint(127), vec![0x7F]);
    assert_eq!(uvarint(128), vec![0x80, 0x01]);
    assert_eq!(uvarint(300), vec![0xAC, 0x02]);
    assert_eq!(uvarint(u32::MAX), vec![0xFF, 0xFF, 0xFF, 0xFF, 0x0F]);
}

#[test]
fn unsigned_varint_round_trips() {
    for v in [0u32, 1, 127, 128, 255, 16383, 16384, 0x0FFF_FFFF, 0x1000_0000, u32::MAX] {
        let bytes = uvarint(v);
        let mut r = Reader::new(&bytes);
        assert_eq!(read_uvarint(&mut r), Ok(v));
        assert_eq!(r.remaining(), 0);
    }
}

#[test]
fn unsigned_varint_needs_not_be_minimal() {
    let data = [0x80, 0x00, 0x55];
    let mut r = Reader::new(&data);
    assert_eq!(read_uvarint(&mut r), Ok(0));
    assert_eq!(r.remaining(), 1);
}

#[test]
fn unsigned_varint_drops_the_bits_beyond_32() {
    let data = [0xFF, 0xFF, 0xFF, 0xFF, 0x7F];
    let mut r = Reader::new(&data);
    assert_eq!(read_uvarint(&mut r), Ok(u32::MAX));
}

#[test]
fn a_varint_of_more_than_five_bytes_is_malformed() {
    let data = [0x80, 0x80, 0x80, 0x80, 0x80, 0x01];
    let mut r = Reader::new(&data);
    assert_eq!(read_uvarint(&mut r), Err(KafkaErrors::MalformedVarint));
    assert_eq!(r.remaining(), 1);
    assert_eq!(read_uvarint(&mut r), Ok(1));
    let mut r = Reader::new(&data);
    assert_eq!(read_varint(&mut r), Err(KafkaErrors::MalformedVarint));
    assert_eq!(r.remaining(), 1);
    let five = [0xFF, 0x80, 0x81, 0x80, 0x80];
    let mut r = Reader::new(&five);
    assert_eq!(read_uvarint(&mut r), Err(KafkaErrors::MalformedVarint));
    assert_eq!(r.remaining(), 0);
}

#[test]
fn a_malformed_varint_inside_a_string_leaves_the_stream_where_it_was() {
    let data = [0x80, 0x80, 0x80, 0x80, 0x80, 0x01];
    let mut r = Reader::new(&data);
    assert_eq!(read_compact_string(&mut r), Err(KafkaErrors::MalformedVarint));
    assert_eq!(r.remaining(), 6);
    let mut r = Reader::new(&data);
    assert_eq!(tag_buffer(&mut r), Err(KafkaErrors::MalformedVarint));
    assert_eq!(r.remaining(), 6);
}

#[test]
fn a_varint_that_is_cut_off_ends_too_early() {
    let data = [0x80, 0x80];
    let mut r = Reader::new(&data);
    assert_eq!(read_uvarint(&mut r), Err(KafkaErrors::UnexpectedEndOfInput));
    assert_eq!(r.remaining(), 2);
    let four = [0x80, 0x80, 0x80, 0x80];
    let mut r = Reader::new(&four);
    assert_eq!(read_varint(&mut r), Err(KafkaErrors::UnexpectedEndOfInput));
    assert_eq!(r.remaining(), 4);
    let empty: [u8; 0] = [];
    let mut r = Reader::new(&empty);
    assert_eq!(read_varint(&mut r), Err(KafkaErrors::UnexpectedEndOfInput));
}

#[test]
fn signed_varint_encodings() {
    assert_eq!(varint(0), vec![0x00]);
    assert_eq!(varint(-1), vec![0x01]);
    assert_eq!(varint(1), vec![0x02]);
    assert_eq!(varint(-2), vec![0x03]);
    assert_eq!(varint(63), vec![0x7E]);
    assert_eq!(varint(-64), vec![0x7F]);
    assert_eq!(varint(64), vec![0x80, 0x01]);
    assert_eq!(varint(i32::MAX), vec![0xFE, 0xFF, 0xFF, 0xFF, 0x0F]);
    assert_eq!(varint(i32::MIN), vec![0xFF, 0xFF, 0xFF, 0xFF, 0x0F]);
}

#[test]
fn signed_varint_round_trips() {
    for v in [i32::MIN, -65, -64, -1, 0, 1, 63, 64, 1_000_000, i32::MAX] {
        let bytes = varint(v);
        let mut r = Reader::new(&bytes);
        assert_eq!(read_varint(&mut r), Ok(v));
        assert_eq!(r.remaining(), 0);
    }
}

#[test]
fn lengths_as_varints() {
    let mut out = Vec::new();
    write_varint(&mut out, 300).unwrap();
    assert_eq!(out, vec![0xAC, 0x02]);
    let mut out = Vec::new();
    write_varint_len(&mut out, 3).unwrap();
    assert_eq!(out, vec![0x06]);
}

#[test]
fn compact_string_encodings() {
    let mut out = Vec::new();
    write_compact_string(&mut out, b"abc").unwrap();
    assert_eq!(out, vec![4, b'a', b'b', b'c']);
    let mut out = Vec::new();
    write_compact_string(&mut out, b"").unwrap();
    assert_eq!(out, vec![1]);
    let mut out = Vec::new();
    write_nullable_compact_string(&mut out, None).unwrap();
    assert_eq!(out, vec![0]);
    let mut out = Vec::new();
    write_nullable_compact_string(&mut out, Some(b"k")).unwrap();
    assert_eq!(out, vec![2, b'k']);
}

#[test]
fn compact_string_round_trips() {
    let long = vec![0x5A_u8; 200];
    for s in [&b""[..], &b"a"[..], &b"topic-name"[..], &long[..]] {
        let mut out = Vec::new();
        write_compact_string(&mut out, s).unwrap();
        out.push(0xEE);
        let mut r = Reader::new(&out);
        assert_eq!(read_compact_string(&mut r), Ok(s.to_vec()));
        assert_eq!(r.remaining(), 1);
    }
}

#[test]
fn the_null_string_round_trips_as_no_value() {
    let mut out = Vec::new();
    write_nullable_compact_string(&mut out, None).unwrap();
    let mut r = Reader::new(&out);
    assert_eq!(read_nullable_compact_string(&mut r), Ok(None));
    let mut out = Vec::new();
    write_nullable_compact_string(&mut out, Some(b"")).unwrap();
    let mut r = Reader::new(&out);
    assert_eq!(read_nullable_compact_string(&mut r), Ok(Some(vec![])));
    let mut r = Reader::new(&[0]);
    assert_eq!(read_compact_string(&mut r), Ok(vec![]));
}

#[test]
fn a_compact_string_that_is_cut_off_ends_too_early() {
    let data = [5, b'a', b'b'];
    let mut r = Reader::new(&data);
    assert_eq!(read_compact_string(&mut r), Err(KafkaErrors::UnexpectedEndOfInput));
    assert_eq!(r.remaining(), 3);
}

#[test]
fn strings_behind_a_16_bit_length() {
    let data = [0x00, 0x02, b'h', b'i', 0xFF, 0xFF, 0x00, 0x00, 0xFF, 0xFE];
    let mut r = Reader::new(&data);
    assert_eq!(decode_nullable_string(&mut r), Ok(Some(b"hi".to_vec())));
    assert_eq!(decode_nullable_string(&mut r), Ok(None));
    assert_eq!(decode_nullable_string(&mut r), Ok(Some(vec![])));
    assert_eq!(decode_nullable_string(&mut r), Err(KafkaErrors::MalformedFrame));
    assert_eq!(r.remaining(), 2);
    let short = [0x00, 0x05, b'x'];
    let mut r = Reader::new(&short);
    assert_eq!(decode_nullable_string(&mut r), Err(KafkaErrors::UnexpectedEndOfInput));
}

#[test]
fn tag_buffers_are_skipped() {
    let data = [0x00, 0x99];
    let mut r = Reader::new(&data);
    assert_eq!(tag_buffer(&mut r), Ok(()));
    assert_eq!(r.remaining(), 1);
    // Two fields: tag 1 with three bytes, tag 300 with none.
    let data = [0x02, 0x01, 0x03, 9, 9, 9, 0xAC, 0x02, 0x00, 0x77];
    let mut r = Reader::new(&data);
    assert_eq!(tag_buffer(&mut r), Ok(()));
    assert_eq!(r.remaining(), 1);
    let cut = [0x01, 0x01, 0x03, 9];
    let mut r = Reader::new(&cut);
    assert_eq!(tag_buffer(&mut r), Err(KafkaErrors::UnexpectedEndOfInput));
    assert_eq!(r.remaining(), 4);
}

#[test]
fn the_empty_tag_buffer_and_the_null_marker() {
    let mut out = Vec::new();
    write_tag_buffer(&mut out).unwrap();
    write_null(&mut out).unwrap();
    write_raw(&mut out, &[1, 2]);
    assert_eq!(out, vec![0x00, 0xFF, 1, 2]);
}

#[test]
fn compact_arrays_of_integers() {
    let mut out = Vec::new();
    write_array(&mut out, &[1_i32, -1, 256]).unwrap();
    assert_eq!(out, vec![4, 0, 0, 0, 1, 0xFF, 0xFF, 0xFF, 0xFF, 0, 0, 1, 0]);
    let mut r = Reader::new(&out);
    assert_eq!(read_int_array(&mut r), Ok(vec![1, -1, 256]));
    let mut out = Vec::new();
    let none: [i32; 0] = [];
    write_array(&mut out, &none).unwrap();
    assert_eq!(out, vec![1]);
    let mut r = Reader::new(&[0]);
    assert_eq!(read_int_array(&mut r), Ok(vec![]));
    let mut r = Reader::new(&[3, 0, 0, 0, 1, 0, 0]);
    assert_eq!(read_int_array(&mut r), Err(KafkaErrors::UnexpectedEndOfInput));
    assert_eq!(r.remaining(), 7);
}

#[test]
fn compact_arrays_of_uuids() {
    let mut out = Vec::new();
    write_array(&mut out, &[7_u128, u128::MAX]).unwrap();
    assert_eq!(out.len(), 33);
    let mut r = Reader::new(&out);
    assert_eq!(read_u128_array(&mut r), Ok(vec![7, u128::MAX]));
    let mut r = Reader::new(&out);
    assert_eq!(read_array::<u128>(&mut r), Ok(vec![7, u128::MAX]));
}

#[test]
fn items_without_their_number() {
    let mut out = Vec::new();
    write_many(&mut out, &[1_i16, 2]).unwrap();
    assert_eq!(out, vec![0, 1, 0, 2]);
    let mut r = Reader::new(&out);
    assert_eq!(read_many::<i16>(&mut r, 2), Ok(vec![1, 2]));
    let mut r = Reader::new(&out);
    assert_eq!(read_many::<i16>(&mut r, 3), Err(KafkaErrors::UnexpectedEndOfInput));
}

#[test]
fn arrays_of_names() {
    let data = [3, 4, b'f', b'o', b'o', 0, 2, b'x', 0, 0x42];
    let mut r = Reader::new(&data);
    assert_eq!(array(&mut r), Ok(vec![b"foo".to_vec(), b"x".to_vec()]));
    assert_eq!(r.remaining(), 1);
}

#[test]
fn taking_bytes_and_sub_streams() {
    let data = [1, 2, 3, 4, 5];
    let mut r = Reader::new(&data);
    assert_eq!(read_bytes(&mut r, 2), Ok(vec![1, 2]));
    let mut sub = r.take(2).unwrap();
    assert_eq!(sub.remaining(), 2);
    assert_eq!(read_u8(&mut sub), Ok(3));
    assert_eq!(r.remaining(), 1);
    assert!(r.take(2).is_err());
    assert_eq!(read_bytes(&mut r, 2), Err(KafkaErrors::UnexpectedEndOfInput));
    assert_eq!(read_u8(&mut r), Ok(5));
}
