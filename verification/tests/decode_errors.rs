use wry_bindgen::clamped::Clamped;
use wry_bindgen::encode::{BinaryDecode, BinaryEncode};
use wry_bindgen::ipc::{DecodeError, DecodedData, EncodedData};

fn empty_decoder() -> DecodedData {
    let bytes = EncodedData::new().to_bytes();
    DecodedData::from_bytes(&bytes).unwrap()
}

fn decode_errs<T: BinaryDecode>() -> bool {
    let mut d = empty_decoder();
    T::decode(&mut d).is_err()
}

fn check_primitive_decode_errors_on_empty_buffer() {
    assert!(decode_errs::<u8>(), "expected decode error for {}", "u8");
    assert!(decode_errs::<u16>(), "expected decode error for {}", "u16");
    assert!(decode_errs::<u32>(), "expected decode error for {}", "u32");
    assert!(decode_errs::<u64>(), "expected decode error for {}", "u64");
    assert!(decode_errs::<u128>(), "expected decode error for {}", "u128");
    assert!(decode_errs::<i8>(), "expected decode error for {}", "i8");
    assert!(decode_errs::<i16>(), "expected decode error for {}", "i16");
    assert!(decode_errs::<i32>(), "expected decode error for {}", "i32");
    assert!(decode_errs::<i64>(), "expected decode error for {}", "i64");
    assert!(decode_errs::<i128>(), "expected decode error for {}", "i128");
    assert!(decode_errs::<usize>(), "expected decode error for {}", "usize");
    assert!(decode_errs::<isize>(), "expected decode error for {}", "isize");
    assert!(decode_errs::<bool>(), "expected decode error for {}", "bool");
    assert!(decode_errs::<char>(), "expected decode error for {}", "char");
    assert!(decode_errs::<String>(), "expected decode error for {}", "String");
}

fn check_char_decode_rejects_invalid_scalar_value() {
    let mut enc = EncodedData::new();
    enc.push_u32(0x11_0000);
    let bytes = enc.to_bytes();
    let mut d = DecodedData::from_bytes(&bytes).unwrap();
    assert!(matches!(char::decode(&mut d), Err(DecodeError::Custom(_))));
}

fn check_string_decode_errors_on_truncation_and_bad_utf8() {
    let mut enc = EncodedData::new();
    enc.push_u32(5);
    let bytes = enc.to_bytes();
    let mut d = DecodedData::from_bytes(&bytes).unwrap();
    assert!(matches!(
        String::decode(&mut d),
        Err(DecodeError::StringBufferTooShort { .. })
    ));

    let mut enc = EncodedData::new();
    enc.push_u32(2);
    enc.str_buf.extend_from_slice(&[0xff, 0xfe]);
    let bytes = enc.to_bytes();
    let mut d = DecodedData::from_bytes(&bytes).unwrap();
    assert!(matches!(String::decode(&mut d), Err(DecodeError::InvalidUtf8 { .. })));
}

fn check_clamped_decode_errors_when_buffer_truncated() {
    let mut enc = EncodedData::new();
    enc.push_u32(3);
    enc.push_u8(1);
    let bytes = enc.to_bytes();
    let mut d = DecodedData::from_bytes(&bytes).unwrap();
    assert!(Clamped::<Vec<u8>>::decode(&mut d).is_err());
}

#[test]
fn encode_primitive_decode_errors_on_empty_buffer() {
    check_primitive_decode_errors_on_empty_buffer();
}

#[test]
fn encode_char_decode_rejects_invalid_scalar_value() {
    check_char_decode_rejects_invalid_scalar_value();
}

#[test]
fn encode_string_decode_errors_on_truncation_and_bad_utf8() {
    check_string_decode_errors_on_truncation_and_bad_utf8();
}

#[test]
fn encode_clamped_decode_errors_when_buffer_truncated() {
    check_clamped_decode_errors_when_buffer_truncated();
}

#[test]
fn tests_primitive_decode_errors_on_empty_buffer() {
    check_primitive_decode_errors_on_empty_buffer();
}

#[test]
fn tests_char_decode_rejects_invalid_scalar_value() {
    check_char_decode_rejects_invalid_scalar_value();
}

#[test]
fn tests_string_decode_errors_on_truncation_and_bad_utf8() {
    check_string_decode_errors_on_truncation_and_bad_utf8();
}

#[test]
fn tests_clamped_decode_errors_when_buffer_truncated() {
    check_clamped_decode_errors_when_buffer_truncated();
}

#[test]
fn values_decode_back_to_what_was_encoded() {
    let mut enc = EncodedData::new();
    7u8.encode(&mut enc);
    0xBEEFu16.encode(&mut enc);
    0x1_0000_0002u64.encode(&mut enc);
    (-5i32).encode(&mut enc);
    true.encode(&mut enc);
    'λ'.encode(&mut enc);
    String::from("héllo").encode(&mut enc);
    Some(9u32).encode(&mut enc);
    vec![1u16, 2, 3].encode(&mut enc);
    let bytes = enc.to_bytes();
    let mut d = DecodedData::from_bytes(&bytes).unwrap();
    assert_eq!(u8::decode(&mut d).unwrap(), 7);
    assert_eq!(u16::decode(&mut d).unwrap(), 0xBEEF);
    assert_eq!(u64::decode(&mut d).unwrap(), 0x1_0000_0002);
    assert_eq!(i32::decode(&mut d).unwrap(), -5);
    assert!(bool::decode(&mut d).unwrap());
    assert_eq!(char::decode(&mut d).unwrap(), 'λ');
    assert_eq!(String::decode(&mut d).unwrap(), "héllo");
    assert_eq!(Option::<u32>::decode(&mut d).unwrap(), Some(9));
    assert_eq!(Vec::<u16>::decode(&mut d).unwrap(), vec![1, 2, 3]);
    assert!(d.is_empty());
}

#[test]
fn u64_is_two_words_low_word_first() {
    let mut enc = EncodedData::new();
    enc.push_u64(0x0000_0001_0000_0002);
    assert_eq!(enc.u32_buf, vec![2, 1]);
}

#[test]
fn frame_has_three_offsets_then_sections() {
    let mut enc = EncodedData::new();
    enc.push_u32(0x0403_0201);
    enc.push_u16(0x0605);
    enc.push_u8(7);
    enc.push_str("ab");
    let bytes = enc.to_bytes();
    assert_eq!(
        bytes,
        vec![
            20, 0, 0, 0, 22, 0, 0, 0, 23, 0, 0, 0, 1, 2, 3, 4, 2, 0, 0, 0, 5, 6, 7, b'a', b'b'
        ]
    );
    assert_eq!(enc.byte_len(), bytes.len());
}

#[test]
fn malformed_header_is_rejected() {
    assert!(matches!(DecodedData::from_bytes(&[1, 2, 3]), Err(DecodeError::InvalidHeader)));
    assert!(matches!(
        DecodedData::from_bytes(&[12, 0, 0, 0, 11, 0, 0, 0, 12, 0, 0, 0]),
        Err(DecodeError::InvalidHeader)
    ));
}

#[test]
fn empty_word_stream_reports_u32_buffer_empty() {
    let mut d = empty_decoder();
    assert!(matches!(u32::decode(&mut d), Err(DecodeError::U32BufferEmpty)));
    assert!(matches!(u8::decode(&mut d), Err(DecodeError::U8BufferEmpty)));
    assert!(matches!(u16::decode(&mut d), Err(DecodeError::U16BufferEmpty)));
}
