//! Tests for the byte-stream primitives: variable-length integers, strings,
//! and the two compact header encodings.

use madeleine::stream::MyReader;
use madeleine::BondType;
use madeleine::MadeleineError;

#[test]
fn uleb128_single_byte() {
    let mut r = MyReader::new(vec![0x00]);
    assert_eq!(r.read_uleb128(), Ok(0));
    let mut r = MyReader::new(vec![0x7F]);
    assert_eq!(r.read_uleb128(), Ok(127));
}

#[test]
fn uleb128_multi_byte() {
    let mut r = MyReader::new(vec![0xE5, 0x8E, 0x26]);
    assert_eq!(r.read_uleb128(), Ok(624485));
    assert_eq!(r.stream_position(), 3);
}

#[test]
fn uleb128_max_u64() {
    let mut r = MyReader::new(vec![
        0xFF, 0xFF, 0xFF, 0xFF, 0xFF, 0xFF, 0xFF, 0xFF, 0xFF, 0x01,
    ]);
    assert_eq!(r.read_uleb128(), Ok(u64::MAX));
}

#[test]
fn uleb128_overflow_is_an_error() {
    // Ten continuation bytes without a terminator within the 64-bit range.
    let mut r = MyReader::new(vec![
        0xFF, 0xFF, 0xFF, 0xFF, 0xFF, 0xFF, 0xFF, 0xFF, 0xFF, 0xFF, 0x01,
    ]);
    assert_eq!(r.read_uleb128(), Err(MadeleineError::TryFromIntError));
    // Terminates at the tenth byte, but the value needs 70 bits.
    let mut r = MyReader::new(vec![
        0xFF, 0xFF, 0xFF, 0xFF, 0xFF, 0xFF, 0xFF, 0xFF, 0xFF, 0x7F,
    ]);
    assert_eq!(r.read_uleb128(), Err(MadeleineError::TryFromIntError));
}

#[test]
fn uleb128_truncated_is_an_error() {
    let mut r = MyReader::new(vec![0x80]);
    assert_eq!(r.read_uleb128(), Err(MadeleineError::ReadError));
}

#[test]
fn sleb128_zig_zag_values() {
    // 0, -1, 1, -2, 2 in zig-zag order.
    let mut r = MyReader::new(vec![0x00, 0x01, 0x02, 0x03, 0x04]);
    assert_eq!(r.read_sleb128(), Ok(0));
    assert_eq!(r.read_sleb128(), Ok(-1));
    assert_eq!(r.read_sleb128(), Ok(1));
    assert_eq!(r.read_sleb128(), Ok(-2));
    assert_eq!(r.read_sleb128(), Ok(2));
}

#[test]
fn sleb128_extremes() {
    // zig_zag(i64::MIN) == u64::MAX, zig_zag(i64::MAX) == u64::MAX - 1.
    let mut r = MyReader::new(vec![
        0xFF, 0xFF, 0xFF, 0xFF, 0xFF, 0xFF, 0xFF, 0xFF, 0xFF, 0x01,
    ]);
    assert_eq!(r.read_sleb128(), Ok(i64::MIN));
    let mut r = MyReader::new(vec![
        0xFE, 0xFF, 0xFF, 0xFF, 0xFF, 0xFF, 0xFF, 0xFF, 0xFF, 0x01,
    ]);
    assert_eq!(r.read_sleb128(), Ok(i64::MAX));
}

#[test]
fn read_string_utf8() {
    let mut r = MyReader::new(vec![0x02, 0xC3, 0xA9]);
    assert_eq!(r.read_string(), Ok(String::from("\u{e9}")));
}

#[test]
fn read_string_invalid_utf8() {
    let mut r = MyReader::new(vec![0x01, 0xFF]);
    assert_eq!(r.read_string(), Err(MadeleineError::FromUtf8Error));
}

#[test]
fn read_string_truncated_payload() {
    let mut r = MyReader::new(vec![0x05, b'a', b'b']);
    assert_eq!(r.read_string(), Err(MadeleineError::ReadError));
}

#[test]
fn read_wstring_utf16() {
    // One little-endian code unit: 0x00E9.
    let mut r = MyReader::new(vec![0x01, 0xE9, 0x00]);
    assert_eq!(r.read_wstring(), Ok(String::from("\u{e9}")));
}

#[test]
fn read_wstring_invalid_surrogate() {
    // A lone high surrogate 0xD800 is not valid UTF-16.
    let mut r = MyReader::new(vec![0x01, 0x00, 0xD8]);
    assert_eq!(r.read_wstring(), Err(MadeleineError::FromUtf16Error));
}

#[test]
fn read_wstring_truncated_payload() {
    let mut r = MyReader::new(vec![0x02, 0x41]);
    assert_eq!(r.read_wstring(), Err(MadeleineError::ReadError));
}

#[test]
fn field_header_literal_id() {
    // id 5, tag Uint8: (5 << 5) | 3.
    let mut r = MyReader::new(vec![(5 << 5) | 3]);
    assert_eq!(r.get_type_and_id(), Ok((BondType::Uint8, 5)));
}

#[test]
fn field_header_one_byte_id() {
    let mut r = MyReader::new(vec![(6 << 5) | 3, 0x99]);
    assert_eq!(r.get_type_and_id(), Ok((BondType::Uint8, 0x99)));
    assert_eq!(r.stream_position(), 2);
}

#[test]
fn field_header_two_byte_id() {
    let mut r = MyReader::new(vec![(7 << 5) | 3, 0x34, 0x12]);
    assert_eq!(r.get_type_and_id(), Ok((BondType::Uint8, 0x1234)));
    assert_eq!(r.stream_position(), 3);
}

#[test]
fn field_header_unknown_tag() {
    let mut r = MyReader::new(vec![19]);
    assert_eq!(
        r.get_type_and_id(),
        Err(MadeleineError::TryFromPrimitiveError)
    );
}

#[test]
fn field_header_truncated_id_extension() {
    let mut r = MyReader::new(vec![(7 << 5) | 3, 0x34]);
    assert_eq!(r.get_type_and_id(), Err(MadeleineError::ReadError));
}

#[test]
fn container_header_inline_count() {
    // Every inline count 0..=6 decodes to itself.
    for c in 0u32..=6 {
        let mut r = MyReader::new(vec![((c as u8 + 1) << 5) | 2]);
        assert_eq!(r.get_type_and_count(), Ok((BondType::Bool, c)));
        assert_eq!(r.stream_position(), 1);
    }
}

#[test]
fn container_header_extended_count() {
    // Count mode 0: the count follows as a LEB128.
    let mut r = MyReader::new(vec![0x02, 0x07]);
    assert_eq!(r.get_type_and_count(), Ok((BondType::Bool, 7)));
    let mut r = MyReader::new(vec![0x02, 0xE5, 0x8E, 0x26]);
    assert_eq!(r.get_type_and_count(), Ok((BondType::Bool, 624485)));
}

#[test]
fn container_header_count_overflow() {
    // A count beyond u32 is a narrowing failure.
    let mut r = MyReader::new(vec![0x02, 0x80, 0x80, 0x80, 0x80, 0x10]);
    assert_eq!(r.get_type_and_count(), Err(MadeleineError::TryFromIntError));
}

#[test]
fn bond_type_codes() {
    assert_eq!(BondType::try_from_u8(0), Ok(BondType::Stop));
    assert_eq!(BondType::try_from_u8(10), Ok(BondType::Struct));
    assert_eq!(BondType::try_from_u8(18), Ok(BondType::Wstring));
    assert_eq!(BondType::try_from_u8(127), Ok(BondType::Unavailable));
    assert_eq!(
        BondType::try_from_u8(19),
        Err(MadeleineError::TryFromPrimitiveError)
    );
    assert_eq!(
        BondType::try_from_u8(31),
        Err(MadeleineError::TryFromPrimitiveError)
    );
}
