//! Tests for the value and struct decoders: containers, maps, the
//! packed-blob fast path, base/derived structs, the length invariant, and
//! the identifier reconstruction heuristic.

use madeleine::decode::process_values_for_guids;
use madeleine::decode::read_field;
use madeleine::decode::read_list;
use madeleine::decode::read_map;
use madeleine::decode::read_struct;
use madeleine::decode::read_value;
use madeleine::stream::MyReader;
use madeleine::BondType;
use madeleine::BondValue;
use madeleine::Guid;
use madeleine::MadeleineError;

#[test]
fn scalar_values() {
    let mut r = MyReader::new(vec![0x00]);
    assert_eq!(read_value(&BondType::Bool, &mut r), Ok(BondValue::Bool(false)));
    let mut r = MyReader::new(vec![0x02]);
    assert_eq!(read_value(&BondType::Bool, &mut r), Ok(BondValue::Bool(true)));
    let mut r = MyReader::new(vec![0xFF]);
    assert_eq!(read_value(&BondType::Uint8, &mut r), Ok(BondValue::Uint8(255)));
    let mut r = MyReader::new(vec![0xFF]);
    assert_eq!(read_value(&BondType::Int8, &mut r), Ok(BondValue::Int8(-1)));
    let mut r = MyReader::new(vec![0xE5, 0x8E, 0x26]);
    assert_eq!(
        read_value(&BondType::Uint32, &mut r),
        Ok(BondValue::Uint32(624485))
    );
    let mut r = MyReader::new(vec![0x03]);
    assert_eq!(read_value(&BondType::Int16, &mut r), Ok(BondValue::Int16(-2)));
    let mut r = MyReader::new(vec![0x04]);
    assert_eq!(read_value(&BondType::Int64, &mut r), Ok(BondValue::Int64(2)));
}

#[test]
fn narrowing_overflow() {
    // 0x10000 does not fit Uint16.
    let mut r = MyReader::new(vec![0x80, 0x80, 0x04]);
    assert_eq!(
        read_value(&BondType::Uint16, &mut r),
        Err(MadeleineError::TryFromIntError)
    );
    // zig-zag 65536 decodes to 32768, which does not fit Int16.
    let mut r = MyReader::new(vec![0x80, 0x80, 0x04]);
    assert_eq!(
        read_value(&BondType::Int16, &mut r),
        Err(MadeleineError::TryFromIntError)
    );
}

#[test]
fn float_bits_little_endian() {
    let mut r = MyReader::new(vec![0x00, 0x00, 0x80, 0x3F]);
    match read_value(&BondType::Float, &mut r) {
        Ok(BondValue::Float(bits)) => assert_eq!(f32::from_bits(bits), 1.0f32),
        other => panic!("unexpected result: {:?}", other),
    }
    let mut r = MyReader::new(vec![0x00, 0x00, 0x00, 0x00, 0x00, 0x00, 0xF0, 0x3F]);
    match read_value(&BondType::Double, &mut r) {
        Ok(BondValue::Double(bits)) => assert_eq!(f64::from_bits(bits), 1.0f64),
        other => panic!("unexpected result: {:?}", other),
    }
}

#[test]
fn unavailable_tag_is_an_error() {
    let mut r = MyReader::new(vec![0x01]);
    assert_eq!(
        read_value(&BondType::Unavailable, &mut r),
        Err(MadeleineError::UnavailableBondType)
    );
}

#[test]
fn list_blob_fast_path() {
    // List of Uint8, inline count 3, packed payload.
    let mut r = MyReader::new(vec![(4 << 5) | 3, 1, 2, 3]);
    assert_eq!(
        read_value(&BondType::List, &mut r),
        Ok(BondValue::List(vec![
            BondValue::Uint8(1),
            BondValue::Uint8(2),
            BondValue::Uint8(3),
        ]))
    );
}

#[test]
fn list_blob_int8_elements_become_uint8() {
    // The blob path applies to Int8 elements too and keeps them unsigned.
    let mut r = MyReader::new(vec![(4 << 5) | 14, 1, 2, 0xFF]);
    assert_eq!(
        read_value(&BondType::List, &mut r),
        Ok(BondValue::List(vec![
            BondValue::Uint8(1),
            BondValue::Uint8(2),
            BondValue::Uint8(255),
        ]))
    );
}

#[test]
fn blob_and_generic_paths_agree() {
    // The same payload through the List blob path and the Set per-element
    // path yields the same element sequence.
    let mut list_reader = MyReader::new(vec![(4 << 5) | 3, 1, 2, 3]);
    let list_elems = read_list(&mut list_reader, &BondType::List).unwrap();
    let mut set_reader = MyReader::new(vec![(4 << 5) | 3, 1, 2, 3]);
    let set_elems = read_list(&mut set_reader, &BondType::SetValue).unwrap();
    assert_eq!(list_elems, set_elems);
}

#[test]
fn set_of_bools() {
    let mut r = MyReader::new(vec![(3 << 5) | 2, 0x01, 0x00]);
    assert_eq!(
        read_value(&BondType::SetValue, &mut r),
        Ok(BondValue::SetValue(vec![
            BondValue::Bool(true),
            BondValue::Bool(false),
        ]))
    );
}

#[test]
fn list_extended_count() {
    // Set of Uint8 with count 7 through the LEB128 extension.
    let mut r = MyReader::new(vec![3, 7, 1, 2, 3, 4, 5, 6, 7]);
    let elems = read_list(&mut r, &BondType::SetValue).unwrap();
    assert_eq!(elems.len(), 7);
    assert_eq!(elems[6], BondValue::Uint8(7));
}

#[test]
fn list_truncated_payload() {
    let mut r = MyReader::new(vec![(4 << 5) | 3, 1, 2]);
    assert_eq!(
        read_value(&BondType::List, &mut r),
        Err(MadeleineError::ReadError)
    );
}

#[test]
fn map_pairs_in_order() {
    let mut r = MyReader::new(vec![0x03, 0x02, 0x02, 1, 1, 2, 0]);
    assert_eq!(
        read_map(&mut r),
        Ok(vec![
            (BondValue::Uint8(1), BondValue::Bool(true)),
            (BondValue::Uint8(2), BondValue::Bool(false)),
        ])
    );
}

#[test]
fn map_tag_bytes_are_masked() {
    // High bits of the two raw tag bytes are ignored.
    let mut r = MyReader::new(vec![0xE3, 0xC2, 0x01, 5, 1]);
    assert_eq!(
        read_map(&mut r),
        Ok(vec![(BondValue::Uint8(5), BondValue::Bool(true))])
    );
}

#[test]
fn map_duplicate_keys_are_kept() {
    let mut r = MyReader::new(vec![0x03, 0x03, 0x02, 7, 1, 7, 2]);
    assert_eq!(
        read_map(&mut r),
        Ok(vec![
            (BondValue::Uint8(7), BondValue::Uint8(1)),
            (BondValue::Uint8(7), BondValue::Uint8(2)),
        ])
    );
}

#[test]
fn read_field_discards_id() {
    let mut r = MyReader::new(vec![(7 << 5) | 3, 0x34, 0x12, 0x2A]);
    assert_eq!(read_field(&mut r), Ok(BondValue::Uint8(42)));
}

#[test]
fn struct_base_and_derived_ordering() {
    // Fields A, B, StopBase, C, Stop: A and B become the base level.
    let stream = vec![0x08, 0x02, 0x01, 0x03, 0x2A, 0x01, 0x0E, 0xFF, 0x00];
    let mut r = MyReader::new(stream);
    let v = read_struct(&mut r, 2).unwrap();
    assert_eq!(
        v,
        BondValue::new_struct(
            Some(Box::new(BondValue::new_struct(
                None,
                vec![BondValue::Bool(true), BondValue::Uint8(42)],
            ))),
            vec![BondValue::Int8(-1)],
        )
    );
    assert_eq!(
        v.base().unwrap().fields().unwrap(),
        &[BondValue::Bool(true), BondValue::Uint8(42)][..]
    );
    assert_eq!(v.fields().unwrap(), &[BondValue::Int8(-1)][..]);
}

#[test]
fn struct_length_mismatch_reports_both_values() {
    // The same stream with the length prefix flipped from 8 to 7.
    let stream = vec![0x07, 0x02, 0x01, 0x03, 0x2A, 0x01, 0x0E, 0xFF, 0x00];
    let mut r = MyReader::new(stream);
    assert_eq!(
        read_struct(&mut r, 2),
        Err(MadeleineError::IncorrectStructLength(7, 8))
    );
    let stream = vec![0x09, 0x02, 0x01, 0x03, 0x2A, 0x01, 0x0E, 0xFF, 0x00];
    let mut r = MyReader::new(stream);
    assert_eq!(
        read_struct(&mut r, 2),
        Err(MadeleineError::IncorrectStructLength(9, 8))
    );
}

#[test]
fn struct_without_version_prefix() {
    // At any version but 2 there is no length prefix and no length check.
    let mut r = MyReader::new(vec![0x03, 0x2A, 0x00]);
    assert_eq!(
        read_struct(&mut r, 1),
        Ok(BondValue::new_struct(None, vec![BondValue::Uint8(42)]))
    );
}

#[test]
fn struct_empty_body() {
    let mut r = MyReader::new(vec![0x01, 0x00]);
    assert_eq!(read_struct(&mut r, 2), Ok(BondValue::new_struct(None, vec![])));
}

#[test]
fn struct_nested() {
    // An outer struct whose single field is an inner struct with one field.
    let stream = vec![0x06, 0x0A, 0x03, 0x03, 0x07, 0x00, 0x00];
    let mut r = MyReader::new(stream);
    assert_eq!(
        read_struct(&mut r, 2),
        Ok(BondValue::new_struct(
            None,
            vec![BondValue::new_struct(None, vec![BondValue::Uint8(7)])],
        ))
    );
}

#[test]
fn struct_truncated_mid_header() {
    // The field header announces a one-byte id that never comes.
    let mut r = MyReader::new(vec![0x02, (6 << 5) | 3]);
    assert_eq!(read_struct(&mut r, 2), Err(MadeleineError::ReadError));
}

#[test]
fn struct_truncated_mid_varint() {
    let mut r = MyReader::new(vec![0x03, 0x05, 0x80]);
    assert_eq!(read_struct(&mut r, 2), Err(MadeleineError::ReadError));
}

#[test]
fn struct_truncated_mid_string_payload() {
    // A string field declaring five bytes with only two present.
    let mut r = MyReader::new(vec![0x08, 0x09, 0x05, b'a', b'b']);
    assert_eq!(read_struct(&mut r, 2), Err(MadeleineError::ReadError));
}

#[test]
fn struct_unknown_field_tag() {
    let mut r = MyReader::new(vec![0x01, 0x13]);
    assert_eq!(
        read_struct(&mut r, 2),
        Err(MadeleineError::TryFromPrimitiveError)
    );
}

#[test]
fn guid_from_parts_canonical_string() {
    let g = Guid::from_parts(0x01020304, 0x0506, 0x0708, 0x0A0B0C0D0E0F1011);
    assert_eq!(g.as_str(), "01020304-0506-0708-1110-0F0E0D0C0B0A");
}

#[test]
fn guid_heuristic_collapses_matching_window() {
    let mut values = vec![
        BondValue::Uint32(0x01020304),
        BondValue::Uint16(0x0506),
        BondValue::Uint16(0x0708),
        BondValue::Uint64(0x0A0B0C0D0E0F1011),
    ];
    process_values_for_guids(&mut values);
    assert_eq!(values.len(), 1);
    match &values[0] {
        BondValue::Guid(g) => {
            assert_eq!(g.as_str(), "01020304-0506-0708-1110-0F0E0D0C0B0A")
        },
        other => panic!("unexpected value: {:?}", other),
    }
}

#[test]
fn guid_heuristic_ignores_short_window() {
    let mut values = vec![
        BondValue::Uint32(1),
        BondValue::Uint16(2),
        BondValue::Uint16(3),
    ];
    process_values_for_guids(&mut values);
    assert_eq!(
        values,
        vec![BondValue::Uint32(1), BondValue::Uint16(2), BondValue::Uint16(3)]
    );
}

#[test]
fn guid_heuristic_ignores_reordered_window() {
    let mut values = vec![
        BondValue::Uint16(2),
        BondValue::Uint32(1),
        BondValue::Uint16(3),
        BondValue::Uint64(4),
    ];
    process_values_for_guids(&mut values);
    assert_eq!(
        values,
        vec![
            BondValue::Uint16(2),
            BondValue::Uint32(1),
            BondValue::Uint16(3),
            BondValue::Uint64(4),
        ]
    );
}

#[test]
fn guid_heuristic_skips_past_match() {
    // After a match the scan continues right after the spliced identifier.
    let mut values = vec![
        BondValue::Uint32(1),
        BondValue::Uint16(2),
        BondValue::Uint16(3),
        BondValue::Uint64(4),
        BondValue::Uint32(5),
        BondValue::Uint16(6),
        BondValue::Uint16(7),
        BondValue::Uint64(8),
        BondValue::Bool(true),
    ];
    process_values_for_guids(&mut values);
    assert_eq!(values.len(), 3);
    assert!(matches!(values[0], BondValue::Guid(_)));
    assert!(matches!(values[1], BondValue::Guid(_)));
    assert_eq!(values[2], BondValue::Bool(true));
}

#[test]
fn guid_reconstructed_from_decoded_struct() {
    let stream = vec![
        0x16, 0x05, 0x84, 0x86, 0x88, 0x08, 0x04, 0x86, 0x0A, 0x04, 0x88, 0x0E, 0x06, 0x91,
        0xA0, 0xBC, 0xF0, 0xD0, 0x81, 0xC3, 0x85, 0x0A, 0x00,
    ];
    let mut r = MyReader::new(stream);
    let v = read_struct(&mut r, 2).unwrap();
    let fields = v.fields().unwrap();
    assert_eq!(fields.len(), 1);
    match &fields[0] {
        BondValue::Guid(g) => {
            assert_eq!(g.as_str(), "01020304-0506-0708-1110-0F0E0D0C0B0A")
        },
        other => panic!("unexpected field: {:?}", other),
    }
}

#[test]
fn string_and_wstring_fields() {
    // A string field "hi" and a wide string field "A".
    let stream = vec![
        0x09, 0x09, 0x02, b'h', b'i', 0x12, 0x01, 0x41, 0x00, 0x00,
    ];
    let mut r = MyReader::new(stream);
    assert_eq!(
        read_struct(&mut r, 2),
        Ok(BondValue::new_struct(
            None,
            vec![
                BondValue::String(String::from("hi")),
                BondValue::Wstring(String::from("A")),
            ],
        ))
    );
}

#[test]
fn value_accessors() {
    let v = BondValue::new_struct(None, vec![BondValue::Bool(true)]);
    assert_eq!(v.fields().unwrap(), &[BondValue::Bool(true)][..]);
    assert!(v.base().is_none());
    assert!(BondValue::Uint8(1).fields().is_none());
    assert!(BondValue::Uint8(1).base().is_none());
}
