use sunlight::error::{ParseError, SunlightError};
use sunlight::fixed::{parse_fixed32, parse_fixed64};
use std::collections::HashMap;
use sunlight::light::{extract_protobuf, ProtoTag, Value, WireType};
use sunlight::parser::{parse_length_tag, parse_tag};
use sunlight::tag::{get_tag_type, get_wire_type};
use sunlight::var::parse_var;

const APPSTORED: [u8; 129] = [
    10, 45, 99, 111, 109, 46, 97, 112, 112, 108, 101, 46, 97, 112, 112, 115, 116, 111, 114, 101,
    100, 46, 77, 105, 103, 114, 97, 116, 111, 114, 77, 105, 115, 99, 101, 108, 108, 97, 110, 101,
    111, 117, 115, 84, 97, 115, 107, 10, 40, 99, 111, 109, 46, 97, 112, 112, 108, 101, 46, 97,
    112, 112, 115, 116, 111, 114, 101, 100, 46, 77, 105, 103, 114, 97, 116, 111, 114, 65, 112,
    112, 85, 115, 97, 103, 101, 84, 97, 115, 107, 10, 38, 99, 111, 109, 46, 97, 112, 112, 108,
    101, 46, 97, 112, 112, 115, 116, 111, 114, 101, 100, 46, 77, 105, 103, 114, 97, 116, 111, 114,
    65, 114, 99, 97, 100, 101, 84, 97, 115, 107,
];

fn text(s: &str) -> Value {
    Value::Text(String::from(s))
}

fn value_of(map: &HashMap<usize, ProtoTag>, field: usize) -> &Value {
    &map.get(&field).unwrap().value
}

#[test]
#[should_panic(expected = "Parser")]
fn test_extract_protobuf() {
    let bad_data = [0, 0, 1, 4, 5, 0, 0];
    let _ = extract_protobuf(&bad_data).unwrap();
}

#[test]
fn malformed_bytes_fail_without_panic() {
    let bad_data = [0, 0, 1, 4, 5, 0, 0];
    assert_eq!(extract_protobuf(&bad_data).unwrap_err(), SunlightError::Parser);
    assert_eq!(
        SunlightError::Parser.message(),
        "Could not parse provided protobuf bytes"
    );
}

#[test]
fn test_parse_fixed64() {
    let test = [
        217, 236, 52, 46, 208, 118, 198, 65, 50, 28, 99, 111, 109, 46, 100, 117, 99, 107, 100,
        117, 99, 107, 103, 111, 46, 109, 97, 99, 111, 115, 46, 98, 114, 111, 119, 115, 101, 114,
        74, 7, 49, 46, 49, 49, 52, 46, 48, 82, 3, 51, 48, 56, 88, 1, 96, 1, 0, 0, 0,
    ];
    let (remaining, result) = parse_fixed64(&test).unwrap();
    assert_eq!(remaining.len(), 51);
    assert_eq!(result.signed, 4739606294354521305);
    assert_eq!(result.unsigned, 4739606294354521305);
    assert_eq!(f64::from_bits(result.double_bits.unwrap()), 753770588.413478);
}

#[test]
fn test_parse_fixed32() {
    let test = [217, 236, 52, 46];
    let (remaining, result) = parse_fixed32(&test).unwrap();
    assert_eq!(remaining.len(), 0);
    assert_eq!(result.signed, 775220441);
    assert_eq!(result.unsigned, 775220441);
    assert_eq!(f32::from_bits(result.float_bits.unwrap()) as f64, 4.1137624556819574e-11);
}

#[test]
fn fixed32_non_finite_float_is_null() {
    let test = [236, 255, 255, 255];
    let (_, result) = parse_fixed32(&test).unwrap();
    assert_eq!(result.signed, -20);
    assert_eq!(result.unsigned, 4294967276);
    assert_eq!(result.float_bits, None);
}

#[test]
fn fixed_width_needs_all_bytes() {
    assert_eq!(parse_fixed64(&[1, 2, 3, 4, 5, 6, 7]).unwrap_err(), ParseError::InsufficientBytes);
    assert_eq!(parse_fixed32(&[1, 2, 3]).unwrap_err(), ParseError::InsufficientBytes);
}

#[test]
fn test_parse_length_tag() {
    let test = &APPSTORED[1..];
    let (remaining, result) = parse_length_tag(test).unwrap();
    assert_eq!(result, text("com.apple.appstored.MigratorMiscellaneousTask"));
    assert_eq!(remaining.len(), 82);
}

#[test]
fn test_parse_tag() {
    let (_, result) = parse_tag(&APPSTORED).unwrap();
    assert_eq!(result.len(), 1);
    assert_eq!(
        *value_of(&result, 1),
        Value::Array(vec![
            text("com.apple.appstored.MigratorMiscellaneousTask"),
            text("com.apple.appstored.MigratorAppUsageTask"),
            text("com.apple.appstored.MigratorArcadeTask"),
        ])
    );
    assert_eq!(result.get(&1).unwrap().tag.wire_type, WireType::Len);
}

#[test]
fn extract_protobuf_repeated_strings() {
    let result = extract_protobuf(&APPSTORED).unwrap();
    assert_eq!(result.len(), 1);
    let entry = result.get(&1).unwrap();
    assert_eq!(entry.tag.wire_type, WireType::Len);
    assert_eq!(entry.tag.tag_byte, 10);
    assert_eq!(entry.tag.field, 1);
    match &entry.value {
        Value::Array(items) => assert_eq!(items.len(), 3),
        other => panic!("expected an array, got {:?}", other),
    }
}

#[test]
fn decoding_twice_gives_the_same_fields() {
    let first = extract_protobuf(&APPSTORED).unwrap();
    let second = extract_protobuf(&APPSTORED).unwrap();
    assert_eq!(first, second);
}

#[test]
fn test_parse_tag_fields() {
    let test = [
        10, 10, 112, 114, 111, 100, 117, 99, 116, 105, 111, 110, 18, 32, 99, 52, 52, 101, 49, 48,
        50, 57, 57, 57, 57, 51, 101, 101, 53, 100, 97, 56, 48, 56, 48, 98, 51, 57, 53, 51, 57, 57,
        101, 56, 50, 54,
    ];
    let (_, result) = parse_tag(&test).unwrap();
    assert_eq!(result.len(), 2);
    assert_eq!(*value_of(&result, 1), text("production"));
    assert_eq!(*value_of(&result, 2), text("c44e10299993ee5da8080b395399e826"));
}

#[test]
fn test_parse_tag_biome() {
    let test = [
        10, 15, 55, 53, 48, 48, 53, 54, 55, 57, 57, 54, 48, 56, 53, 57, 56, 16, 240, 249, 7, 24,
        61, 32, 1, 42, 10, 66, 105, 111, 109, 101, 65, 103, 101, 110, 116, 0, 0, 0,
    ];
    let (_, result) = parse_tag(&test).unwrap();
    assert_eq!(result.len(), 6);
    assert_eq!(*value_of(&result, 4), Value::Number(1));
    assert_eq!(
        *value_of(&result, 0),
        Value::Array(vec![Value::Number(0), Value::Number(0)])
    );
    assert_eq!(*value_of(&result, 5), text("BiomeAgent"));
    assert_eq!(*value_of(&result, 1), text("750056799608598"));
}

#[test]
fn test_parse_tag_biome_app() {
    let test = [
        16, 1, 24, 1, 33, 217, 236, 52, 46, 208, 118, 198, 65, 50, 28, 99, 111, 109, 46, 100, 117,
        99, 107, 100, 117, 99, 107, 103, 111, 46, 109, 97, 99, 111, 115, 46, 98, 114, 111, 119,
        115, 101, 114, 74, 7, 49, 46, 49, 49, 52, 46, 48, 82, 3, 51, 48, 56, 88, 1, 96, 1, 0, 0,
        0,
    ];
    let (_, result) = parse_tag(&test).unwrap();
    assert_eq!(result.len(), 9);
    match value_of(&result, 4) {
        Value::Fixed64(f) => {
            assert_eq!(f64::from_bits(f.double_bits.unwrap()), 753770588.413478);
            assert_eq!(f.signed, 4739606294354521305);
            assert_eq!(f.unsigned, 4739606294354521305);
        }
        other => panic!("expected a fixed64 record, got {:?}", other),
    }
    assert_eq!(
        *value_of(&result, 0),
        Value::Array(vec![Value::Number(0), Value::Number(0)])
    );
    assert_eq!(*value_of(&result, 6), text("com.duckduckgo.macos.browser"));
    assert_eq!(*value_of(&result, 9), text("1.114.0"));
}

#[test]
fn test_parse_tag_biome_microsoft() {
    let test = [
        16, 1, 24, 0, 33, 19, 41, 57, 157, 203, 118, 198, 65, 50, 25, 99, 111, 109, 46, 109, 105,
        99, 114, 111, 115, 111, 102, 116, 46, 97, 117, 116, 111, 117, 112, 100, 97, 116, 101, 50,
        74, 4, 52, 46, 55, 54, 82, 13, 52, 46, 55, 54, 46, 50, 52, 49, 48, 49, 51, 56, 55, 88, 1,
        96, 1, 0, 0, 0,
    ];
    let (_, result) = parse_tag(&test).unwrap();
    assert_eq!(result.len(), 9);
    match value_of(&result, 4) {
        Value::Fixed64(f) => {
            assert_eq!(f64::from_bits(f.double_bits.unwrap()), 753768250.446566);
            assert_eq!(f.signed, 4739606274742233363);
            assert_eq!(f.unsigned, 4739606274742233363);
        }
        other => panic!("expected a fixed64 record, got {:?}", other),
    }
    assert_eq!(
        *value_of(&result, 0),
        Value::Array(vec![Value::Number(0), Value::Number(0)])
    );
    assert_eq!(*value_of(&result, 6), text("com.microsoft.autoupdate2"));
    assert_eq!(*value_of(&result, 10), text("4.76.24101387"));
    assert_eq!(*value_of(&result, 9), text("4.76"));
}

#[test]
fn test_parse_tag_biome_siri() {
    let test = [
        8, 1, 18, 55, 99, 111, 109, 46, 97, 112, 112, 108, 101, 46, 115, 105, 114, 105, 46, 109,
        101, 116, 114, 105, 99, 115, 46, 77, 101, 116, 114, 105, 99, 115, 69, 120, 116, 101, 110,
        115, 105, 111, 110, 46, 115, 99, 111, 114, 101, 99, 97, 114, 100, 46, 100, 97, 105, 108,
        121, 26, 11, 78, 111, 116, 32, 83, 116, 97, 114, 116, 101, 100,
    ];
    let (_, result) = parse_tag(&test).unwrap();
    assert_eq!(result.len(), 3);
    assert_eq!(
        *value_of(&result, 2),
        text("com.apple.siri.metrics.MetricsExtension.scorecard.daily")
    );
    assert_eq!(*value_of(&result, 3), text("Not Started"));
    assert_eq!(*value_of(&result, 1), Value::Number(1));
}

#[test]
fn test_parse_tag_biome_siri_metrics() {
    let test = [
        8, 1, 17, 0, 0, 0, 128, 76, 206, 217, 65, 25, 0, 0, 0, 32, 155, 208, 217, 65, 34, 55, 99,
        111, 109, 46, 97, 112, 112, 108, 101, 46, 115, 105, 114, 105, 46, 109, 101, 116, 114, 105,
        99, 115, 46, 77, 101, 116, 114, 105, 99, 115, 69, 120, 116, 101, 110, 115, 105, 111, 110,
        46, 115, 99, 111, 114, 101, 99, 97, 114, 100, 46, 100, 97, 105, 108, 121, 42, 11, 78, 111,
        116, 32, 83, 116, 97, 114, 116, 101, 100, 49, 134, 227, 69, 236, 1, 207, 217, 65, 56, 1,
        64, 0, 72, 0, 81, 0, 0, 0, 192, 204, 255, 42, 64, 89, 0, 0, 0, 0, 0, 0, 240, 191, 97, 0, 0,
        0, 192, 204, 255, 42, 64, 105, 0, 0, 0, 0, 0, 0, 240, 191, 113, 0, 0, 0, 0, 0, 0, 240, 191,
        0, 0,
    ];
    let (_, result) = parse_tag(&test).unwrap();
    assert_eq!(result.len(), 15);
    assert_eq!(
        *value_of(&result, 4),
        text("com.apple.siri.metrics.MetricsExtension.scorecard.daily")
    );
    match value_of(&result, 3) {
        Value::Fixed64(f) => {
            assert_eq!(f64::from_bits(f.double_bits.unwrap()), 1732406400.0);
            assert_eq!(f.signed, 4745053047086907392);
            assert_eq!(f.unsigned, 4745053047086907392);
        }
        other => panic!("expected a fixed64 record, got {:?}", other),
    }
    match value_of(&result, 12) {
        Value::Fixed64(f) => {
            assert_eq!(f64::from_bits(f.double_bits.unwrap()), 13.499608993530273);
            assert_eq!(f.signed, 4623789222308872192);
            assert_eq!(f.unsigned, 4623789222308872192);
        }
        other => panic!("expected a fixed64 record, got {:?}", other),
    }
}

#[test]
fn test_get_wire_type() {
    let test = [0, 1, 2, 3, 4, 5];
    for entry in test {
        let result = get_wire_type(&entry);
        assert_ne!(result, WireType::Unknown);
    }
    assert_eq!(get_wire_type(&6), WireType::Unknown);
    assert_eq!(get_wire_type(&15), WireType::Unknown);
    assert_eq!(get_wire_type(&13), WireType::Fixed32);
}

#[test]
fn test_get_tag_type() {
    let (_, result) = get_tag_type(&APPSTORED).unwrap();
    assert_eq!(result.field, 1);
    assert_eq!(result.wire_type, WireType::Len);
    assert_eq!(result.tag_byte, 10);
}

#[test]
fn multi_byte_field_number_multiplies() {
    let (rest, tag) = get_tag_type(&[0x88, 0x02, 0x05]).unwrap();
    assert_eq!(tag.field, 34);
    assert_eq!(tag.tag_byte, 0x88);
    assert_eq!(tag.wire_type, WireType::VarInt);
    assert_eq!(rest, &[0x05]);
    let result = extract_protobuf(&[0x88, 0x02, 0x05]).unwrap();
    assert_eq!(*value_of(&result, 34), Value::Number(5));
}

#[test]
fn field_number_overflow_fails() {
    let test = [0xf8, 0xff, 0xff, 0xff, 0xff, 0xff, 0xff, 0xff, 0xff, 0xff, 0x01];
    assert_eq!(get_tag_type(&test).unwrap_err(), ParseError::FieldOverflow);
    assert_eq!(extract_protobuf(&test).unwrap_err(), SunlightError::Parser);
}

#[test]
fn zero_byte_after_large_product_gives_field_zero() {
    let test = [0xf8, 0xff, 0xff, 0xff, 0xff, 0xff, 0xff, 0xff, 0xff, 0x00, 0x07];
    let (rest, tag) = get_tag_type(&test).unwrap();
    assert_eq!(tag.field, 0);
    assert_eq!(tag.tag_byte, 0xf8);
    assert_eq!(tag.wire_type, WireType::VarInt);
    assert_eq!(rest, &test[10..]);
    let result = extract_protobuf(&test).unwrap();
    assert_eq!(*value_of(&result, 0), Value::Number(7));
}

#[test]
fn test_parse_var() {
    let test = [
        240, 249, 7, 24, 61, 32, 1, 42, 10, 66, 105, 111, 109, 101, 65, 103, 101, 110, 116, 0, 0,
        0,
    ];
    let (remaining, result) = parse_var(&test).unwrap();
    assert_eq!(remaining.len(), 19);
    assert_eq!(result, 130288);
}

#[test]
fn varint_ten_bytes_and_empty() {
    let max = [0xff, 0xff, 0xff, 0xff, 0xff, 0xff, 0xff, 0xff, 0xff, 0x01];
    let (rest, value) = parse_var(&max).unwrap();
    assert_eq!(value, -1);
    assert_eq!(rest.len(), 0);
    let (rest, value) = parse_var(&[]).unwrap();
    assert_eq!(value, 0);
    assert_eq!(rest.len(), 0);
}

#[test]
fn truncated_buffers_fail() {
    // mid-tag
    assert_eq!(extract_protobuf(&[0x80]).unwrap_err(), SunlightError::Parser);
    // mid-varint
    assert_eq!(extract_protobuf(&[8, 0x80]).unwrap_err(), SunlightError::Parser);
    assert_eq!(parse_var(&[0x80, 0x81]).unwrap_err(), ParseError::InsufficientBytes);
    // mid-fixed-width value
    assert_eq!(extract_protobuf(&[9, 1, 2, 3]).unwrap_err(), SunlightError::Parser);
    assert_eq!(extract_protobuf(&[13, 1, 2]).unwrap_err(), SunlightError::Parser);
    // mid-length-prefix and mid-payload
    assert_eq!(extract_protobuf(&[10]).unwrap_err(), SunlightError::Parser);
    assert_eq!(extract_protobuf(&[10, 5, 65]).unwrap_err(), SunlightError::Parser);
    // after a complete field
    assert_eq!(extract_protobuf(&[8, 1, 8, 0x80]).unwrap_err(), SunlightError::Parser);
}

#[test]
fn raw_payload_falls_back_to_base64() {
    let result = extract_protobuf(&[10, 1, 0xff]).unwrap();
    assert_eq!(*value_of(&result, 1), text("/w=="));
}

#[test]
fn nested_message_payload() {
    let result = extract_protobuf(&[18, 3, 8, 0x96, 0x01]).unwrap();
    match value_of(&result, 2) {
        Value::Message(sub) => {
            assert_eq!(sub.len(), 1);
            assert_eq!(*value_of(sub, 1), Value::Number(150));
        }
        other => panic!("expected a nested message, got {:?}", other),
    }
}

#[test]
fn test_base64_encode_standard() {
    // A start-group tag keeps the rest of the buffer as base64 text.
    let mut data = vec![3u8];
    data.extend_from_slice(b"Hello word!");
    let result = extract_protobuf(&data).unwrap();
    assert_eq!(*value_of(&result, 0), text("SGVsbG8gd29yZCE="));
}

#[test]
fn group_and_unknown_wire_types_end_the_buffer() {
    let result = extract_protobuf(&[8, 1, 20, 1, 2, 3]).unwrap();
    assert_eq!(result.len(), 2);
    assert_eq!(*value_of(&result, 2), text("AQID"));
    let result = extract_protobuf(&[14]).unwrap();
    assert_eq!(*value_of(&result, 1), text(""));
}

#[test]
fn three_occurrences_make_three_elements() {
    let result = extract_protobuf(&[8, 1, 16, 7, 8, 2, 8, 3]).unwrap();
    assert_eq!(result.len(), 2);
    assert_eq!(
        *value_of(&result, 1),
        Value::Array(vec![Value::Number(1), Value::Number(2), Value::Number(3)])
    );
    assert_eq!(result.get(&1).unwrap().tag.field, 1);
    assert_eq!(result.get(&2).unwrap().tag.field, 2);
    assert!(result.get(&3).is_none());
}

#[test]
fn repeated_field_keeps_first_tag() {
    let result = extract_protobuf(&[8, 1, 10, 1, 97]).unwrap();
    let entry = result.get(&1).unwrap();
    assert_eq!(entry.tag.tag_byte, 8);
    assert_eq!(entry.tag.wire_type, WireType::VarInt);
    assert_eq!(entry.value, Value::Array(vec![Value::Number(1), text("a")]));
}

#[test]
fn empty_input_decodes_to_no_fields() {
    let result = extract_protobuf(&[]).unwrap();
    assert_eq!(result.len(), 0);
}
