use noodles::bcf::{parse_raw_genotype_values, read_value, read_values, DecodeError, FormatType, Number, Raw, Type, TypedValue};
use noodles::vcf::Value;

fn f(n: f32) -> u32 {
    n.to_bits()
}

#[test]
fn test_read_values_with_int8_values() {
    let src = [
        0x11, // Int8, one value
        0x05, // Some(5)
        0x08, // Some(8)
        0x80, // None
    ];
    assert_eq!(
        read_values(&src, Number::Count(1), FormatType::Integer, 3),
        Ok(vec![Some(Value::Integer(5)), Some(Value::Integer(8)), None])
    );
}

#[test]
fn test_read_values_with_int8_array_values() {
    let src = [
        0x21, // Int8, two values
        0x05, 0x08, // Some([Some(5), Some(8)])
        0x0d, 0x80, // Some([Some(13), None])
        0x15, 0x81, // Some([Some(21)])
        0x80, 0x81, // None
    ];
    assert_eq!(
        read_values(&src, Number::Count(2), FormatType::Integer, 4),
        Ok(vec![
            Some(Value::IntegerArray(vec![Some(5), Some(8)])),
            Some(Value::IntegerArray(vec![Some(13), None])),
            Some(Value::IntegerArray(vec![Some(21)])),
            None,
        ])
    );
}

#[test]
fn test_read_values_with_int16_values() {
    let src = [
        0x12, // Int16, one value
        0x05, 0x00, // Some(5)
        0x08, 0x00, // Some(8)
        0x00, 0x80, // None
    ];
    assert_eq!(
        read_values(&src, Number::Count(1), FormatType::Integer, 3),
        Ok(vec![Some(Value::Integer(5)), Some(Value::Integer(8)), None])
    );
}

#[test]
fn test_read_values_with_int16_array_values() {
    let src = [
        0x22, // Int16, two values
        0x05, 0x00, 0x08, 0x00, // Some([Some(5), Some(8)])
        0x0d, 0x00, 0x00, 0x80, // Some([Some(13), None])
        0x15, 0x00, 0x01, 0x80, // Some([Some(21)])
        0x00, 0x80, 0x01, 0x80, // None
    ];
    assert_eq!(
        read_values(&src, Number::Count(2), FormatType::Integer, 4),
        Ok(vec![
            Some(Value::IntegerArray(vec![Some(5), Some(8)])),
            Some(Value::IntegerArray(vec![Some(13), None])),
            Some(Value::IntegerArray(vec![Some(21)])),
            None,
        ])
    );
}

#[test]
fn test_read_values_with_int32_values() {
    let src = [
        0x13, // Int32, one value
        0x05, 0x00, 0x00, 0x00, // Some(5)
        0x08, 0x00, 0x00, 0x00, // Some(8)
        0x00, 0x00, 0x00, 0x80, // None
    ];
    assert_eq!(
        read_values(&src, Number::Count(1), FormatType::Integer, 3),
        Ok(vec![Some(Value::Integer(5)), Some(Value::Integer(8)), None])
    );
}

#[test]
fn test_read_values_with_int32_array_values() {
    let src = [
        0x23, // Int32, two values
        0x05, 0x00, 0x00, 0x00, 0x08, 0x00, 0x00, 0x00, // Some([Some(5), Some(8)])
        0x0d, 0x00, 0x00, 0x00, 0x00, 0x00, 0x00, 0x80, // Some([Some(13), None])
        0x15, 0x00, 0x00, 0x00, 0x01, 0x00, 0x00, 0x80, // Some([Some(21)])
        0x00, 0x00, 0x00, 0x80, 0x01, 0x00, 0x00, 0x80, // None
    ];
    assert_eq!(
        read_values(&src, Number::Count(2), FormatType::Integer, 4),
        Ok(vec![
            Some(Value::IntegerArray(vec![Some(5), Some(8)])),
            Some(Value::IntegerArray(vec![Some(13), None])),
            Some(Value::IntegerArray(vec![Some(21)])),
            None,
        ])
    );
}

#[test]
fn test_read_values_with_float_values() {
    let src = [
        0x15, // Float, one value
        0x00, 0x00, 0x00, 0x00, // Some(0.0)
        0x00, 0x00, 0x80, 0x3f, // Some(1.0)
        0x01, 0x00, 0x80, 0x7f, // None
    ];
    assert_eq!(
        read_values(&src, Number::Count(1), FormatType::Float, 3),
        Ok(vec![Some(Value::Float(f(0.0))), Some(Value::Float(f(1.0))), None])
    );
}

#[test]
fn test_read_values_with_float_array_values() {
    let src = [
        0x25, // Float, two values
        0x00, 0x00, 0x00, 0x00, 0x00, 0x00, 0x80, 0x3f, // Some([Some(0.0), Some(1.0)])
        0x00, 0x00, 0x00, 0x00, 0x01, 0x00, 0x80, 0x7f, // Some([Some(0.0), None])
        0x00, 0x00, 0x00, 0x00, 0x02, 0x00, 0x80, 0x7f, // Some([Some(0.0)])
        0x01, 0x00, 0x80, 0x7f, 0x02, 0x00, 0x80, 0x7f, // None
    ];
    assert_eq!(
        read_values(&src, Number::Count(2), FormatType::Float, 4),
        Ok(vec![
            Some(Value::FloatArray(vec![Some(f(0.0)), Some(f(1.0))])),
            Some(Value::FloatArray(vec![Some(f(0.0)), None])),
            Some(Value::FloatArray(vec![Some(f(0.0))])),
            None,
        ])
    );
}

#[test]
fn test_read_values_with_string_values() {
    let src = [
        0x47, // String, four bytes
        b'n', 0x00, 0x00, 0x00, // "n"
        b'n', b'd', b'l', 0x00, // "ndl"
        b'n', b'd', b'l', b's', // "ndls"
    ];
    assert_eq!(
        read_values(&src, Number::Count(1), FormatType::String, 3),
        Ok(vec![
            Some(Value::String(b"n".to_vec())),
            Some(Value::String(b"ndl".to_vec())),
            Some(Value::String(b"ndls".to_vec())),
        ])
    );
}

#[test]
fn test_read_values_with_string_array_values() {
    let src = [
        0x47, // String, four bytes
        b'n', 0x00, 0x00, 0x00, // "n"
        b'n', b',', b'l', 0x00, // "n,l"
        b'n', b',', b'l', b's', // "n,ls"
    ];
    assert_eq!(
        read_values(&src, Number::Count(2), FormatType::String, 3),
        Ok(vec![
            Some(Value::StringArray(vec![Some(b"n".to_vec())])),
            Some(Value::StringArray(vec![Some(b"n".to_vec()), Some(b"l".to_vec())])),
            Some(Value::StringArray(vec![Some(b"n".to_vec()), Some(b"ls".to_vec())])),
        ])
    );
}

#[test]
fn test_parse_genotype_genotype_field_values() {
    let t = |raw: &[u8], expected: &str| {
        assert_eq!(parse_raw_genotype_values(raw), expected.as_bytes());
    };
    t(&[0x02, 0x02], "0/0");
    t(&[0x02, 0x04], "0/1");
    t(&[0x04, 0x04], "1/1");
    t(&[0x02, 0x05], "0|1");
    t(&[0x00, 0x00], "./.");
    t(&[0x02], "0");
    t(&[0x04], "1");
    t(&[0x02, 0x04, 0x06], "0/1/2");
    t(&[0x02, 0x04, 0x07], "0/1|2");
    t(&[0x02, 0x81], "0");
}

#[test]
fn bcf_value_errors() {
    assert_eq!(read_values(&[], Number::Count(1), FormatType::Integer, 1), Err(DecodeError::InvalidType));
    assert_eq!(read_values(&[0x01], Number::Count(1), FormatType::Integer, 1), Err(DecodeError::InvalidLength));
    assert_eq!(read_values(&[0x11, 0x05], Number::Count(1), FormatType::Integer, 2), Err(DecodeError::InvalidRawValue));
    assert_eq!(read_values(&[0x11, 0x82], Number::Count(1), FormatType::Integer, 1), Err(DecodeError::InvalidRawValue));
    assert_eq!(read_values(&[0x11, 0x05], Number::Count(1), FormatType::String, 1), Err(DecodeError::InvalidType));
    // A count of 15 takes the real count from the typed integer that follows.
    let mut src = vec![0xf1, 0x11, 0x10];
    src.extend(0..16u8);
    let values = read_values(&src, Number::Count(16), FormatType::Integer, 1).unwrap();
    assert_eq!(values, vec![Some(Value::IntegerArray((0..16).map(Some).collect()))]);
}

fn typed(src: &[u8]) -> Option<TypedValue> {
    let mut pos = 0;
    let value = read_value(src, &mut pos).unwrap();
    assert_eq!(pos, src.len());
    value
}

fn ints(values: &[i64]) -> Vec<Raw> {
    values.iter().map(|&n| Raw::Value(n)).collect()
}

#[test]
fn value_test_read_value() {
    assert_eq!(typed(&[0x00]), None);

    assert_eq!(typed(&[0x01]), Some(TypedValue::Int8(None)));
    assert_eq!(typed(&[0x11, 0x05]), Some(TypedValue::Int8(Some(Raw::Value(5)))));
    assert_eq!(typed(&[0x31, 0x05, 0x08, 0x0d]), Some(TypedValue::Array(Type::Int8(3), ints(&[5, 8, 13]))));

    assert_eq!(typed(&[0x02]), Some(TypedValue::Int16(None)));
    assert_eq!(typed(&[0x12, 0x79, 0x01]), Some(TypedValue::Int16(Some(Raw::Value(377)))));
    assert_eq!(
        typed(&[0x32, 0x79, 0x01, 0x62, 0x02, 0xdb, 0x03]),
        Some(TypedValue::Array(Type::Int16(3), ints(&[377, 610, 987])))
    );

    assert_eq!(typed(&[0x03]), Some(TypedValue::Int32(None)));
    assert_eq!(typed(&[0x13, 0x11, 0x25, 0x01, 0x00]), Some(TypedValue::Int32(Some(Raw::Value(75025)))));
    assert_eq!(
        typed(&[0x33, 0x11, 0x25, 0x01, 0x00, 0x31, 0xda, 0x01, 0x00, 0x42, 0xff, 0x02, 0x00]),
        Some(TypedValue::Array(Type::Int32(3), ints(&[75025, 121393, 196418])))
    );

    assert_eq!(typed(&[0x05]), Some(TypedValue::Float(None)));
    assert_eq!(
        typed(&[0x15, 0x00, 0x00, 0x00, 0x00]),
        Some(TypedValue::Float(Some(Raw::Value(f(0.0) as i64))))
    );
    assert_eq!(
        typed(&[0x25, 0x00, 0x00, 0x00, 0x00, 0x00, 0x00, 0x00, 0x3f]),
        Some(TypedValue::Array(Type::Float(2), ints(&[f(0.0) as i64, f(0.5) as i64])))
    );

    assert_eq!(typed(&[0x07]), Some(TypedValue::String(None)));
    assert_eq!(typed(&[0x17, b'n']), Some(TypedValue::String(Some(b"n".to_vec()))));
    assert_eq!(typed(&[0x47, b'n', b'd', b'l', b's']), Some(TypedValue::String(Some(b"ndls".to_vec()))));
}
