//! Type codes, values, records and packed bits.

use iotdb_client::data::bitmap::{pack_bits_lsb_first, unpack_bits_msb_first};
use iotdb_client::data::object_bytes_to_string;
use iotdb_client::data::record::serialize_record_values;
use iotdb_client::{ColumnCategory, Error, Float32, Float64, TSDataType, Value};

fn float(x: f32) -> Value {
    Value::Float(Float32 { bits: x.to_bits() })
}

fn double(x: f64) -> Value {
    Value::Double(Float64 { bits: x.to_bits() })
}

#[test]
fn data_type_codes_match_spec() {
    assert_eq!(TSDataType::Boolean.code(), 0);
    assert_eq!(TSDataType::Int32.code(), 1);
    assert_eq!(TSDataType::Int64.code(), 2);
    assert_eq!(TSDataType::Float.code(), 3);
    assert_eq!(TSDataType::Double.code(), 4);
    assert_eq!(TSDataType::Text.code(), 5);
    assert_eq!(TSDataType::Vector.code(), 6);
    assert_eq!(TSDataType::Unknown.code(), 7);
    assert_eq!(TSDataType::Timestamp.code(), 8);
    assert_eq!(TSDataType::Date.code(), 9);
    assert_eq!(TSDataType::Blob.code(), 10);
    assert_eq!(TSDataType::String.code(), 11);
    assert_eq!(TSDataType::Object.code(), 12);
}

#[test]
fn data_type_from_code_round_trips() {
    for code in 0u8..=12 {
        let ty = TSDataType::from_code(code).expect("valid code");
        assert_eq!(ty.code(), i32::from(code));
    }
    assert_eq!(TSDataType::from_code(13), None);
    assert_eq!(TSDataType::from_code(255), None);
}

#[test]
fn column_category_codes_match_spec() {
    assert_eq!(ColumnCategory::Tag.code(), 0);
    assert_eq!(ColumnCategory::Field.code(), 1);
    assert_eq!(ColumnCategory::Attribute.code(), 2);
}

#[test]
fn data_type_names() {
    assert_eq!(TSDataType::Int32.name(), "Int32");
    assert_eq!(TSDataType::Object.name(), "Object");
}

#[test]
fn type_codes() {
    assert_eq!(Value::Boolean(true).type_code(), Some(0));
    assert_eq!(Value::Int32(1).type_code(), Some(1));
    assert_eq!(Value::Int64(1).type_code(), Some(2));
    assert_eq!(float(1.0).type_code(), Some(3));
    assert_eq!(double(1.0).type_code(), Some(4));
    assert_eq!(Value::Text("t".into()).type_code(), Some(5));
    assert_eq!(Value::Timestamp(0).type_code(), Some(8));
    assert_eq!(Value::Date(20260710).type_code(), Some(9));
    assert_eq!(Value::Blob(vec![0]).type_code(), Some(10));
    assert_eq!(Value::String("s".into()).type_code(), Some(11));
    assert_eq!(Value::Object(vec![]).type_code(), Some(12));
    assert_eq!(Value::Null.type_code(), None);
}

#[test]
fn data_type_of_null_is_none() {
    assert_eq!(Value::Null.data_type(), None);
    assert!(Value::Null.is_null());
    assert!(!Value::Int32(7).is_null());
}

#[test]
fn floats_compare_like_numbers() {
    assert_eq!(float(0.0), float(-0.0));
    assert_ne!(float(f32::NAN), float(f32::NAN));
    assert_eq!(float(f32::INFINITY), float(f32::INFINITY));
    assert_ne!(float(1.0), float(-1.0));
    assert_eq!(double(0.0), double(-0.0));
    assert_ne!(double(f64::NAN), double(f64::NAN));
    assert_eq!(double(2.5), double(2.5));
    assert_ne!(double(2.5), double(2.25));
}

#[test]
fn values_describe_themselves() {
    assert_eq!(Value::Boolean(true).describe(), "Boolean(true)");
    assert_eq!(Value::Int32(-5).describe(), "Int32(-5)");
    assert_eq!(Value::Int64(i64::MIN).describe(), "Int64(-9223372036854775808)");
    assert_eq!(Value::Text("a\"b".into()).describe(), "Text(\"a\\\"b\")");
    assert_eq!(Value::String("line\n".into()).describe(), "String(\"line\\n\")");
    assert_eq!(Value::Blob(vec![222, 173]).describe(), "Blob([222, 173])");
    assert_eq!(Value::Object(vec![]).describe(), "Object([])");
    assert_eq!(Value::Null.describe(), "Null");
    assert_eq!(float(1.5).describe(), "Float(bits 1069547520)");
    assert_eq!(Value::Timestamp(3).describe(), "Timestamp(3)");
    assert_eq!(Value::Date(20260710).describe(), "Date(20260710)");
}

fn object_size_bytes(size: u64) -> Vec<u8> {
    let mut value = size.to_be_bytes().to_vec();
    value.extend_from_slice(b"internal/path/1.bin");
    value
}

#[test]
fn object_bytes_to_string_formats_all_units() {
    assert_eq!(
        object_bytes_to_string(&object_size_bytes(1023)).unwrap(),
        "(Object) 1023 B"
    );
    assert_eq!(
        object_bytes_to_string(&object_size_bytes(1024)).unwrap(),
        "(Object) 1.00 KB"
    );
    assert_eq!(
        object_bytes_to_string(&object_size_bytes(1024 * 1024)).unwrap(),
        "(Object) 1.00 MB"
    );
    assert_eq!(
        object_bytes_to_string(&object_size_bytes(1024 * 1024 * 1024)).unwrap(),
        "(Object) 1.00 GB"
    );
}

#[test]
fn object_bytes_to_string_rejects_short_input() {
    assert!(matches!(
        object_bytes_to_string(&[0; 7]),
        Err(Error::Decode(m)) if m.contains("at least 8 bytes")
    ));
}

/// The size in words, computed with floating-point numbers.
fn float_object_text(size: u64) -> String {
    let size = size as f64;
    if size < 1024.0 {
        format!("(Object) {size:.0} B")
    } else if size < 1024.0 * 1024.0 {
        format!("(Object) {:.2} KB", size / 1024.0)
    } else if size < 1024.0 * 1024.0 * 1024.0 {
        format!("(Object) {:.2} MB", size / (1024.0 * 1024.0))
    } else {
        format!("(Object) {:.2} GB", size / (1024.0 * 1024.0 * 1024.0))
    }
}

#[test]
fn object_sizes_agree_with_floating_point() {
    let mut sizes: Vec<u64> = vec![
        0,
        1,
        1500,
        1536,
        1541,
        1_048_575,
        1_073_741_823,
        5_368_709_120,
        (1 << 53) - 1,
        (1 << 53) + 1,
        (1 << 53) + 3,
        (1 << 54) + 2,
        (1 << 54) + 6,
        u64::MAX - 1024,
        u64::MAX - 1023,
        u64::MAX,
    ];
    // Every tie of two decimal places below one megabyte, and a spread of others.
    for k in 0..2048u64 {
        sizes.push(1024 + 128 * k);
    }
    let mut x: u64 = 88_172_645_463_325_252;
    for _ in 0..5000 {
        x ^= x << 13;
        x ^= x >> 7;
        x ^= x << 17;
        sizes.push(x >> (x % 60));
    }
    for size in sizes {
        assert_eq!(
            object_bytes_to_string(&size.to_be_bytes()).unwrap(),
            float_object_text(size),
            "size {size}"
        );
    }
}

#[test]
fn record_all_types_known_bytes() {
    let values = [
        Value::Boolean(true),
        Value::Int32(7),
        Value::Int64(-2),
        float(1.5),
        double(-0.5),
        Value::Text("ab".into()),
        Value::Timestamp(3),
        Value::Date(20260713),
        Value::Blob(vec![0xDE, 0xAD]),
        Value::String("é".into()),
        Value::Object(vec![1, 0, 0, 0, 0, 0, 0, 0, 0, 0xDE, 0xAD]),
    ];

    let mut expected: Vec<u8> = Vec::new();
    expected.extend_from_slice(&[0x00, 0x01]); // BOOLEAN true
    expected.push(0x01);
    expected.extend_from_slice(&7i32.to_be_bytes());
    expected.push(0x02);
    expected.extend_from_slice(&(-2i64).to_be_bytes());
    expected.push(0x03);
    expected.extend_from_slice(&[0x3F, 0xC0, 0x00, 0x00]); // 1.5f32 IEEE 754 BE
    expected.push(0x04);
    expected.extend_from_slice(&(-0.5f64).to_be_bytes());
    expected.extend_from_slice(&[0x05, 0, 0, 0, 2, b'a', b'b']);
    expected.push(0x08);
    expected.extend_from_slice(&3i64.to_be_bytes());
    expected.push(0x09);
    expected.extend_from_slice(&20260713i32.to_be_bytes()); // yyyyMMdd
    expected.extend_from_slice(&[0x0A, 0, 0, 0, 2, 0xDE, 0xAD]);
    expected.extend_from_slice(&[0x0B, 0, 0, 0, 2, 0xC3, 0xA9]); // "é" UTF-8
    // OBJECT: type marker 12 + length-prefixed framed segment.
    expected.extend_from_slice(&[0x0C, 0, 0, 0, 11, 1, 0, 0, 0, 0, 0, 0, 0, 0, 0xDE, 0xAD]);
    assert_eq!(serialize_record_values(&values), expected);
}

#[test]
fn null_is_bare_type_marker() {
    assert_eq!(serialize_record_values(&[Value::Null]), [0xFE]);
    // Nulls interleave with typed cells without payload bytes.
    let buf = serialize_record_values(&[
        Value::Int32(5),
        Value::Null,
        Value::Boolean(false),
        Value::Null,
    ]);
    assert_eq!(buf, [0x01, 0, 0, 0, 5, 0xFE, 0x00, 0x00, 0xFE]);
}

#[test]
fn empty_row_is_empty_buffer() {
    assert_eq!(serialize_record_values(&[]), Vec::<u8>::new());
}

#[test]
fn bits_pack_and_unpack() {
    assert_eq!(pack_bits_lsb_first(&[]), Vec::<u8>::new());
    assert_eq!(pack_bits_lsb_first(&[true]), [0x01]);
    assert_eq!(
        pack_bits_lsb_first(&[false, true, false, false, false, false, false, true, true]),
        [0x82, 0x01]
    );
    assert_eq!(
        unpack_bits_msb_first(&[0b1010_0000, 0b1000_0000], 9),
        Some(vec![true, false, true, false, false, false, false, false, true])
    );
    assert_eq!(unpack_bits_msb_first(&[0xFF], 9), None);
    assert_eq!(unpack_bits_msb_first(&[], 0), Some(vec![]));
}

#[test]
fn errors_read_as_messages() {
    assert_eq!(
        Error::Server { code: 500, message: "boom".into() }.to_string(),
        "server error 500: boom"
    );
    assert_eq!(
        Error::Server { code: -1, message: String::new() }.to_string(),
        "server error -1: "
    );
    assert_eq!(Error::Client("no".into()).to_string(), "client error: no");
    assert_eq!(Error::Decode("bad".into()).to_string(), "decode error: bad");
    assert_eq!(Error::Tls("alert".into()).to_string(), "tls error: alert");
    let thrift = thrift::Error::from(std::io::Error::new(
        std::io::ErrorKind::ConnectionRefused,
        "refused",
    ));
    let text = Error::from(thrift).to_string();
    assert_eq!(text, "thrift error: not open");
}
