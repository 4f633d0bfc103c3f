//! Tablets: validation, sorting and serialization.

use iotdb_client::{ColumnCategory, Error, Float32, Float64, TSDataType, Tablet, Value};

fn float(x: f32) -> Value {
    Value::Float(Float32 { bits: x.to_bits() })
}

fn double(x: f64) -> Value {
    Value::Double(Float64 { bits: x.to_bits() })
}

fn tree_tablet(types: Vec<TSDataType>) -> Tablet {
    let measurements = (0..types.len()).map(|i| format!("s{i}")).collect();
    Tablet::new("root.sg.d1", measurements, types).unwrap()
}

fn all_types() -> Vec<TSDataType> {
    vec![
        TSDataType::Boolean,
        TSDataType::Int32,
        TSDataType::Int64,
        TSDataType::Float,
        TSDataType::Double,
        TSDataType::Text,
        TSDataType::Timestamp,
        TSDataType::Date,
        TSDataType::Blob,
        TSDataType::String,
    ]
}

#[test]
fn int32_column_with_null_known_bytes() {
    let mut t = tree_tablet(vec![TSDataType::Int32]);
    t.add_row(1, vec![Some(Value::Int32(5))]).unwrap();
    t.add_row(2, vec![None]).unwrap();
    let expected = [
        0x00, 0x00, 0x00, 0x05, // row 0: 5
        0x80, 0x00, 0x00, 0x00, // row 1: i32::MIN placeholder
        0x01, // bitmap flag: has nulls
        0x02, // LSB-first: row 1 null → bit 1 → 0x02
    ];
    assert_eq!(t.serialize_values(), expected);
    assert_eq!(
        t.serialize_timestamps(),
        [0, 0, 0, 0, 0, 0, 0, 1, 0, 0, 0, 0, 0, 0, 0, 2]
    );
}

#[test]
fn no_nulls_writes_zero_flag_only() {
    let mut t = tree_tablet(vec![TSDataType::Boolean]);
    t.add_row(1, vec![Some(Value::Boolean(true))]).unwrap();
    t.add_row(2, vec![Some(Value::Boolean(false))]).unwrap();
    assert_eq!(t.serialize_values(), [0x01, 0x00, 0x00]);
}

#[test]
fn tablet_all_types_known_bytes() {
    let mut t = tree_tablet(all_types());
    t.add_row(
        100,
        vec![
            Some(Value::Boolean(true)),
            Some(Value::Int32(7)),
            Some(Value::Int64(-2)),
            Some(float(1.5)),
            Some(double(-0.5)),
            Some(Value::Text("ab".into())),
            Some(Value::Timestamp(3)),
            Some(Value::Date(20260710)),
            Some(Value::Blob(vec![0xDE, 0xAD])),
            Some(Value::String("é".into())),
        ],
    )
    .unwrap();

    let mut expected: Vec<u8> = Vec::new();
    expected.push(0x01); // true
    expected.extend_from_slice(&7i32.to_be_bytes());
    expected.extend_from_slice(&(-2i64).to_be_bytes());
    expected.extend_from_slice(&[0x3F, 0xC0, 0x00, 0x00]); // 1.5f32 IEEE 754 BE
    expected.extend_from_slice(&(-0.5f64).to_be_bytes());
    expected.extend_from_slice(&[0, 0, 0, 2, b'a', b'b']);
    expected.extend_from_slice(&3i64.to_be_bytes());
    expected.extend_from_slice(&20260710i32.to_be_bytes());
    expected.extend_from_slice(&[0, 0, 0, 2, 0xDE, 0xAD]);
    expected.extend_from_slice(&[0, 0, 0, 2, 0xC3, 0xA9]); // "é" UTF-8
    expected.extend_from_slice(&[0; 10]); // 10 columns, no nulls
    assert_eq!(t.serialize_values(), expected);
}

#[test]
fn all_types_null_placeholders() {
    let types = all_types();
    let n = types.len();
    let mut t = tree_tablet(types);
    t.add_row(1, vec![None; n]).unwrap();

    let mut expected: Vec<u8> = Vec::new();
    expected.push(0x00); // false
    expected.extend_from_slice(&i32::MIN.to_be_bytes());
    expected.extend_from_slice(&i64::MIN.to_be_bytes());
    expected.extend_from_slice(&f32::MIN.to_be_bytes());
    expected.extend_from_slice(&f64::MIN.to_be_bytes());
    expected.extend_from_slice(&[0, 0, 0, 0]); // empty text
    expected.extend_from_slice(&i64::MIN.to_be_bytes());
    expected.extend_from_slice(&10000101i32.to_be_bytes()); // 1000-01-01
    expected.extend_from_slice(&[0, 0, 0, 0]); // empty blob
    expected.extend_from_slice(&[0, 0, 0, 0]); // empty string
    for _ in 0..n {
        expected.extend_from_slice(&[0x01, 0x01]); // flag + bitmap (row 0 null)
    }
    assert_eq!(t.serialize_values(), expected);
}

#[test]
fn unsorted_rows_are_sorted_by_timestamp() {
    let mut t = tree_tablet(vec![TSDataType::Int32]);
    t.add_row(3, vec![Some(Value::Int32(30))]).unwrap();
    t.add_row(1, vec![None]).unwrap();
    t.add_row(2, vec![Some(Value::Int32(20))]).unwrap();

    let ts = t.serialize_timestamps();
    assert_eq!(
        ts,
        [1i64, 2, 3]
            .iter()
            .flat_map(|v| v.to_be_bytes())
            .collect::<Vec<u8>>()
    );
    // Values reordered with their rows; the null moved to row 0.
    let expected = [
        0x80, 0x00, 0x00, 0x00, // null placeholder (was ts=1)
        0x00, 0x00, 0x00, 0x14, // 20 (ts=2)
        0x00, 0x00, 0x00, 0x1E, // 30 (ts=3)
        0x01, 0x01, // flag + LSB-first bitmap: row 0 null
    ];
    assert_eq!(t.serialize_values(), expected);
    assert_eq!(t.timestamps(), &[1, 2, 3]);
}

#[test]
fn sort_is_stable_for_equal_timestamps() {
    let mut t = tree_tablet(vec![TSDataType::Text]);
    t.add_row(5, vec![Some(Value::Text("first".into()))])
        .unwrap();
    t.add_row(1, vec![Some(Value::Text("zero".into()))])
        .unwrap();
    t.add_row(5, vec![Some(Value::Text("second".into()))])
        .unwrap();
    t.sort_by_timestamp();
    assert_eq!(t.timestamps(), &[1, 5, 5]);
    assert_eq!(t.values()[0][1], Some(Value::Text("first".into())));
    assert_eq!(t.values()[0][2], Some(Value::Text("second".into())));
}

#[test]
fn large_tablets_sort_like_a_stable_sort() {
    let mut t = tree_tablet(vec![TSDataType::Int32]);
    let mut rows: Vec<(i64, i32)> = Vec::new();
    let mut x: u32 = 12345;
    for i in 0..3000 {
        x = x.wrapping_mul(1664525).wrapping_add(1013904223);
        let ts = i64::from(x >> 24) - 128;
        rows.push((ts, i));
        t.add_row(ts, vec![Some(Value::Int32(i))]).unwrap();
    }
    rows.sort_by_key(|r| r.0);
    t.sort_by_timestamp();
    for (i, (ts, v)) in rows.iter().enumerate() {
        assert_eq!(t.timestamps()[i], *ts);
        assert_eq!(t.values()[0][i], Some(Value::Int32(*v)));
    }
    let once = t.clone();
    t.sort_by_timestamp();
    assert_eq!(t.timestamps(), once.timestamps());
    assert_eq!(t.values(), once.values());
}

#[test]
fn bitmap_is_rows_over_8_plus_1() {
    // 8 rows with a null: the server's BitMap always reads rows/8 + 1
    // bytes, so an 8-row bitmap is 2 bytes (1 data + 1 padding).
    let mut t = tree_tablet(vec![TSDataType::Int32]);
    for i in 0..8 {
        let cell = if i == 7 { None } else { Some(Value::Int32(i)) };
        t.add_row(i64::from(i), vec![cell]).unwrap();
    }
    let buf = t.serialize_values();
    assert_eq!(buf.len(), 8 * 4 + 1 + 2);
    assert_eq!(buf[8 * 4], 0x01); // flag
    assert_eq!(buf[8 * 4 + 1], 0x80); // row 7 null, LSB-first → bit 7
    assert_eq!(buf[8 * 4 + 2], 0x00); // padding byte

    // 9 rows: still 2 bitmap bytes (9/8 + 1 = 2).
    let mut t = tree_tablet(vec![TSDataType::Int32]);
    for i in 0..9 {
        let cell = if i == 8 { None } else { Some(Value::Int32(i)) };
        t.add_row(i64::from(i), vec![cell]).unwrap();
    }
    let buf = t.serialize_values();
    assert_eq!(buf.len(), 9 * 4 + 1 + 2);
    assert_eq!(&buf[9 * 4..], [0x01, 0x00, 0x01]); // row 8 → byte 1 bit 0
}

#[test]
fn multi_column_is_column_major() {
    let mut t = tree_tablet(vec![TSDataType::Int32, TSDataType::Boolean]);
    t.add_row(1, vec![Some(Value::Int32(1)), Some(Value::Boolean(true))])
        .unwrap();
    t.add_row(2, vec![Some(Value::Int32(2)), Some(Value::Boolean(false))])
        .unwrap();
    let expected = [
        0, 0, 0, 1, 0, 0, 0, 2, // int32 column, both rows
        1, 0, // boolean column, both rows
        0, 0, // both flags: no nulls
    ];
    assert_eq!(t.serialize_values(), expected);
}

#[test]
fn empty_tablet_serializes_flags_only() {
    let mut t = tree_tablet(vec![TSDataType::Int64]);
    assert_eq!(t.serialize_values(), [0x00]);
    assert_eq!(t.serialize_timestamps(), Vec::<u8>::new());
}

#[test]
fn table_model_tablet() {
    let t = Tablet::new_table(
        "sensors",
        vec!["tag1".into(), "f1".into(), "attr1".into()],
        vec![TSDataType::String, TSDataType::Double, TSDataType::String],
        vec![
            ColumnCategory::Tag,
            ColumnCategory::Field,
            ColumnCategory::Attribute,
        ],
    )
    .unwrap();
    assert!(t.is_table_model());
    assert_eq!(t.table_name(), "sensors");
    assert_eq!(
        t.column_categories().unwrap(),
        &[
            ColumnCategory::Tag,
            ColumnCategory::Field,
            ColumnCategory::Attribute
        ]
    );
}

#[test]
fn constructor_and_add_row_validation() {
    assert!(Tablet::new("d", vec!["s1".into()], vec![]).is_err());
    assert!(Tablet::new_table(
        "t",
        vec!["c1".into()],
        vec![TSDataType::Int32],
        vec![ColumnCategory::Tag, ColumnCategory::Field],
    )
    .is_err());

    let mut t = tree_tablet(vec![TSDataType::Int32]);
    // Wrong arity.
    assert!(t.add_row(1, vec![]).is_err());
    // Wrong type.
    assert!(t.add_row(1, vec![Some(Value::Int64(1))]).is_err());
    // Explicit Value::Null behaves like None.
    t.add_row(1, vec![Some(Value::Null)]).unwrap();
    assert_eq!(&t.serialize_values()[4..], [0x01, 0x01]); // flag + null bitmap
    assert_eq!(t.row_count(), 1);
}

#[test]
fn rejected_rows_say_why_and_change_nothing() {
    let mut t = tree_tablet(vec![TSDataType::Int32, TSDataType::Text]);
    match t.add_row(1, vec![None]) {
        Err(Error::Client(m)) => assert_eq!(m, "row has 1 cells, tablet has 2 columns"),
        other => panic!("expected client error, got {other:?}"),
    }
    match t.add_row(1, vec![None, Some(Value::String("x".into()))]) {
        Err(Error::Client(m)) => {
            assert_eq!(m, "column 1 (s1) expects Text, got String(\"x\")")
        }
        other => panic!("expected client error, got {other:?}"),
    }
    assert_eq!(t.row_count(), 0);
    assert!(t.values()[0].is_empty() && t.values()[1].is_empty());
    match Tablet::new("d", vec!["a".into()], vec![]) {
        Err(Error::Client(m)) => assert_eq!(m, "measurement count (1) != type count (0)"),
        other => panic!("expected client error, got {other:?}"),
    }
    match Tablet::new_table("t", vec![], vec![TSDataType::Int32], vec![]) {
        Err(Error::Client(m)) => assert_eq!(m, "category count (0) != type count (1)"),
        other => panic!("expected client error, got {other:?}"),
    }
}

#[test]
fn aligned_tablets_and_getters() {
    let t = Tablet::new_aligned("root.sg.d1", vec!["a".into()], vec![TSDataType::Int32]).unwrap();
    assert!(t.is_aligned());
    assert!(!t.is_table_model());
    assert_eq!(t.column_categories(), None);
    assert_eq!(t.target(), "root.sg.d1");
    assert_eq!(t.measurements(), ["a".to_string()]);
    assert_eq!(t.types(), [TSDataType::Int32]);
}

#[test]
fn object_segments_are_framed() {
    assert_eq!(
        Tablet::build_object_value(true, 512, &[0xDE, 0xAD]),
        [1, 0, 0, 0, 0, 0, 0, 2, 0, 0xDE, 0xAD]
    );
    assert_eq!(
        Tablet::build_object_value(false, -1, &[]),
        [0, 0xFF, 0xFF, 0xFF, 0xFF, 0xFF, 0xFF, 0xFF, 0xFF]
    );
}

#[test]
fn object_cells_are_set_in_place() {
    let mut t = Tablet::new_table(
        "object_table",
        vec!["region_id".into(), "file".into()],
        vec![TSDataType::String, TSDataType::Object],
        vec![ColumnCategory::Tag, ColumnCategory::Field],
    )
    .unwrap();
    t.add_row(0, vec![Some(Value::String("1".into())), None])
        .unwrap();
    t.timestamps_mut()[0] = 1;
    assert_eq!(t.timestamps(), &[1]);
    t.set_object_value_at(true, 0, &[7, 8], 1, 0).unwrap();
    assert_eq!(
        t.values()[1][0],
        Some(Value::Object(vec![1, 0, 0, 0, 0, 0, 0, 0, 0, 7, 8]))
    );
    let mut expected: Vec<u8> = vec![0, 0, 0, 1, b'1'];
    expected.extend_from_slice(&[0, 0, 0, 11, 1, 0, 0, 0, 0, 0, 0, 0, 0, 7, 8]);
    expected.extend_from_slice(&[0, 0]);
    assert_eq!(t.serialize_values(), expected);

    assert!(matches!(
        t.set_object_value_at(true, 0, &[], 0, 0),
        Err(Error::Client(m)) if m.contains("expects String")
    ));
    assert!(matches!(
        t.set_object_value_at(true, 0, &[], 2, 0),
        Err(Error::Client(m)) if m.contains("column 2 is out of range")
    ));
    assert!(matches!(
        t.set_object_value_at(true, 0, &[], 1, 1),
        Err(Error::Client(m)) if m.contains("row 1 is out of range")
    ));
}

#[test]
fn null_object_cells_are_empty_strings() {
    let mut t = tree_tablet(vec![TSDataType::Object]);
    t.add_row(1, vec![None]).unwrap();
    assert_eq!(t.serialize_values(), [0, 0, 0, 0, 1, 1]);
}

#[test]
fn vector_columns_with_rows_cannot_be_serialized() {
    let mut t = Tablet::new(
        "root.sg.d1",
        vec!["a".into(), "b".into()],
        vec![TSDataType::Int32, TSDataType::Vector],
    )
    .unwrap();
    // Without rows there is no cell to write.
    assert!(t.is_serializable());
    t.add_row(1, vec![None, None]).unwrap();
    assert!(!t.is_serializable());

    let mut plain = Tablet::new("root.sg.d1", vec!["a".into()], vec![TSDataType::Object]).unwrap();
    plain.add_row(1, vec![None]).unwrap();
    assert!(plain.is_serializable());
}
