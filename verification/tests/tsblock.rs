//! Decoding of query result blocks.

use iotdb_client::data::tsblock::{
    decode_column, Reader, ENCODING_BINARY_ARRAY, ENCODING_BYTE_ARRAY, ENCODING_INT32_ARRAY,
    ENCODING_INT64_ARRAY, ENCODING_RLE,
};
use iotdb_client::{Error, Float32, Float64, TSDataType, TsBlock, Value};

/// Builds a TsBlock header: valueColumnCount, type bytes, positionCount,
/// time encoding (Int64Array), value encodings.
fn header(types: &[TSDataType], position_count: i32, encodings: &[u8]) -> Vec<u8> {
    let mut b = Vec::new();
    b.extend_from_slice(&(types.len() as i32).to_be_bytes());
    for &t in types {
        b.push(t.code() as u8);
    }
    b.extend_from_slice(&position_count.to_be_bytes());
    b.push(ENCODING_INT64_ARRAY); // time column
    b.extend_from_slice(encodings);
    b
}

/// Dense Int64Array time column with no nulls.
fn time_column(ts: &[i64]) -> Vec<u8> {
    let mut b = vec![0u8]; // mayHaveNull = 0
    for t in ts {
        b.extend_from_slice(&t.to_be_bytes());
    }
    b
}

fn decode_error(bytes: &[u8]) -> String {
    match TsBlock::decode(bytes) {
        Err(Error::Decode(m)) => m,
        other => panic!("expected decode error, got {other:?}"),
    }
}

#[test]
fn int32_column_no_nulls() {
    let mut b = header(&[TSDataType::Int32], 2, &[ENCODING_INT32_ARRAY]);
    b.extend_from_slice(&time_column(&[10, 20]));
    b.push(0); // mayHaveNull
    b.extend_from_slice(&5i32.to_be_bytes());
    b.extend_from_slice(&(-1i32).to_be_bytes());

    let block = TsBlock::decode(&b).unwrap();
    assert_eq!(block.position_count, 2);
    assert_eq!(block.timestamps, vec![10, 20]);
    assert_eq!(block.column_types, vec![TSDataType::Int32]);
    assert_eq!(block.columns, vec![vec![Value::Int32(5), Value::Int32(-1)]]);
}

#[test]
fn nulls_are_dense_skipped_in_numeric_columns() {
    // 3 rows, row 1 null: only 2 i32 values on the wire.
    let mut b = header(&[TSDataType::Int32], 3, &[ENCODING_INT32_ARRAY]);
    b.extend_from_slice(&time_column(&[1, 2, 3]));
    b.push(1); // mayHaveNull
    b.push(0b0100_0000); // MSB-first: position 1 null
    b.extend_from_slice(&7i32.to_be_bytes());
    b.extend_from_slice(&9i32.to_be_bytes());

    let block = TsBlock::decode(&b).unwrap();
    assert_eq!(
        block.columns[0],
        vec![Value::Int32(7), Value::Null, Value::Int32(9)]
    );
}

#[test]
fn int64_double_and_float_bit_patterns() {
    let types = [TSDataType::Double, TSDataType::Float, TSDataType::Timestamp];
    let mut b = header(
        &types,
        1,
        &[
            ENCODING_INT64_ARRAY,
            ENCODING_INT32_ARRAY,
            ENCODING_INT64_ARRAY,
        ],
    );
    b.extend_from_slice(&time_column(&[42]));
    b.push(0);
    b.extend_from_slice(&(-2.5f64).to_be_bytes()); // f64 via i64 bits
    b.push(0);
    b.extend_from_slice(&1.5f32.to_be_bytes());
    b.push(0);
    b.extend_from_slice(&123456789012345i64.to_be_bytes());

    let block = TsBlock::decode(&b).unwrap();
    assert_eq!(
        block.columns[0],
        vec![Value::Double(Float64 { bits: (-2.5f64).to_bits() })]
    );
    assert_eq!(
        block.columns[1],
        vec![Value::Float(Float32 { bits: 1.5f32.to_bits() })]
    );
    assert_eq!(block.columns[2], vec![Value::Timestamp(123456789012345)]);
}

#[test]
fn boolean_bytearray_full_bit_array_with_nulls() {
    // 10 rows: nulls at 0 and 9; values MSB-first over ALL positions.
    let mut b = header(&[TSDataType::Boolean], 10, &[ENCODING_BYTE_ARRAY]);
    b.extend_from_slice(&time_column(&(0..10).collect::<Vec<i64>>()));
    b.push(1); // mayHaveNull
    b.extend_from_slice(&[0b1000_0000, 0b0100_0000]); // nulls at 0, 9
    // Value bits (positions 1..=8 meaningful): true at 1, 3, 8.
    b.extend_from_slice(&[0b0101_0000, 0b1000_0000]);

    let block = TsBlock::decode(&b).unwrap();
    let expect: Vec<Value> = vec![
        Value::Null,
        Value::Boolean(true),
        Value::Boolean(false),
        Value::Boolean(true),
        Value::Boolean(false),
        Value::Boolean(false),
        Value::Boolean(false),
        Value::Boolean(false),
        Value::Boolean(true),
        Value::Null,
    ];
    assert_eq!(block.columns[0], expect);
}

#[test]
fn binary_array_text_blob_and_nulls() {
    let types = [TSDataType::Text, TSDataType::Blob];
    let mut b = header(&types, 2, &[ENCODING_BINARY_ARRAY, ENCODING_BINARY_ARRAY]);
    b.extend_from_slice(&time_column(&[1, 2]));
    // Text column: ["héllo", null] — null consumes no bytes.
    b.push(1);
    b.push(0b0100_0000);
    let s = "héllo".as_bytes();
    b.extend_from_slice(&(s.len() as i32).to_be_bytes());
    b.extend_from_slice(s);
    // Blob column, no nulls.
    b.push(0);
    b.extend_from_slice(&2i32.to_be_bytes());
    b.extend_from_slice(&[0xCA, 0xFE]);
    b.extend_from_slice(&0i32.to_be_bytes()); // empty blob

    let block = TsBlock::decode(&b).unwrap();
    assert_eq!(
        block.columns[0],
        vec![Value::Text("héllo".into()), Value::Null]
    );
    assert_eq!(
        block.columns[1],
        vec![Value::Blob(vec![0xCA, 0xFE]), Value::Blob(vec![])]
    );
}

#[test]
fn rle_replicates_single_value() {
    let mut b = header(&[TSDataType::Int64], 4, &[ENCODING_RLE]);
    b.extend_from_slice(&time_column(&[1, 2, 3, 4]));
    b.push(ENCODING_INT64_ARRAY); // inner encoding
    b.push(0); // inner mayHaveNull
    b.extend_from_slice(&99i64.to_be_bytes());

    let block = TsBlock::decode(&b).unwrap();
    assert_eq!(block.columns[0], vec![Value::Int64(99); 4]);
}

#[test]
fn rle_of_null_replicates_null() {
    let mut b = header(&[TSDataType::Int32], 3, &[ENCODING_RLE]);
    b.extend_from_slice(&time_column(&[1, 2, 3]));
    b.push(ENCODING_INT32_ARRAY);
    b.push(1); // inner mayHaveNull
    b.push(0b1000_0000); // single position, null → zero dense values
    let block = TsBlock::decode(&b).unwrap();
    assert_eq!(block.columns[0], vec![Value::Null; 3]);
}

#[test]
fn rle_time_column() {
    // Constant time column via RLE (encoding byte in header slot).
    let mut b = Vec::new();
    b.extend_from_slice(&0i32.to_be_bytes()); // no value columns
    b.extend_from_slice(&3i32.to_be_bytes()); // positionCount
    b.push(ENCODING_RLE); // time encoding
    b.push(ENCODING_INT64_ARRAY); // inner
    b.push(0);
    b.extend_from_slice(&7i64.to_be_bytes());

    let block = TsBlock::decode(&b).unwrap();
    assert_eq!(block.timestamps, vec![7, 7, 7]);
    assert!(block.columns.is_empty());
}

#[test]
fn date_decodes_as_yyyymmdd_i32() {
    let mut b = header(&[TSDataType::Date], 1, &[ENCODING_INT32_ARRAY]);
    b.extend_from_slice(&time_column(&[0]));
    b.push(0);
    b.extend_from_slice(&20260710i32.to_be_bytes());
    let block = TsBlock::decode(&b).unwrap();
    assert_eq!(block.columns[0], vec![Value::Date(20260710)]);
}

#[test]
fn empty_block() {
    let mut b = header(&[TSDataType::Int32], 0, &[ENCODING_INT32_ARRAY]);
    b.extend_from_slice(&time_column(&[]));
    b.push(0); // value column: mayHaveNull, zero values
    let block = TsBlock::decode(&b).unwrap();
    assert_eq!(block.position_count, 0);
    assert!(block.timestamps.is_empty());
    assert_eq!(block.columns, vec![Vec::<Value>::new()]);
}

#[test]
fn truncated_and_malformed_inputs_error() {
    // Truncated header.
    assert!(matches!(TsBlock::decode(&[0, 0]), Err(Error::Decode(_))));
    // Unknown type code.
    let mut b = Vec::new();
    b.extend_from_slice(&1i32.to_be_bytes());
    b.push(200);
    assert!(matches!(TsBlock::decode(&b), Err(Error::Decode(_))));
    // Unknown encoding.
    let mut b = header(&[TSDataType::Int32], 1, &[9]);
    b.extend_from_slice(&time_column(&[1]));
    assert!(matches!(TsBlock::decode(&b), Err(Error::Decode(_))));
    // Truncated value payload.
    let mut b = header(&[TSDataType::Int64], 1, &[ENCODING_INT64_ARRAY]);
    b.extend_from_slice(&time_column(&[1]));
    b.push(0);
    b.extend_from_slice(&[0, 0]); // only 2 of 8 bytes
    assert!(matches!(TsBlock::decode(&b), Err(Error::Decode(_))));
    // Nested RLE is rejected.
    let mut b = header(&[TSDataType::Int32], 1, &[ENCODING_RLE]);
    b.extend_from_slice(&time_column(&[1]));
    b.push(ENCODING_RLE);
    assert!(matches!(TsBlock::decode(&b), Err(Error::Decode(_))));
}

#[test]
fn complaints_name_the_fault() {
    assert_eq!(
        decode_error(&[0, 0]),
        "truncated TsBlock: need 4 bytes at offset 0, have 2"
    );
    assert_eq!(decode_error(&(-1i32).to_be_bytes()), "negative valueColumnCount: -1");
    let mut b = 1i32.to_be_bytes().to_vec();
    b.push(200);
    assert_eq!(decode_error(&b), "unknown TSDataType code 200");
    let b = header(&[], -7, &[]);
    assert_eq!(decode_error(&b), "negative positionCount: -7");
    let mut b = header(&[TSDataType::Int32], 1, &[9]);
    b.extend_from_slice(&time_column(&[1]));
    assert_eq!(decode_error(&b), "unknown column encoding 9");
    let mut b = header(&[TSDataType::Int32], 1, &[ENCODING_RLE]);
    b.extend_from_slice(&time_column(&[1]));
    b.push(ENCODING_RLE);
    assert_eq!(decode_error(&b), "nested RLE column encoding");
    for (encoding, ty, text) in [
        (ENCODING_INT32_ARRAY, TSDataType::Text, "Int32Array encoding with incompatible type Text"),
        (ENCODING_INT64_ARRAY, TSDataType::Int32, "Int64Array encoding with incompatible type Int32"),
        (ENCODING_BINARY_ARRAY, TSDataType::Int64, "BinaryArray encoding with incompatible type Int64"),
    ] {
        let mut b = header(&[ty], 1, &[encoding]);
        b.extend_from_slice(&time_column(&[1]));
        b.push(0);
        b.extend_from_slice(&[0; 8]);
        assert_eq!(decode_error(&b), text);
    }
    let mut b = header(&[TSDataType::Text], 1, &[ENCODING_BINARY_ARRAY]);
    b.extend_from_slice(&time_column(&[1]));
    b.push(0);
    b.extend_from_slice(&(-3i32).to_be_bytes());
    assert_eq!(decode_error(&b), "negative binary length: -3");
    let mut b = header(&[TSDataType::Text], 1, &[ENCODING_BINARY_ARRAY]);
    b.extend_from_slice(&time_column(&[1]));
    b.push(0);
    b.extend_from_slice(&[0, 0, 0, 2, 0x61, 0xFF]);
    assert_eq!(
        decode_error(&b),
        format!(
            "invalid UTF-8 in text column: {}",
            String::from_utf8(vec![0x61, 0xFF]).unwrap_err()
        )
    );
}

#[test]
fn time_columns_hold_times() {
    // A null in the time column.
    let mut b = header(&[], 1, &[]);
    b.push(1);
    b.push(0b1000_0000);
    assert_eq!(decode_error(&b), "time column contains non-INT64 value: Null");
    // A boolean time column.
    let mut b = 0i32.to_be_bytes().to_vec();
    b.extend_from_slice(&1i32.to_be_bytes());
    b.push(ENCODING_BYTE_ARRAY);
    b.push(0);
    b.push(0b1000_0000);
    assert_eq!(
        decode_error(&b),
        "time column contains non-INT64 value: Boolean(true)"
    );
}

#[test]
fn object_columns_show_the_stored_size() {
    let mut b = header(&[TSDataType::Object], 2, &[ENCODING_BINARY_ARRAY]);
    b.extend_from_slice(&time_column(&[1, 3]));
    b.push(1);
    b.push(0b0100_0000);
    b.extend_from_slice(&12i32.to_be_bytes());
    b.extend_from_slice(&1024u64.to_be_bytes());
    b.extend_from_slice(b"path");
    let block = TsBlock::decode(&b).unwrap();
    assert_eq!(
        block.columns[0],
        vec![Value::String("(Object) 1.00 KB".into()), Value::Null]
    );

    let mut b = header(&[TSDataType::Object], 1, &[ENCODING_BINARY_ARRAY]);
    b.extend_from_slice(&time_column(&[1]));
    b.push(0);
    b.extend_from_slice(&[0, 0, 0, 1, 9]);
    assert_eq!(
        decode_error(&b),
        "invalid OBJECT value: expected at least 8 bytes, got 1"
    );
}

#[test]
fn bytes_behind_the_block_are_ignored() {
    let mut b = header(&[TSDataType::Int32], 1, &[ENCODING_INT32_ARRAY]);
    b.extend_from_slice(&time_column(&[10]));
    b.push(0);
    b.extend_from_slice(&5i32.to_be_bytes());
    let block = TsBlock::decode(&b).unwrap();
    b.extend_from_slice(&[1, 2, 3]);
    assert_eq!(TsBlock::decode(&b).unwrap(), block);
}

#[test]
fn run_length_columns_take_the_same_bytes_for_any_row_count() {
    // Inner encoding, no nulls, one value; a byte that belongs to nobody.
    let bytes = [ENCODING_INT32_ARRAY, 0, 0, 0, 0, 7, 99];
    for count in [0usize, 1, 5] {
        let mut r = Reader::new(&bytes);
        let column = decode_column(&mut r, ENCODING_RLE, TSDataType::Int32, count).unwrap();
        assert_eq!(column, vec![Value::Int32(7); count]);
        assert_eq!(r.pos, 6);
    }
    let nested = [ENCODING_RLE, ENCODING_RLE];
    assert!(decode_column(&mut Reader::new(&nested), ENCODING_RLE, TSDataType::Int32, 1).is_err());
}

#[test]
fn failed_reads_leave_the_cursor_where_it_is() {
    let mut r = Reader::new(&[1, 2, 3]);
    assert_eq!(r.read_bytes(2).unwrap(), [1, 2]);
    assert!(r.read_bytes(2).is_err());
    assert!(r.read_bytes(usize::MAX).is_err());
    assert_eq!(r.pos, 2);
    assert_eq!(r.read_bytes(1).unwrap(), [3]);
}
