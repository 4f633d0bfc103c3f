//! Iteration over query results.

use iotdb_client::client::session::QueryHandle;
use iotdb_client::data::tsblock::{
    ENCODING_BINARY_ARRAY, ENCODING_INT32_ARRAY, ENCODING_INT64_ARRAY,
};
use iotdb_client::{
    Error, NextRow, Row, Session, SessionConfig, SessionDataSet, TSDataType, Value,
};

fn header(types: &[TSDataType], position_count: i32, encodings: &[u8]) -> Vec<u8> {
    let mut b = Vec::new();
    b.extend_from_slice(&(types.len() as i32).to_be_bytes());
    for &t in types {
        b.push(t.code() as u8);
    }
    b.extend_from_slice(&position_count.to_be_bytes());
    b.push(ENCODING_INT64_ARRAY); // time column
    b.extend_from_slice(encodings);
    b
}

fn time_column(ts: &[i64]) -> Vec<u8> {
    let mut b = vec![0u8]; // mayHaveNull = 0
    for t in ts {
        b.extend_from_slice(&t.to_be_bytes());
    }
    b
}

/// One-Int32-column block: timestamps `ts`, dense non-null values `vals`.
fn int32_block(ts: &[i64], vals: &[i32]) -> Vec<u8> {
    assert_eq!(ts.len(), vals.len());
    let mut b = header(&[TSDataType::Int32], ts.len() as i32, &[ENCODING_INT32_ARRAY]);
    b.extend_from_slice(&time_column(ts));
    b.push(0); // mayHaveNull
    for v in vals {
        b.extend_from_slice(&v.to_be_bytes());
    }
    b
}

fn handle(blocks: Vec<Vec<u8>>, more_data: bool) -> QueryHandle {
    QueryHandle {
        query_id: 1,
        statement: "SELECT s1 FROM root.sg.d1".into(),
        columns: vec!["root.sg.d1.s1".into()],
        data_type_list: vec!["INT32".into()],
        ignore_time_stamp: false,
        query_result: blocks,
        more_data,
        column_index2_ts_block_column_index_list: None,
    }
}

/// The next row, or `None` at the end of the rows at hand.
fn next(ds: &mut SessionDataSet) -> Result<Option<Row>, Error> {
    match ds.next_row()? {
        NextRow::Row(row) => Ok(Some(row)),
        NextRow::End(_) => Ok(None),
        NextRow::Fetch => panic!("unexpected fetch"),
    }
}

#[test]
fn drains_rows_across_multiple_cached_blocks() {
    let blocks = vec![int32_block(&[1, 2], &[10, 20]), int32_block(&[3], &[30])];
    let mut ds = SessionDataSet::new(handle(blocks, false));

    let mut rows = Vec::new();
    while let Some(row) = next(&mut ds).unwrap() {
        rows.push(row);
    }
    assert_eq!(
        rows,
        vec![
            Row {
                timestamp: Some(1),
                values: vec![Value::Int32(10)]
            },
            Row {
                timestamp: Some(2),
                values: vec![Value::Int32(20)]
            },
            Row {
                timestamp: Some(3),
                values: vec![Value::Int32(30)]
            },
        ]
    );
    // Exhausted → auto-closed; further calls keep returning None.
    assert_eq!(next(&mut ds).unwrap(), None);
}

#[test]
fn empty_result_set_yields_none_immediately() {
    let mut ds = SessionDataSet::new(handle(vec![], false));
    assert_eq!(next(&mut ds).unwrap(), None);
}

#[test]
fn empty_blocks_are_skipped() {
    let blocks = vec![int32_block(&[], &[]), int32_block(&[7], &[70])];
    let mut ds = SessionDataSet::new(handle(blocks, false));
    let row = next(&mut ds).unwrap().unwrap();
    assert_eq!(row.timestamp, Some(7));
    assert_eq!(next(&mut ds).unwrap(), None);
}

#[test]
fn more_data_on_dead_session_surfaces_fetch_error() {
    // moreData=true forces a fetch, which fails on a never-opened session —
    // the error must propagate, not panic.
    let session: Session<()> = Session::new(SessionConfig::default());
    let mut ds = SessionDataSet::new(handle(vec![], true));
    match ds.next_row().unwrap() {
        NextRow::Fetch => {}
        other => panic!("expected a fetch, got {other:?}"),
    }
    assert!(session.fetch_results(ds.query_id(), ds.statement()).is_err());
}

#[test]
fn ignore_time_stamp_omits_timestamps() {
    let mut h = handle(vec![int32_block(&[5], &[50])], false);
    h.ignore_time_stamp = true;
    let mut ds = SessionDataSet::new(h);
    assert!(ds.ignore_time_stamp());
    let row = next(&mut ds).unwrap().unwrap();
    assert_eq!(row.timestamp, None);
    assert_eq!(row.values, vec![Value::Int32(50)]);
}

#[test]
fn column_index_map_with_time_column_and_duplicates() {
    // Physical block: one TEXT column. Output: [time, text, text again].
    let mut b = header(&[TSDataType::Text], 2, &[ENCODING_BINARY_ARRAY]);
    b.extend_from_slice(&time_column(&[100, 200]));
    b.push(0); // mayHaveNull
    for s in ["a", "b"] {
        b.extend_from_slice(&(s.len() as i32).to_be_bytes());
        b.extend_from_slice(s.as_bytes());
    }

    let h = QueryHandle {
        query_id: 9,
        statement: "SELECT time, tag, tag FROM t".into(),
        columns: vec!["time".into(), "tag".into(), "tag".into()],
        data_type_list: vec!["TIMESTAMP".into(), "TEXT".into(), "TEXT".into()],
        ignore_time_stamp: true,
        query_result: vec![b],
        more_data: false,
        column_index2_ts_block_column_index_list: Some(vec![-1, 0, 0]),
    };
    let mut ds = SessionDataSet::new(h);
    assert_eq!(ds.columns(), ["time", "tag", "tag"]);
    assert_eq!(ds.column_types(), ["TIMESTAMP", "TEXT", "TEXT"]);

    let row = next(&mut ds).unwrap().unwrap();
    assert_eq!(
        row.values,
        vec![
            Value::Timestamp(100),
            Value::Text("a".into()),
            Value::Text("a".into()),
        ]
    );
    let row = next(&mut ds).unwrap().unwrap();
    assert_eq!(row.values[0], Value::Timestamp(200));
    assert_eq!(next(&mut ds).unwrap(), None);
}

#[test]
fn identity_mapping_when_map_absent() {
    let types = [TSDataType::Int32, TSDataType::Int32];
    let mut b = header(&types, 1, &[ENCODING_INT32_ARRAY, ENCODING_INT32_ARRAY]);
    b.extend_from_slice(&time_column(&[1]));
    for v in [11i32, 22] {
        b.push(0);
        b.extend_from_slice(&v.to_be_bytes());
    }

    let mut h = handle(vec![b], false);
    h.columns = vec!["s1".into(), "s2".into()];
    h.data_type_list = vec!["INT32".into(), "INT32".into()];
    let mut ds = SessionDataSet::new(h);
    let row = next(&mut ds).unwrap().unwrap();
    assert_eq!(row.values, vec![Value::Int32(11), Value::Int32(22)]);
}

#[test]
fn out_of_range_map_entry_is_decode_error() {
    let mut h = handle(vec![int32_block(&[1], &[10])], false);
    h.column_index2_ts_block_column_index_list = Some(vec![5]);
    let mut ds = SessionDataSet::new(h);
    assert!(matches!(ds.next_row(), Err(Error::Decode(_))));
}

#[test]
fn corrupt_block_is_decode_error() {
    let mut ds = SessionDataSet::new(handle(vec![vec![0, 1]], false));
    assert!(matches!(ds.next_row(), Err(Error::Decode(_))));
}

#[test]
fn explicit_close_stops_iteration() {
    let blocks = vec![int32_block(&[1, 2], &[10, 20])];
    let mut ds = SessionDataSet::new(handle(blocks, false));
    assert!(next(&mut ds).unwrap().is_some());
    ds.close();
    ds.close(); // idempotent
    assert_eq!(next(&mut ds).unwrap(), None);
}

#[test]
fn the_server_is_told_once_that_a_query_is_closed() {
    let mut ds = SessionDataSet::new(handle(vec![], false));
    assert!(matches!(ds.next_row(), Ok(NextRow::End(Some(1)))));
    assert!(matches!(ds.next_row(), Ok(NextRow::End(None))));
    assert_eq!(ds.close(), None);

    let mut ds = SessionDataSet::new(handle(vec![], true));
    assert_eq!(ds.close(), Some(1));
    assert_eq!(ds.close(), None);
    assert!(matches!(ds.next_row(), Ok(NextRow::End(None))));
}

#[test]
fn pages_are_fetched_until_the_server_has_no_more() {
    let mut ds = SessionDataSet::new(handle(vec![int32_block(&[1], &[10])], true));
    assert_eq!(next(&mut ds).unwrap().unwrap().timestamp, Some(1));
    assert!(matches!(ds.next_row(), Ok(NextRow::Fetch)));
    // An empty page with more to come: fetch again.
    ds.supply_page(vec![], true);
    assert!(matches!(ds.next_row(), Ok(NextRow::Fetch)));
    ds.supply_page(vec![int32_block(&[2, 3], &[20, 30])], false);
    assert_eq!(next(&mut ds).unwrap().unwrap().timestamp, Some(2));
    assert_eq!(next(&mut ds).unwrap().unwrap().values, vec![Value::Int32(30)]);
    assert_eq!(next(&mut ds).unwrap(), None);
}

#[test]
fn mapping_complaints() {
    let mut h = handle(vec![int32_block(&[1], &[10])], false);
    h.column_index2_ts_block_column_index_list = Some(vec![]);
    assert!(matches!(
        SessionDataSet::new(h).next_row(),
        Err(Error::Decode(m)) if m == "column index map has 0 entries, need output column 0"
    ));
    let mut h = handle(vec![int32_block(&[1], &[10])], false);
    h.column_index2_ts_block_column_index_list = Some(vec![-2]);
    assert!(matches!(
        SessionDataSet::new(h).next_row(),
        Err(Error::Decode(m)) if m == "column index map points at TsBlock column -2, block has 1"
    ));
    let mut h = handle(vec![int32_block(&[1], &[10])], false);
    h.columns = vec!["a".into(), "b".into()];
    let mut ds = SessionDataSet::new(h);
    assert!(matches!(
        ds.next_row(),
        Err(Error::Decode(m)) if m == "column index map points at TsBlock column 1, block has 1"
    ));
    // The row stays where it is.
    assert!(ds.next_row().is_err());
}

#[test]
fn a_corrupt_block_is_passed_over_after_its_complaint() {
    let blocks = vec![vec![0, 1], int32_block(&[7], &[70])];
    let mut ds = SessionDataSet::new(handle(blocks, false));
    assert!(ds.next_row().is_err());
    assert_eq!(next(&mut ds).unwrap().unwrap().timestamp, Some(7));
}
