//! The RPC messages exchanged with an IoTDB DataNode, as plain values.

use vstd::prelude::*;

verus! {

/// The client's protocol version.
pub const PROTOCOL_V3: i32 = 2;

/// A node address as the server sends it.
#[derive(Debug)]
pub struct TEndPoint {
    pub ip: String,
    pub port: i32,
}

impl TEndPoint {
    /// The address `ip:port`.
    pub fn new(ip: String, port: i32) -> (node: TEndPoint)
        ensures
            node.ip == ip,
            node.port == port,
    {
        TEndPoint { ip, port }
    }
}

/// The outcome of an RPC as the server reports it.
#[derive(Debug)]
pub struct TSStatus {
    pub code: i32,
    pub message: Option<String>,
    pub sub_status: Option<Vec<Box<TSStatus>>>,
    pub redirect_node: Option<TEndPoint>,
}

impl TSStatus {
    /// A status that carries only a code.
    pub fn new(code: i32) -> (status: TSStatus)
        ensures
            status == (TSStatus {
                code,
                message: None,
                sub_status: None,
                redirect_node: None,
            }),
    {
        TSStatus { code, message: None, sub_status: None, redirect_node: None }
    }
}

/// Opens a session.
#[derive(Debug)]
pub struct TSOpenSessionReq {
    pub client_protocol: i32,
    pub zone_id: String,
    pub username: String,
    pub password: String,
    /// Configuration keys with their values, in key order.
    pub configuration: Vec<(String, String)>,
}

/// The answer to a [`TSOpenSessionReq`].
#[derive(Debug)]
pub struct TSOpenSessionResp {
    pub status: TSStatus,
    pub server_protocol_version: i32,
    pub session_id: Option<i64>,
}

/// Closes a session.
#[derive(Debug)]
pub struct TSCloseSessionReq {
    pub session_id: i64,
}

/// Executes a statement.
#[derive(Debug)]
pub struct TSExecuteStatementReq {
    pub session_id: i64,
    pub statement: String,
    pub statement_id: i64,
    pub fetch_size: i32,
    pub timeout: i64,
    pub enable_redirect_query: bool,
    pub jdbc_query: bool,
}

/// The answer to a [`TSExecuteStatementReq`].
#[derive(Debug)]
pub struct TSExecuteStatementResp {
    pub status: TSStatus,
    pub query_id: Option<i64>,
    pub columns: Option<Vec<String>>,
    pub data_type_list: Option<Vec<String>>,
    pub ignore_time_stamp: Option<bool>,
    pub query_result: Option<Vec<Vec<u8>>>,
    pub more_data: Option<bool>,
    pub database: Option<String>,
    pub column_index2_ts_block_column_index_list: Option<Vec<i32>>,
}

/// Fetches the next page of a query.
#[derive(Debug)]
pub struct TSFetchResultsReq {
    pub session_id: i64,
    pub statement: String,
    pub fetch_size: i32,
    pub query_id: i64,
    pub is_align: bool,
    pub timeout: i64,
    pub statement_id: i64,
}

/// The answer to a [`TSFetchResultsReq`].
#[derive(Debug)]
pub struct TSFetchResultsResp {
    pub status: TSStatus,
    pub has_result_set: bool,
    pub query_result: Option<Vec<Vec<u8>>>,
    pub more_data: Option<bool>,
}

/// Closes a query.
#[derive(Debug)]
pub struct TSCloseOperationReq {
    pub session_id: i64,
    pub query_id: i64,
    pub statement_id: i64,
}

/// Inserts one tablet.
#[derive(Debug)]
pub struct TSInsertTabletReq {
    pub session_id: i64,
    pub prefix_path: String,
    pub measurements: Vec<String>,
    pub values: Vec<u8>,
    pub timestamps: Vec<u8>,
    pub types: Vec<i32>,
    pub size: i32,
    pub is_aligned: Option<bool>,
    pub write_to_table: Option<bool>,
    pub column_categories: Option<Vec<i8>>,
}

/// Inserts several tree-model tablets.
#[derive(Debug)]
pub struct TSInsertTabletsReq {
    pub session_id: i64,
    pub prefix_paths: Vec<String>,
    pub measurements_list: Vec<Vec<String>>,
    pub values_list: Vec<Vec<u8>>,
    pub timestamps_list: Vec<Vec<u8>>,
    pub types_list: Vec<Vec<i32>>,
    pub size_list: Vec<i32>,
    pub is_aligned: Option<bool>,
}

/// Inserts one row.
#[derive(Debug)]
pub struct TSInsertRecordReq {
    pub session_id: i64,
    pub prefix_path: String,
    pub measurements: Vec<String>,
    pub values: Vec<u8>,
    pub timestamp: i64,
    pub is_aligned: Option<bool>,
}

/// Inserts one row for each of several devices.
#[derive(Debug)]
pub struct TSInsertRecordsReq {
    pub session_id: i64,
    pub prefix_paths: Vec<String>,
    pub measurements_list: Vec<Vec<String>>,
    pub values_list: Vec<Vec<u8>>,
    pub timestamps: Vec<i64>,
    pub is_aligned: Option<bool>,
}

/// Inserts several rows for one device.
#[derive(Debug)]
pub struct TSInsertRecordsOfOneDeviceReq {
    pub session_id: i64,
    pub prefix_path: String,
    pub measurements_list: Vec<Vec<String>>,
    pub values_list: Vec<Vec<u8>>,
    pub timestamps: Vec<i64>,
    pub is_aligned: Option<bool>,
}

} // verus!
