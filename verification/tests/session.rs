//! Sessions: configuration, statuses, requests, reconnecting.

use iotdb_client::client::session::inserts::{
    build_insert_tablets_req, check_record_arity, filter_null_cells, sort_one_device_rows,
};
use iotdb_client::client::session::walk::WalkStep;
use iotdb_client::client::session::{
    check_status, status_code, AfterAttempt, AfterReconnect, InsertRequest, Session, SessionConfig,
};
use iotdb_client::connection::{Connection, RpcProtocol};
use iotdb_client::data::record::serialize_record_values;
use iotdb_client::protocol::{
    TEndPoint, TSExecuteStatementResp, TSFetchResultsResp, TSOpenSessionResp, TSStatus,
};
use iotdb_client::time::Duration;
use iotdb_client::{ColumnCategory, Endpoint, Error, TSDataType, Tablet, Value};

type TestSession = Session<()>;

fn status(code: i32) -> TSStatus {
    TSStatus::new(code)
}

fn thrift_error() -> Error {
    Error::Thrift(thrift::Error::from(std::io::Error::new(
        std::io::ErrorKind::UnexpectedEof,
        "eof",
    )))
}

fn opened(config: SessionConfig, endpoint: Endpoint) -> TestSession {
    let mut session = Session::new(config);
    session.opened(Connection::new(endpoint, RpcProtocol::Binary, ()), 1, 1);
    session
}

fn statement_resp(code: i32) -> TSExecuteStatementResp {
    TSExecuteStatementResp {
        status: status(code),
        query_id: None,
        columns: None,
        data_type_list: None,
        ignore_time_stamp: None,
        query_result: None,
        more_data: None,
        database: None,
        column_index2_ts_block_column_index_list: None,
    }
}

#[test]
fn default_config() {
    let cfg = SessionConfig::default();
    assert_eq!(cfg.endpoints[0], Endpoint::new("localhost", 6667));
    assert_eq!(cfg.username, "root");
    assert_eq!(cfg.password, "root");
    assert_eq!(cfg.sql_dialect, "tree");
    assert_eq!(cfg.fetch_size, 1024);
    assert_eq!(cfg.query_timeout_ms, 60_000);
    assert_eq!(cfg.connect_timeout, Duration::from_secs(10));
    assert!(cfg.database.is_none());
    assert!(cfg.enable_auto_reconnect);
    assert_eq!(cfg.max_reconnect_attempts, 3);
    assert_eq!(cfg.retry_interval, Duration::from_secs(1));
    assert!(cfg.enable_redirection);
    assert!(!cfg.enable_rpc_compression);
    assert!(!cfg.use_ssl);
    assert!(cfg.ca_cert_path.is_none());
    assert!(!cfg.accept_invalid_certs);
    assert!(cfg.domain_override.is_none());
    assert!(cfg.client_cert_path.is_none());
    assert!(cfg.client_key_path.is_none());
    assert_eq!(cfg.zone_id, "UTC+8");
    assert_eq!(cfg.socket_timeout, Some(Duration::from_secs(60)));
}

#[test]
fn connection_options_from_config() {
    let cfg = SessionConfig::default();
    let options = cfg.connection_options();
    assert_eq!(options.connect_timeout, cfg.connect_timeout);
    assert_eq!(options.protocol, RpcProtocol::Binary);
    assert!(options.tls.is_none());

    let cfg = SessionConfig {
        enable_rpc_compression: true,
        ..Default::default()
    };
    assert_eq!(cfg.connection_options().protocol, RpcProtocol::Compact);

    let cfg = SessionConfig {
        use_ssl: true,
        ca_cert_path: Some("/certs/ca.pem".into()),
        accept_invalid_certs: true,
        domain_override: Some("iotdb.internal".into()),
        client_cert_path: Some("/certs/client.pem".into()),
        client_key_path: Some("/certs/client-key.pem".into()),
        ..Default::default()
    };
    let tls = cfg.connection_options().tls.expect("tls options");
    assert_eq!(tls.ca_cert_path.as_deref(), Some("/certs/ca.pem"));
    assert!(tls.accept_invalid_certs);
    assert_eq!(tls.domain_override.as_deref(), Some("iotdb.internal"));
    assert_eq!(tls.client_cert_path.as_deref(), Some("/certs/client.pem"));
    assert_eq!(
        tls.client_key_path.as_deref(),
        Some("/certs/client-key.pem")
    );

    // Protocol × TLS are independent axes: every combination maps
    // through, ConnectionOptions carries both.
    for (compression, ssl) in [(false, false), (false, true), (true, false), (true, true)] {
        let cfg = SessionConfig {
            enable_rpc_compression: compression,
            use_ssl: ssl,
            ..Default::default()
        };
        let options = cfg.connection_options();
        assert_eq!(
            options.protocol,
            if compression {
                RpcProtocol::Compact
            } else {
                RpcProtocol::Binary
            }
        );
        assert_eq!(options.tls.is_some(), ssl);
    }

    let cfg = SessionConfig {
        socket_timeout: Some(Duration::from_millis(300)),
        ..Default::default()
    };
    assert_eq!(
        cfg.connection_options().socket_timeout,
        Some(Duration::from_millis(300))
    );
}

#[test]
fn config_from_node_urls() {
    let cfg = SessionConfig::default()
        .with_node_urls(&["10.0.0.1:6667", "[::1]:6668"])
        .unwrap();
    assert_eq!(
        cfg.endpoints,
        vec![Endpoint::new("10.0.0.1", 6667), Endpoint::new("::1", 6668)]
    );
    assert!(SessionConfig::default()
        .with_node_urls(&["nohost"])
        .is_err());
}

#[test]
fn status_200_is_ok() {
    assert!(check_status(&status(200)).is_ok());
}

#[test]
fn status_400_redirect_is_success() {
    assert!(check_status(&status(400)).is_ok());
}

#[test]
fn status_302_all_sub_ok_is_success() {
    let mut s = status(302);
    s.sub_status = Some(vec![Box::new(status(200)), Box::new(status(400))]);
    assert!(check_status(&s).is_ok());
}

#[test]
fn status_302_mixed_sub_is_error() {
    let mut s = status(302);
    s.sub_status = Some(vec![Box::new(status(200)), Box::new(status(500))]);
    match check_status(&s) {
        Err(Error::Server { code, .. }) => assert_eq!(code, 500),
        other => panic!("expected server error, got {other:?}"),
    }
}

#[test]
fn status_500_is_error() {
    let mut s = status(500);
    s.message = Some("boom".into());
    match check_status(&s) {
        Err(Error::Server { code, message }) => {
            assert_eq!(code, 500);
            assert_eq!(message, "boom");
        }
        other => panic!("expected server error, got {other:?}"),
    }
}

#[test]
fn nested_batches_are_looked_into() {
    assert_eq!(status_code::SUCCESS_STATUS, 200);
    assert_eq!(status_code::MULTIPLE_ERROR, 302);
    assert_eq!(status_code::REDIRECTION_RECOMMEND, 400);
    assert!(check_status(&status(302)).is_ok());
    let mut inner = status(302);
    inner.message = Some("inner".into());
    inner.sub_status = Some(vec![Box::new(status(507))]);
    let mut s = status(302);
    s.message = Some("outer".into());
    s.sub_status = Some(vec![Box::new(status(200)), Box::new(inner)]);
    // The failing sub-status reports itself, batch or not.
    match check_status(&s) {
        Err(Error::Server { code, message }) => {
            assert_eq!(code, 302);
            assert_eq!(message, "inner");
        }
        other => panic!("expected server error, got {other:?}"),
    }
    // A success with failed sub-statuses is a success.
    let mut s = status(200);
    s.sub_status = Some(vec![Box::new(status(500))]);
    assert!(check_status(&s).is_ok());
}

#[test]
fn calls_on_closed_session_fail() {
    let mut session: TestSession = Session::new(SessionConfig::default());
    assert!(!session.is_open());
    assert!(session.execute_non_query("SHOW DATABASES").is_err());
    assert!(session.execute_query("SELECT 1").is_err());
    assert!(session.close().is_ok()); // close on never-opened is fine
    assert!(session.connection_mut().is_err());
    assert!(session.close_query(7).is_none());
}

#[test]
fn record_arity_is_validated() {
    assert!(check_record_arity(&["s1".into()], &[Value::Int32(1)]).is_ok());
    assert!(check_record_arity(&["s1".into(), "s2".into()], &[Value::Int32(1)]).is_err());
    // Validation fires before any connection use — errors on a closed
    // session must be the arity error, not "session is not open".
    let session: TestSession = Session::new(SessionConfig::default());
    let err = session
        .insert_record("root.sg.d1", 1, vec!["s1".into()], &[], false)
        .unwrap_err();
    assert!(matches!(err, Error::Client(m) if m.contains("0 values for 1 measurements")));
}

#[test]
fn null_cells_are_filtered_with_their_measurements() {
    let (m, v) = filter_null_cells(
        vec!["a".into(), "b".into(), "c".into()],
        &[Value::Int32(1), Value::Null, Value::Boolean(true)],
    );
    assert_eq!(m, ["a", "c"]);
    assert_eq!(v, [Value::Int32(1), Value::Boolean(true)]);

    // No nulls: passthrough.
    let (m, v) = filter_null_cells(vec!["a".into()], &[Value::Int32(1)]);
    assert_eq!(m, ["a"]);
    assert_eq!(v, [Value::Int32(1)]);

    // All-null rows are rejected before touching the connection.
    let session: TestSession = Session::new(SessionConfig::default());
    let err = session
        .insert_record("root.sg.d1", 1, vec!["s1".into()], &[Value::Null], false)
        .unwrap_err();
    assert!(matches!(err, Error::Client(m) if m.contains("all insert values are null")));
    let err = session
        .insert_records_of_one_device(
            "root.sg.d1",
            vec![1],
            vec![vec!["s1".into()]],
            &[vec![Value::Null]],
            false,
        )
        .unwrap_err();
    assert!(matches!(err, Error::Client(m) if m.contains("all insert values are null")));
}

#[test]
fn one_device_rows_are_sorted_by_timestamp() {
    let rows = [
        vec![Value::Int32(30)],
        vec![Value::Int32(10)],
        vec![Value::Int32(20)],
    ];
    let (ts, ms, bufs) = sort_one_device_rows(
        vec![3, 1, 2],
        vec![vec!["a".into()], vec!["b".into()], vec!["c".into()]],
        &rows,
    );
    assert_eq!(ts, [1, 2, 3]);
    assert_eq!(
        ms,
        [vec!["b".to_string()], vec!["c".into()], vec!["a".into()]]
    );
    assert_eq!(
        bufs,
        [
            serialize_record_values(&[Value::Int32(10)]),
            serialize_record_values(&[Value::Int32(20)]),
            serialize_record_values(&[Value::Int32(30)]),
        ]
    );

    // Already-sorted input passes through unchanged (fast path), and the
    // sort is stable for equal timestamps.
    let (ts, ms, _) = sort_one_device_rows(
        vec![5, 5],
        vec![vec!["first".into()], vec!["second".into()]],
        &[vec![Value::Int32(1)], vec![Value::Int32(2)]],
    );
    assert_eq!(ts, [5, 5]);
    assert_eq!(ms, [vec!["first".to_string()], vec!["second".into()]]);
}

#[test]
fn insert_tablets_request_assembly() {
    let mut t1 = Tablet::new(
        "root.sg.d1",
        vec!["i".into(), "s".into()],
        vec![TSDataType::Int32, TSDataType::Text],
    )
    .unwrap();
    // Unsorted rows + a null: serialization must sort and bitmap.
    t1.add_row(2, vec![Some(Value::Int32(20)), None]).unwrap();
    t1.add_row(1, vec![None, Some(Value::Text("a".into()))])
        .unwrap();
    let mut t2 =
        Tablet::new("root.sg.d2", vec!["b".into()], vec![TSDataType::Boolean]).unwrap();
    t2.add_row(5, vec![Some(Value::Boolean(true))]).unwrap();

    let req = build_insert_tablets_req(7, &[t1.clone(), t2.clone()], false).unwrap();
    assert_eq!(req.session_id, 7);
    assert_eq!(req.prefix_paths, ["root.sg.d1", "root.sg.d2"]);
    assert_eq!(
        req.measurements_list,
        [vec!["i".to_string(), "s".into()], vec!["b".into()]]
    );
    assert_eq!(req.types_list, [vec![1, 5], vec![0]]); // Int32+Text, Boolean
    assert_eq!(req.size_list, [2, 1]);
    assert_eq!(req.is_aligned, Some(false));
    // Byte-identical to the single-tablet serialization helpers.
    assert_eq!(
        req.values_list,
        [t1.serialize_values(), t2.serialize_values()]
    );
    assert_eq!(
        req.timestamps_list,
        [t1.serialize_timestamps(), t2.serialize_timestamps()]
    );
    // Known bytes for t1 after sorting (ts 1 first): int col null@row0,
    // text col null@row1.
    assert_eq!(
        req.values_list[0],
        [
            0x80, 0x00, 0x00, 0x00, // i row0: null placeholder (i32::MIN)
            0x00, 0x00, 0x00, 0x14, // i row1: 20
            0x00, 0x00, 0x00, 0x01, b'a', // s row0: "a"
            0x00, 0x00, 0x00, 0x00, // s row1: null placeholder (empty)
            0x01, 0x01, // i bitmap: flag + row 0 null (LSB-first)
            0x01, 0x02, // s bitmap: flag + row 1 null
        ]
    );
    assert_eq!(
        req.timestamps_list[0],
        [0, 0, 0, 0, 0, 0, 0, 1, 0, 0, 0, 0, 0, 0, 0, 2]
    );

    // The batch flag is a single RPC-level field.
    let req = build_insert_tablets_req(7, &[t2], true).unwrap();
    assert_eq!(req.is_aligned, Some(true));
}

#[test]
fn insert_tablets_rejects_empty_and_table_model() {
    let err = build_insert_tablets_req(1, &[], false).unwrap_err();
    assert!(matches!(err, Error::Client(m) if m.contains("no tablets")));

    let tree = Tablet::new("root.sg.d1", vec!["s".into()], vec![TSDataType::Int32]).unwrap();
    let table = Tablet::new_table(
        "sensors",
        vec!["f1".into()],
        vec![TSDataType::Double],
        vec![ColumnCategory::Field],
    )
    .unwrap();
    // A table-model tablet anywhere in the batch fails the whole call.
    let err = build_insert_tablets_req(1, &[tree, table], false).unwrap_err();
    assert!(matches!(err, Error::Client(m) if m
        == "insert_tablets is tree-model only; tablet for table \"sensors\" must go through insert_tablet"));

    // The errors fire before any connection use.
    let session: TestSession = Session::new(SessionConfig::default());
    let err = session.insert_tablets(&[], false).unwrap_err();
    assert!(matches!(err, Error::Client(m) if m.contains("no tablets")));
}

#[test]
fn insert_records_length_mismatch_is_client_error() {
    let session: TestSession = Session::new(SessionConfig::default());
    let err = session
        .insert_records(
            vec!["root.sg.d1".into(), "root.sg.d2".into()],
            vec![1], // 2 devices but 1 timestamp
            vec![vec!["s1".into()], vec!["s1".into()]],
            &[vec![Value::Int32(1)], vec![Value::Int32(2)]],
            false,
        )
        .unwrap_err();
    assert!(matches!(err, Error::Client(m) if m.contains("length mismatch")));

    let err = session
        .insert_records_of_one_device(
            "root.sg.d1",
            vec![1, 2],
            vec![vec!["s1".into()]], // 2 timestamps but 1 measurement list
            &[vec![Value::Int32(1)]],
            false,
        )
        .unwrap_err();
    assert!(matches!(err, Error::Client(m) if m.contains("length mismatch")));
}

#[test]
fn insert_status_records_redirect_hint() {
    let mut session: TestSession = Session::new(SessionConfig::default());
    let mut s = status(400);
    s.redirect_node = Some(TEndPoint::new("10.1.1.1".to_string(), 6667));
    // Status 400 is still a successful write…
    assert!(session.check_insert_status(&["root.sg.d1"], &s).is_ok());
    // …and its redirect node is now cached for the device.
    assert_eq!(
        session.redirect_hint("root.sg.d1"),
        Some(Endpoint::new("10.1.1.1", 6667))
    );
    assert_eq!(session.redirect_hint("root.sg.other"), None);
    assert_eq!(session.redirect_cache_stats().size, 1);
    session.clear_redirect_cache();
    assert_eq!(session.redirect_hint("root.sg.d1"), None);

    // With redirection disabled nothing is recorded (but 400 still OK).
    let mut session: TestSession = Session::new(SessionConfig {
        enable_redirection: false,
        ..Default::default()
    });
    assert!(session.check_insert_status(&["root.sg.d1"], &s).is_ok());
    assert_eq!(session.redirect_hint("root.sg.d1"), None);
}

/// A transport-level RPC failure with auto-reconnect enabled must drive
/// `max_reconnect_attempts` full reconnect passes and, when they all fail,
/// surface the **original** error.
#[test]
fn transport_failure_reconnects_then_surfaces_original_error() {
    let endpoint = Endpoint::new("127.0.0.1", 6667);
    let mut session = opened(
        SessionConfig {
            endpoints: vec![endpoint.clone()],
            connect_timeout: Duration::from_millis(500),
            max_reconnect_attempts: 2,
            retry_interval: Duration::from_millis(10),
            ..Default::default()
        },
        endpoint.clone(),
    );
    assert_eq!(session.current_endpoint(), Some(&endpoint));

    let failed: Result<(), Error> = Err(thrift_error());
    let original = match session.after_attempt(failed) {
        AfterAttempt::Reconnect(e) => e,
        other => panic!("expected a reconnect, got {other:?}"),
    };
    let mut walk = session.reconnect().unwrap();
    let mut tries = 0;
    let mut pauses = 0;
    let last = loop {
        match walk.next_step() {
            WalkStep::Try(e) => {
                assert_eq!(e, endpoint);
                tries += 1;
                walk.failed(Error::Client(format!("try {tries}")));
            }
            WalkStep::Pause(d) => {
                assert_eq!(d, Duration::from_millis(10));
                pauses += 1;
            }
            WalkStep::GiveUp(e) => break e,
        }
    };
    // 2 reconnect passes × 1 endpoint, with one pause between them.
    assert_eq!(tries, 2);
    assert_eq!(pauses, 1);
    assert!(matches!(&last, Error::Client(m) if m == "try 2"));
    match TestSession::after_reconnect(original, Err(last)) {
        AfterReconnect::Fail(err) => assert!(matches!(err, Error::Thrift(_)), "got {err:?}"),
        other => panic!("expected the original error, got {other:?}"),
    }
    // The failed reconnect left the session without a connection.
    assert!(!session.is_open());
}

/// With auto-reconnect disabled the op fails once: original error surfaced
/// directly.
#[test]
fn no_reconnect_when_disabled() {
    let endpoint = Endpoint::new("127.0.0.1", 6667);
    let session = opened(
        SessionConfig {
            endpoints: vec![endpoint.clone()],
            connect_timeout: Duration::from_millis(500),
            enable_auto_reconnect: false,
            ..Default::default()
        },
        endpoint,
    );
    let failed: Result<(), Error> = Err(thrift_error());
    match session.after_attempt(failed) {
        AfterAttempt::Finish(Err(err)) => assert!(matches!(err, Error::Thrift(_)), "got {err:?}"),
        other => panic!("expected the error itself, got {other:?}"),
    }
}

#[test]
fn open_without_endpoints_fails() {
    let session: TestSession = Session::new(SessionConfig {
        endpoints: vec![],
        ..Default::default()
    });
    assert!(session.open(0).is_err());
    assert!(!session.is_open());
}

#[test]
fn only_transport_errors_are_retried() {
    let session = opened(SessionConfig::default(), Endpoint::new("h", 1));
    assert!(matches!(
        session.after_attempt(Ok::<i32, Error>(5)),
        AfterAttempt::Finish(Ok(5))
    ));
    let server: Result<(), Error> = Err(Error::Server { code: 1, message: "m".into() });
    assert!(matches!(
        session.after_attempt(server),
        AfterAttempt::Finish(Err(Error::Server { code: 1, .. }))
    ));
    let closed: TestSession = Session::new(SessionConfig::default());
    let failed: Result<(), Error> = Err(thrift_error());
    assert!(matches!(
        closed.after_attempt(failed),
        AfterAttempt::Finish(Err(Error::Thrift(_)))
    ));
    assert!(matches!(
        TestSession::after_reconnect(thrift_error(), Ok(())),
        AfterReconnect::TryAgain
    ));
}

fn three_nodes() -> SessionConfig {
    SessionConfig {
        endpoints: vec![Endpoint::new("a", 1), Endpoint::new("b", 2), Endpoint::new("c", 3)],
        ..Default::default()
    }
}

#[test]
fn opening_walks_the_endpoints_once_from_the_start_index() {
    let session: TestSession = Session::new(three_nodes());
    let mut walk = session.open(7).unwrap(); // 7 % 3 = 1
    let mut hosts = Vec::new();
    loop {
        match walk.next_step() {
            WalkStep::Try(e) => {
                hosts.push(e.host);
                walk.failed(thrift_error());
            }
            WalkStep::Pause(_) => panic!("no pause within one pass"),
            WalkStep::GiveUp(e) => {
                assert!(matches!(e, Error::Thrift(_)));
                break;
            }
        }
    }
    assert_eq!(hosts, ["b", "c", "a"]);
    let open = opened(three_nodes(), Endpoint::new("a", 1));
    assert!(matches!(
        open.open(0),
        Err(Error::Client(m)) if m == "session already open"
    ));
}

#[test]
fn reconnecting_begins_where_the_connection_was_lost() {
    let mut session = opened(three_nodes(), Endpoint::new("c", 3));
    session.mark_pooled();
    let mut walk = session.reconnect().unwrap();
    let mut hosts = Vec::new();
    loop {
        match walk.next_step() {
            WalkStep::Try(e) => hosts.push(e.host),
            WalkStep::Pause(_) => panic!("pooled sessions do not pause"),
            WalkStep::GiveUp(e) => {
                assert!(matches!(e, Error::Client(m) if m == "reconnect failed"));
                break;
            }
        }
    }
    assert_eq!(hosts, ["c", "a", "b", "c", "a", "b", "c", "a", "b"]);

    // An endpoint that is not configured (any more): from the first.
    let mut session = opened(
        SessionConfig { max_reconnect_attempts: 0, ..three_nodes() },
        Endpoint::new("z", 9),
    );
    let mut walk = session.reconnect().unwrap();
    let mut tries = 0;
    while let WalkStep::Try(e) = walk.next_step() {
        if tries == 0 {
            assert_eq!(e, Endpoint::new("a", 1));
        }
        tries += 1;
    }
    assert_eq!(tries, 3); // at least one pass
    let mut none = opened(SessionConfig { endpoints: vec![], ..Default::default() }, Endpoint::new("z", 9));
    assert!(none.reconnect().is_err());
    assert!(!none.is_open());
}

#[test]
fn handshakes_carry_dialect_and_database() {
    let mut session: TestSession = Session::new(SessionConfig::default());
    let req = session.open_session_req();
    assert_eq!(req.client_protocol, 2);
    assert_eq!(req.username, "root");
    assert_eq!(req.zone_id, "UTC+8");
    assert_eq!(req.configuration, [("sql_dialect".to_string(), "tree".to_string())]);
    // A database selected by USE comes back on the next handshake.
    let mut resp = statement_resp(200);
    resp.database = Some("db1".into());
    session.finish_non_query(resp).unwrap();
    assert_eq!(session.database(), Some("db1"));
    assert_eq!(
        session.open_session_req().configuration,
        [
            ("db".to_string(), "db1".to_string()),
            ("sql_dialect".to_string(), "tree".to_string())
        ]
    );
    let mut granted = TSOpenSessionResp {
        status: status(200),
        server_protocol_version: 2,
        session_id: Some(5),
    };
    assert_eq!(TestSession::session_id_granted(&granted).unwrap(), 5);
    granted.session_id = None;
    assert!(matches!(
        TestSession::session_id_granted(&granted),
        Err(Error::Client(m)) if m.contains("missing sessionId")
    ));
    granted.status = status(801);
    assert!(matches!(
        TestSession::session_id_granted(&granted),
        Err(Error::Server { code: 801, .. })
    ));
}

#[test]
fn statements_carry_the_session_ids() {
    let mut session: TestSession = Session::new(SessionConfig {
        fetch_size: 10,
        query_timeout_ms: 99,
        ..Default::default()
    });
    session.opened(Connection::new(Endpoint::new("h", 1), RpcProtocol::Binary, ()), 11, 12);
    let req = session.execute_query("SELECT 1").unwrap();
    assert_eq!(req.session_id, 11);
    assert_eq!(req.statement_id, 12);
    assert_eq!(req.statement, "SELECT 1");
    assert_eq!(req.fetch_size, 10);
    assert_eq!(req.timeout, 99);
    assert!(req.enable_redirect_query);
    assert!(!req.jdbc_query);
    let req = session.fetch_results(77, "SELECT 1").unwrap();
    assert_eq!((req.session_id, req.query_id, req.statement_id), (11, 77, 12));
    assert!(req.is_align);
    assert_eq!((req.fetch_size, req.timeout), (10, 99));
    let req = session.close_query(77).unwrap();
    assert_eq!((req.session_id, req.query_id, req.statement_id), (11, 77, 12));
    assert_eq!(session.config().fetch_size, 10);
}

#[test]
fn query_answers_become_handles() {
    let mut resp = statement_resp(200);
    assert!(matches!(
        TestSession::execute_query_raw("q", resp),
        Err(Error::Client(m)) if m == "query response missing queryId"
    ));
    resp = statement_resp(500);
    assert!(matches!(
        TestSession::execute_query_raw("q", resp),
        Err(Error::Server { code: 500, .. })
    ));
    resp = statement_resp(200);
    resp.query_id = Some(3);
    let h = TestSession::execute_query_raw("q", resp).unwrap();
    assert_eq!((h.query_id, h.statement.as_str()), (3, "q"));
    assert!(h.columns.is_empty() && h.data_type_list.is_empty() && h.query_result.is_empty());
    assert!(!h.ignore_time_stamp && !h.more_data);
    assert_eq!(h.column_index2_ts_block_column_index_list, None);
    resp = statement_resp(200);
    resp.query_id = Some(3);
    resp.columns = Some(vec!["c".into()]);
    resp.ignore_time_stamp = Some(true);
    resp.query_result = Some(vec![vec![1]]);
    resp.more_data = Some(true);
    resp.column_index2_ts_block_column_index_list = Some(vec![-1]);
    let h = TestSession::execute_query_raw("q", resp).unwrap();
    assert_eq!(h.columns, ["c"]);
    assert!(h.ignore_time_stamp && h.more_data);
    assert_eq!(h.query_result, [vec![1]]);
    assert_eq!(h.column_index2_ts_block_column_index_list, Some(vec![-1]));
}

#[test]
fn fetched_pages() {
    let resp = |code, has, result, more| TSFetchResultsResp {
        status: status(code),
        has_result_set: has,
        query_result: result,
        more_data: more,
    };
    assert_eq!(
        TestSession::fetched_page(resp(200, true, Some(vec![vec![1]]), Some(true))).unwrap(),
        (vec![vec![1]], true)
    );
    assert_eq!(
        TestSession::fetched_page(resp(200, true, None, None)).unwrap(),
        (vec![], false)
    );
    assert_eq!(
        TestSession::fetched_page(resp(200, false, Some(vec![vec![1]]), Some(true))).unwrap(),
        (vec![], false)
    );
    assert!(TestSession::fetched_page(resp(500, true, None, None)).is_err());
}

#[test]
fn failed_statements_change_nothing() {
    let mut session: TestSession = Session::new(SessionConfig {
        database: Some("db0".into()),
        ..Default::default()
    });
    let mut resp = statement_resp(500);
    resp.database = Some("db1".into());
    assert!(session.finish_non_query(resp).is_err());
    assert_eq!(session.database(), Some("db0"));
    session.finish_non_query(statement_resp(200)).unwrap();
    assert_eq!(session.database(), Some("db0"));
}

#[test]
fn records_drop_nulls_and_empty_rows() {
    let session = opened(SessionConfig::default(), Endpoint::new("h", 1));
    let req = session
        .insert_records(
            vec!["d1".into(), "d2".into(), "d3".into()],
            vec![30, 20, 10],
            vec![
                vec!["a".into(), "b".into()],
                vec!["a".into()],
                vec!["a".into(), "b".into()],
            ],
            &[
                vec![Value::Null, Value::Int32(1)],
                vec![Value::Null],
                vec![Value::Boolean(true), Value::Null],
            ],
            true,
        )
        .unwrap();
    assert_eq!(req.devices(), ["d1", "d3"]);
    match req {
        InsertRequest::Records(r) => {
            assert_eq!(r.session_id, 1);
            assert_eq!(r.prefix_paths, ["d1", "d3"]);
            assert_eq!(r.timestamps, [30, 10]); // multi-device batches are not sorted
            assert_eq!(r.measurements_list, [vec!["b".to_string()], vec!["a".into()]]);
            assert_eq!(r.values_list, [vec![1, 0, 0, 0, 1], vec![0, 1]]);
            assert_eq!(r.is_aligned, Some(true));
        }
        other => panic!("unexpected {other:?}"),
    }
    let req = session
        .insert_records_of_one_device(
            "d",
            vec![30, 20, 10],
            vec![vec!["a".into()], vec!["b".into()], vec!["c".into()]],
            &[vec![Value::Int32(3)], vec![Value::Null], vec![Value::Int32(1)]],
            false,
        )
        .unwrap();
    assert_eq!(req.devices(), ["d"]);
    match req {
        InsertRequest::RecordsOfOneDevice(r) => {
            assert_eq!(r.timestamps, [10, 30]);
            assert_eq!(r.measurements_list, [vec!["c".to_string()], vec!["a".into()]]);
            assert_eq!(r.values_list, [vec![1, 0, 0, 0, 1], vec![1, 0, 0, 0, 3]]);
        }
        other => panic!("unexpected {other:?}"),
    }
    // The first row with a wrong arity is reported, before later ones.
    assert!(matches!(
        session.insert_records(
            vec!["d1".into(), "d2".into()],
            vec![1, 2],
            vec![vec![], vec!["a".into()]],
            &[vec![Value::Int32(1), Value::Int32(2)], vec![]],
            false,
        ),
        Err(Error::Client(m)) if m == "record has 2 values for 0 measurements"
    ));
    let all_null = session.insert_records(
        vec!["d1".into()],
        vec![1],
        vec![vec!["a".into()]],
        &[vec![Value::Null]],
        false,
    );
    assert!(matches!(all_null, Err(Error::Client(m)) if m == "all insert values are null"));
}

#[test]
fn mismatch_complaints_count_the_lists() {
    let session = opened(SessionConfig::default(), Endpoint::new("h", 1));
    let err = session
        .insert_records(vec!["d".into()], vec![1, 2], vec![], &[vec![], vec![], vec![]], false)
        .unwrap_err();
    assert!(matches!(err, Error::Client(m) if m
        == "insert_records length mismatch: 1 devices, 2 timestamps, 0 measurement lists, 3 value lists"));
    let err = session
        .insert_records_of_one_device("d", vec![1], vec![], &[], false)
        .unwrap_err();
    assert!(matches!(err, Error::Client(m) if m
        == "insert_records_of_one_device length mismatch: 1 timestamps, 0 measurement lists, 0 value lists"));
}

#[test]
fn aligned_inserts_set_the_flag() {
    let session = opened(SessionConfig::default(), Endpoint::new("h", 1));
    match session
        .insert_aligned_record("d", 5, vec!["a".into()], &[Value::Int32(1)])
        .unwrap()
    {
        InsertRequest::Record(r) => {
            assert_eq!(r.is_aligned, Some(true));
            assert_eq!(r.timestamp, 5);
            assert_eq!(r.prefix_path, "d");
            assert_eq!(r.measurements, ["a"]);
            assert_eq!(r.values, [1, 0, 0, 0, 1]);
        }
        other => panic!("unexpected {other:?}"),
    }
    match session
        .insert_aligned_records(
            vec!["d".into()],
            vec![1],
            vec![vec!["a".into()]],
            &[vec![Value::Int32(1)]],
        )
        .unwrap()
    {
        InsertRequest::Records(r) => assert_eq!(r.is_aligned, Some(true)),
        other => panic!("unexpected {other:?}"),
    }
    match session
        .insert_aligned_records_of_one_device(
            "d",
            vec![1],
            vec![vec!["a".into()]],
            &[vec![Value::Int32(1)]],
        )
        .unwrap()
    {
        InsertRequest::RecordsOfOneDevice(r) => assert_eq!(r.is_aligned, Some(true)),
        other => panic!("unexpected {other:?}"),
    }
    let t = Tablet::new("d", vec!["a".into()], vec![TSDataType::Int32]).unwrap();
    match session.insert_aligned_tablets(&[t]).unwrap() {
        InsertRequest::Tablets(r) => assert_eq!(r.is_aligned, Some(true)),
        other => panic!("unexpected {other:?}"),
    }
}

#[test]
fn tablets_are_inserted_without_being_touched() {
    let session = opened(SessionConfig::default(), Endpoint::new("h", 1));
    let mut t = Tablet::new_aligned("d", vec!["a".into()], vec![TSDataType::Int32]).unwrap();
    t.add_row(2, vec![Some(Value::Int32(20))]).unwrap();
    t.add_row(1, vec![Some(Value::Int32(10))]).unwrap();
    match session.insert_tablet(&t).unwrap() {
        InsertRequest::Tablet(r) => {
            assert_eq!(r.values, [0, 0, 0, 10, 0, 0, 0, 20, 0]);
            assert_eq!(r.size, 2);
            assert_eq!(r.is_aligned, Some(true));
            assert_eq!(r.write_to_table, None);
            assert_eq!(r.column_categories, None);
        }
        other => panic!("unexpected {other:?}"),
    }
    assert_eq!(t.timestamps(), &[2, 1]);
}

#[test]
fn raw_tablets_pass_through() {
    let session = opened(SessionConfig::default(), Endpoint::new("h", 1));
    match session
        .insert_tablet_raw(
            "d",
            vec!["a".into()],
            vec![1],
            vec![9],
            vec![8],
            3,
            true,
            Some(true),
            Some(vec![1]),
        )
        .unwrap()
    {
        InsertRequest::Tablet(r) => {
            assert_eq!((r.session_id, r.size), (1, 3));
            assert_eq!((r.values, r.timestamps), (vec![9], vec![8]));
            assert_eq!((r.is_aligned, r.write_to_table), (Some(true), Some(true)));
            assert_eq!(r.column_categories, Some(vec![1i8]));
        }
        other => panic!("unexpected {other:?}"),
    }
}

#[test]
fn retried_inserts_are_readdressed() {
    let mut session = opened(SessionConfig::default(), Endpoint::new("h", 1));
    let mut req = session
        .insert_record("d", 5, vec!["a".into()], &[Value::Int32(1)], false)
        .unwrap();
    req.set_session_id(99);
    match &req {
        InsertRequest::Record(r) => assert_eq!((r.session_id, r.timestamp), (99, 5)),
        other => panic!("unexpected {other:?}"),
    }
    let mut s = status(400);
    s.redirect_node = Some(TEndPoint::new("10.1.1.1".to_string(), 6667));
    session.finish_insert(&req, &s).unwrap();
    assert_eq!(session.redirect_hint("d"), Some(Endpoint::new("10.1.1.1", 6667)));
    assert!(session.finish_insert(&req, &status(500)).is_err());
}
