//! Table-model sessions.

use iotdb_client::connection::{Connection, RpcProtocol};
use iotdb_client::client::session::InsertRequest;
use iotdb_client::time::Duration;
use iotdb_client::{
    ColumnCategory, Endpoint, Error, TSDataType, TableSession, TableSessionBuilder, Tablet, Value,
};

#[test]
fn builder_defaults_to_table_dialect() {
    let b = TableSessionBuilder::new()
        .node_urls(&["10.0.0.1:6667"])
        .unwrap()
        .username("u")
        .password("p")
        .database("db1")
        .fetch_size(500)
        .zone_id("UTC")
        .connect_timeout(Duration::from_secs(3))
        .query_timeout_ms(1_000);
    let cfg = b.config();
    assert_eq!(cfg.sql_dialect, "table");
    assert_eq!(cfg.endpoints, vec![Endpoint::new("10.0.0.1", 6667)]);
    assert_eq!(cfg.username, "u");
    assert_eq!(cfg.password, "p");
    assert_eq!(cfg.database.as_deref(), Some("db1"));
    assert_eq!(cfg.fetch_size, 500);
    assert_eq!(cfg.zone_id, "UTC");
    assert_eq!(cfg.connect_timeout, Duration::from_secs(3));
    assert_eq!(cfg.query_timeout_ms, 1_000);
}

#[test]
fn builder_passes_transport_options_through() {
    let b = TableSessionBuilder::new().enable_rpc_compression(true);
    assert!(b.config().enable_rpc_compression);

    let b = TableSessionBuilder::new()
        .use_ssl(true)
        .ca_cert_path("/certs/ca.pem")
        .accept_invalid_certs(true)
        .domain_override("iotdb.internal")
        .client_cert_path("/certs/client.pem")
        .client_key_path("/certs/client-key.pem");
    let cfg = b.config();
    assert!(cfg.use_ssl);
    assert_eq!(cfg.ca_cert_path.as_deref(), Some("/certs/ca.pem"));
    assert!(cfg.accept_invalid_certs);
    assert_eq!(cfg.domain_override.as_deref(), Some("iotdb.internal"));
    assert_eq!(cfg.client_cert_path.as_deref(), Some("/certs/client.pem"));
    assert_eq!(cfg.client_key_path.as_deref(), Some("/certs/client-key.pem"));
}

#[test]
fn insert_rejects_tree_model_tablets() {
    let session: TableSession<()> = TableSessionBuilder::new().build();
    let tablet = Tablet::new("root.sg.d1", vec!["s1".into()], vec![TSDataType::Int32]).unwrap();
    match session.insert(&tablet) {
        Err(Error::Client(msg)) => assert!(msg.contains("table-model")),
        other => panic!("expected client error, got {other:?}"),
    }
}

#[test]
fn endpoints_can_be_given_whole() {
    let b = TableSession::<()>::builder().endpoints(vec![Endpoint::new("h", 1)]);
    assert_eq!(b.config().endpoints, vec![Endpoint::new("h", 1)]);
    assert!(TableSessionBuilder::default().node_urls(&["h:1", "nope"]).is_err());
}

#[test]
fn table_tablets_are_sent_with_their_categories() {
    let mut session: TableSession<()> = TableSessionBuilder::new().database("db1").build();
    assert_eq!(session.database(), Some("db1"));
    assert!(!session.is_open());
    let mut tablet = Tablet::new_table(
        "sensors",
        vec!["tag".into(), "f".into()],
        vec![TSDataType::String, TSDataType::Int32],
        vec![ColumnCategory::Tag, ColumnCategory::Field],
    )
    .unwrap();
    tablet
        .add_row(1, vec![Some(Value::String("a".into())), Some(Value::Int32(5))])
        .unwrap();
    assert!(matches!(
        session.insert(&tablet),
        Err(Error::Client(m)) if m == "session is not open"
    ));
    let connection = Connection::new(Endpoint::new("h", 1), RpcProtocol::Binary, ());
    session.session_mut().opened(connection, 42, 43);
    assert!(session.is_open());
    match session.insert(&tablet).unwrap() {
        InsertRequest::Tablet(req) => {
            assert_eq!(req.session_id, 42);
            assert_eq!(req.prefix_path, "sensors");
            assert_eq!(req.types, [11, 1]);
            assert_eq!(req.write_to_table, Some(true));
            assert_eq!(req.column_categories, Some(vec![0i8, 1]));
            assert_eq!(req.is_aligned, Some(false));
            assert_eq!(req.size, 1);
            assert_eq!(req.values, [0, 0, 0, 1, b'a', 0, 0, 0, 5, 0, 0]);
        }
        other => panic!("expected a tablet request, got {other:?}"),
    }
    assert_eq!(session.execute_query("q").unwrap().statement_id, 43);
    assert_eq!(session.execute_non_query("s").unwrap().statement, "s");
    assert_eq!(session.session().session_id(), 42);
    let (connection, req) = session.close().unwrap().unwrap();
    assert_eq!(connection.endpoint(), &Endpoint::new("h", 1));
    assert_eq!(req.session_id, 42);
    assert!(!session.is_open());
}
