//! Table-model (relational) session — a thin wrapper over [`Session`] with
//! `sql_dialect="table"` enforced at open time.

use vstd::prelude::*;
use vstd::string::*;

use crate::client::redirect::str_texts;
use crate::client::session::config::{
    default_session_config, endpoints_of, endpoints_view, SessionConfigView,
};
use crate::client::session::inserts::inserts_tablet;
use crate::client::session::{
    asks_statement, InsertRequest, Session, SessionConfig, SessionView,
};
use crate::connection::{Connection, Endpoint};
use crate::data::Tablet;
use crate::error::{Error, ErrorView, Result};
use crate::protocol::{TSCloseSessionReq, TSExecuteStatementReq};
use crate::time::Duration;

verus! {

/// Builder for [`TableSession`]. Defaults mirror [`SessionConfig`] except
/// the SQL dialect, which is always `"table"`.
#[derive(Debug)]
pub struct TableSessionBuilder {
    config: SessionConfig,
}

impl View for TableSessionBuilder {
    type V = SessionConfigView;

    closed spec fn view(&self) -> SessionConfigView {
        self.config@
    }
}

/// The configuration that a builder starts from.
pub open spec fn default_table_config() -> SessionConfigView {
    SessionConfigView { sql_dialect: "table"@, ..default_session_config() }
}

impl Default for TableSessionBuilder {
    fn default() -> (builder: TableSessionBuilder)
        ensures
            builder@ == default_table_config(),
    {
        let mut config = SessionConfig::default();
        config.sql_dialect = "table".to_owned();
        TableSessionBuilder { config }
    }
}

impl Clone for TableSessionBuilder {
    fn clone(&self) -> (copy: TableSessionBuilder)
        ensures
            copy@ == self@,
    {
        TableSessionBuilder { config: self.config.clone() }
    }
}

impl TableSessionBuilder {
    /// A builder in which nothing has been set.
    pub fn new() -> (builder: TableSessionBuilder)
        ensures
            builder@ == default_table_config(),
    {
        TableSessionBuilder::default()
    }

    /// Endpoints from `"host:port"` node-url strings.
    pub fn node_urls(self, node_urls: &[&str]) -> (builder: Result<TableSessionBuilder>)
        ensures
            match (builder, endpoints_of(str_texts(node_urls@), node_urls@.len())) {
                (Ok(b), Ok(endpoints)) => b@ == (SessionConfigView { endpoints, ..self@ }),
                (Err(e), Err(m)) => e@ == ErrorView::Client(m),
                _ => false,
            },
    {
        match self.config.with_node_urls(node_urls) {
            Ok(config) => Ok(TableSessionBuilder { config }),
            Err(e) => Err(e),
        }
    }

    /// The endpoints to connect to.
    pub fn endpoints(self, endpoints: Vec<Endpoint>) -> (builder: TableSessionBuilder)
        ensures
            builder@ == (SessionConfigView { endpoints: endpoints_view(endpoints@), ..self@ }),
    {
        let mut builder = self;
        builder.config.endpoints = endpoints;
        builder
    }

    /// The user to log in as.
    pub fn username(self, username: &str) -> (builder: TableSessionBuilder)
        ensures
            builder@ == (SessionConfigView { username: username@, ..self@ }),
    {
        let mut builder = self;
        builder.config.username = username.to_owned();
        builder
    }

    /// The user's password.
    pub fn password(self, password: &str) -> (builder: TableSessionBuilder)
        ensures
            builder@ == (SessionConfigView { password: password@, ..self@ }),
    {
        let mut builder = self;
        builder.config.password = password.to_owned();
        builder
    }

    /// Database to select at open time (sent as config key `"db"`).
    pub fn database(self, database: &str) -> (builder: TableSessionBuilder)
        ensures
            builder@ == (SessionConfigView { database: Some(database@), ..self@ }),
    {
        let mut builder = self;
        builder.config.database = Some(database.to_owned());
        builder
    }

    /// Rows per fetched page.
    pub fn fetch_size(self, fetch_size: i32) -> (builder: TableSessionBuilder)
        ensures
            builder@ == (SessionConfigView { fetch_size, ..self@ }),
    {
        let mut builder = self;
        builder.config.fetch_size = fetch_size;
        builder
    }

    /// The session's time zone.
    pub fn zone_id(self, zone_id: &str) -> (builder: TableSessionBuilder)
        ensures
            builder@ == (SessionConfigView { zone_id: zone_id@, ..self@ }),
    {
        let mut builder = self;
        builder.config.zone_id = zone_id.to_owned();
        builder
    }

    /// TCP connect timeout per endpoint attempt.
    pub fn connect_timeout(self, timeout: Duration) -> (builder: TableSessionBuilder)
        ensures
            builder@ == (SessionConfigView { connect_timeout: timeout, ..self@ }),
    {
        let mut builder = self;
        builder.config.connect_timeout = timeout;
        builder
    }

    /// Per-query server-side timeout in milliseconds.
    pub fn query_timeout_ms(self, timeout_ms: i64) -> (builder: TableSessionBuilder)
        ensures
            builder@ == (SessionConfigView { query_timeout_ms: timeout_ms, ..self@ }),
    {
        let mut builder = self;
        builder.config.query_timeout_ms = timeout_ms;
        builder
    }

    /// Speak TCompactProtocol ("RPC compression"). Must match the server's
    /// `dn_rpc_thrift_compression_enable` setting — see
    /// [`SessionConfig::enable_rpc_compression`].
    pub fn enable_rpc_compression(self, enable: bool) -> (builder: TableSessionBuilder)
        ensures
            builder@ == (SessionConfigView { enable_rpc_compression: enable, ..self@ }),
    {
        let mut builder = self;
        builder.config.enable_rpc_compression = enable;
        builder
    }

    /// Wrap connections in TLS.
    pub fn use_ssl(self, use_ssl: bool) -> (builder: TableSessionBuilder)
        ensures
            builder@ == (SessionConfigView { use_ssl, ..self@ }),
    {
        let mut builder = self;
        builder.config.use_ssl = use_ssl;
        builder
    }

    /// PEM certificate added as trusted root.
    pub fn ca_cert_path(self, path: &str) -> (builder: TableSessionBuilder)
        ensures
            builder@ == (SessionConfigView { ca_cert_path: Some(path@), ..self@ }),
    {
        let mut builder = self;
        builder.config.ca_cert_path = Some(path.to_owned());
        builder
    }

    /// Skip certificate verification — **dangerous** outside tests.
    pub fn accept_invalid_certs(self, accept: bool) -> (builder: TableSessionBuilder)
        ensures
            builder@ == (SessionConfigView { accept_invalid_certs: accept, ..self@ }),
    {
        let mut builder = self;
        builder.config.accept_invalid_certs = accept;
        builder
    }

    /// Hostname for SNI + certificate validation.
    pub fn domain_override(self, domain: &str) -> (builder: TableSessionBuilder)
        ensures
            builder@ == (SessionConfigView { domain_override: Some(domain@), ..self@ }),
    {
        let mut builder = self;
        builder.config.domain_override = Some(domain.to_owned());
        builder
    }

    /// PEM client certificate for mutual TLS; set together with
    /// [`client_key_path`](Self::client_key_path).
    pub fn client_cert_path(self, path: &str) -> (builder: TableSessionBuilder)
        ensures
            builder@ == (SessionConfigView { client_cert_path: Some(path@), ..self@ }),
    {
        let mut builder = self;
        builder.config.client_cert_path = Some(path.to_owned());
        builder
    }

    /// PEM PKCS#8 private key for the client certificate; set together with
    /// [`client_cert_path`](Self::client_cert_path).
    pub fn client_key_path(self, path: &str) -> (builder: TableSessionBuilder)
        ensures
            builder@ == (SessionConfigView { client_key_path: Some(path@), ..self@ }),
    {
        let mut builder = self;
        builder.config.client_key_path = Some(path.to_owned());
        builder
    }

    /// The [`SessionConfig`] this builder resolves to (dialect always
    /// `"table"`).
    pub fn config(&self) -> (config: &SessionConfig)
        ensures
            config@ == self@,
    {
        &self.config
    }

    /// The session with the configuration so far, not open yet.
    pub fn build<C>(self) -> (session: TableSession<C>)
        ensures
            session@.wf(),
            session@.config == (SessionConfigView { sql_dialect: "table"@, ..self@ }),
            session@.connection is None,
            session@.session_id == -1,
            session@.statement_id == -1,
            session@.database == self@.database,
            session@.last_endpoint is None,
            session@.redirects.hints.len() == 0,
            session@.redirects.ttl == 300_000_000_000,
            session@.redirects.max_entries == 1024,
            session@.redirects.seq == 0,
            !session@.pooled,
    {
        let mut config = self.config;
        config.sql_dialect = "table".to_owned();
        TableSession { session: Session::new(config) }
    }
}

/// A table-model (relational) session. All statements run in the `"table"`
/// SQL dialect; inserts require table-model tablets
/// ([`Tablet::new_table`]).
#[derive(Debug)]
pub struct TableSession<C> {
    session: Session<C>,
}

impl<C> View for TableSession<C> {
    type V = SessionView<C>;

    closed spec fn view(&self) -> SessionView<C> {
        self.session@
    }
}

impl<C> TableSession<C> {
    /// A builder in which nothing has been set.
    pub fn builder() -> (builder: TableSessionBuilder)
        ensures
            builder@ == default_table_config(),
    {
        TableSessionBuilder::new()
    }

    /// The session underneath.
    pub fn session(&self) -> (session: &Session<C>)
        ensures
            session@ == self@,
    {
        &self.session
    }

    /// The session underneath, for opening it and taking in answers.
    pub fn session_mut(&mut self) -> (session: &mut Session<C>)
        ensures
            session@ == old(self)@,
            final(self)@ == final(session)@,
    {
        &mut self.session
    }

    /// The database currently selected on this session, if any — tracked
    /// from the open-time `"db"` config key and `USE <db>` responses.
    pub fn database(&self) -> (database: Option<&str>)
        ensures
            match (database, self@.database) {
                (Some(db), Some(expected)) => db@ == expected,
                (None, None) => true,
                _ => false,
            },
    {
        self.session.database()
    }

    /// Whether the session has a connection.
    pub fn is_open(&self) -> (open: bool)
        ensures
            open == self@.is_open(),
    {
        self.session.is_open()
    }

    /// The request that inserts a table-model tablet (`writeToTable=true` +
    /// column categories on the wire). Rejects tree-model tablets.
    pub fn insert(&self, tablet: &Tablet) -> (req: Result<InsertRequest>)
        requires
            tablet@.wf(),
            tablet@.column_categories is Some ==> tablet@.serializable(),
        ensures
            match req {
                Ok(r) => {
                    &&& tablet@.column_categories is Some
                    &&& self@.is_open()
                    &&& r matches InsertRequest::Tablet(t)
                    &&& inserts_tablet(t, self@.session_id, tablet@)
                    &&& t.write_to_table == Some(true)
                },
                Err(e) => if tablet@.column_categories is None {
                    e@ == ErrorView::Client(
                        "TableSession::insert requires a table-model tablet (Tablet::new_table)"@,
                    )
                } else {
                    !self@.is_open() && e@ == ErrorView::Client("session is not open"@)
                },
            },
    {
        if !tablet.is_table_model() {
            return Err(
                Error::Client(
                    "TableSession::insert requires a table-model tablet (Tablet::new_table)".to_owned(),
                ),
            );
        }
        self.session.insert_tablet(tablet)
    }

    /// The request for a query.
    pub fn execute_query(&self, sql: &str) -> (req: Result<TSExecuteStatementReq>)
        ensures
            match req {
                Ok(r) => self@.is_open() && asks_statement(r, self@, sql@),
                Err(e) => !self@.is_open() && e@ == ErrorView::Client("session is not open"@),
            },
    {
        self.session.execute_query(sql)
    }

    /// The request for a non-query statement (DDL/DML).
    pub fn execute_non_query(&self, sql: &str) -> (req: Result<TSExecuteStatementReq>)
        ensures
            match req {
                Ok(r) => self@.is_open() && asks_statement(r, self@, sql@),
                Err(e) => !self@.is_open() && e@ == ErrorView::Client("session is not open"@),
            },
    {
        self.session.execute_non_query(sql)
    }

    /// Closes the session; see [`Session::close`].
    pub fn close(&mut self) -> (closing: Result<Option<(Connection<C>, TSCloseSessionReq)>>)
        requires
            old(self)@.wf(),
        ensures
            final(self)@.wf(),
            final(self)@ == old(self)@.after_close(),
            closing == Ok::<_, Error>(
                match old(self)@.connection {
                    Some(c) => Some((c, TSCloseSessionReq { session_id: old(self)@.session_id })),
                    None => None,
                },
            ),
    {
        self.session.close()
    }
}

} // verus!
