//! Configuration for opening a session.

use vstd::prelude::*;
use vstd::string::*;

use crate::client::redirect::str_texts;
use crate::connection::tls::{copy_text, text_view, TlsOptionsView};
use crate::connection::{
    endpoint_of, ConnectionOptions, ConnectionOptionsView, Endpoint, EndpointView, RpcProtocol,
    TlsOptions,
};
use crate::error::{ErrorView, Result};
use crate::time::Duration;

verus! {

/// Configuration for opening a [`Session`](super::Session).
#[derive(Debug)]
pub struct SessionConfig {
    pub endpoints: Vec<Endpoint>,
    pub username: String,
    pub password: String,
    /// `tree` (default) or `table` — sent as `sql_dialect` at open time.
    pub sql_dialect: String,
    pub fetch_size: i32,
    pub zone_id: String,
    /// TCP connect timeout per endpoint attempt.
    pub connect_timeout: Duration,
    /// Bound on each blocking socket read/write; `None` leaves them
    /// unbounded. Default 60 s.
    pub socket_timeout: Option<Duration>,
    /// Per-query server-side timeout in milliseconds (request body field).
    pub query_timeout_ms: i64,
    /// Database to select at open time (table dialect; sent as config key `db`).
    pub database: Option<String>,
    /// Reopen the connection and retry an op once when an RPC fails at the
    /// Thrift/transport level. Default `true`.
    pub enable_auto_reconnect: bool,
    /// Full round-robin passes over the endpoints during a reconnect before
    /// giving up. Default 3.
    pub max_reconnect_attempts: usize,
    /// Pause between reconnect passes. Default 1 s.
    pub retry_interval: Duration,
    /// Harvest status-400 `redirectNode` hints from insert responses into
    /// the per-session [`RedirectCache`](crate::RedirectCache). Default `true`.
    pub enable_redirection: bool,
    /// Speak TCompactProtocol instead of TBinaryProtocol ("RPC compression"
    /// in IoTDB terms). Must match the **server** setting
    /// `dn_rpc_thrift_compression_enable` (default `false`) — there is no
    /// per-connection negotiation; a mismatch fails at the first RPC.
    /// Default `false`.
    pub enable_rpc_compression: bool,
    /// Wrap connections in TLS. The server must have
    /// `enable_thrift_ssl=true`. Default `false`.
    pub use_ssl: bool,
    /// PEM certificate added as trusted root (private CA / self-signed
    /// server cert). `None` → platform trust store only.
    pub ca_cert_path: Option<String>,
    /// Skip certificate verification (self-signed test certs).
    /// **Dangerous** outside tests. Default `false`.
    pub accept_invalid_certs: bool,
    /// Hostname for SNI + certificate validation instead of the endpoint
    /// host (e.g. when connecting by IP).
    pub domain_override: Option<String>,
    /// PEM client certificate for mutual TLS (server has
    /// `thrift_ssl_client_auth=true`); set together with
    /// `client_key_path`.
    pub client_cert_path: Option<String>,
    /// PEM PKCS#8 private key for the client certificate; set together
    /// with `client_cert_path`.
    pub client_key_path: Option<String>,
}

/// A session configuration with its texts as character sequences.
#[verifier::ext_equal]
pub struct SessionConfigView {
    pub endpoints: Seq<EndpointView>,
    pub username: Seq<char>,
    pub password: Seq<char>,
    pub sql_dialect: Seq<char>,
    pub fetch_size: i32,
    pub zone_id: Seq<char>,
    pub connect_timeout: Duration,
    pub socket_timeout: Option<Duration>,
    pub query_timeout_ms: i64,
    pub database: Option<Seq<char>>,
    pub enable_auto_reconnect: bool,
    pub max_reconnect_attempts: usize,
    pub retry_interval: Duration,
    pub enable_redirection: bool,
    pub enable_rpc_compression: bool,
    pub use_ssl: bool,
    pub ca_cert_path: Option<Seq<char>>,
    pub accept_invalid_certs: bool,
    pub domain_override: Option<Seq<char>>,
    pub client_cert_path: Option<Seq<char>>,
    pub client_key_path: Option<Seq<char>>,
}

/// The views of a list of endpoints.
pub open spec fn endpoints_view(endpoints: Seq<Endpoint>) -> Seq<EndpointView> {
    endpoints.map_values(|e: Endpoint| e@)
}

impl View for SessionConfig {
    type V = SessionConfigView;

    open spec fn view(&self) -> SessionConfigView {
        SessionConfigView {
            endpoints: endpoints_view(self.endpoints@),
            username: self.username@,
            password: self.password@,
            sql_dialect: self.sql_dialect@,
            fetch_size: self.fetch_size,
            zone_id: self.zone_id@,
            connect_timeout: self.connect_timeout,
            socket_timeout: self.socket_timeout,
            query_timeout_ms: self.query_timeout_ms,
            database: text_view(self.database),
            enable_auto_reconnect: self.enable_auto_reconnect,
            max_reconnect_attempts: self.max_reconnect_attempts,
            retry_interval: self.retry_interval,
            enable_redirection: self.enable_redirection,
            enable_rpc_compression: self.enable_rpc_compression,
            use_ssl: self.use_ssl,
            ca_cert_path: text_view(self.ca_cert_path),
            accept_invalid_certs: self.accept_invalid_certs,
            domain_override: text_view(self.domain_override),
            client_cert_path: text_view(self.client_cert_path),
            client_key_path: text_view(self.client_key_path),
        }
    }
}

/// The configuration that nothing has been set in.
pub open spec fn default_session_config() -> SessionConfigView {
    SessionConfigView {
        endpoints: seq![EndpointView { host: "localhost"@, port: 6667 }],
        username: "root"@,
        password: "root"@,
        sql_dialect: "tree"@,
        fetch_size: 1024,
        zone_id: "UTC+8"@,
        connect_timeout: Duration { nanos: 10_000_000_000 },
        socket_timeout: Some(Duration { nanos: 60_000_000_000 }),
        query_timeout_ms: 60_000,
        database: None,
        enable_auto_reconnect: true,
        max_reconnect_attempts: 3,
        retry_interval: Duration { nanos: 1_000_000_000 },
        enable_redirection: true,
        enable_rpc_compression: false,
        use_ssl: false,
        ca_cert_path: None,
        accept_invalid_certs: false,
        domain_override: None,
        client_cert_path: None,
        client_key_path: None,
    }
}

impl Default for SessionConfig {
    fn default() -> (config: SessionConfig)
        ensures
            config@ == default_session_config(),
    {
        let config = SessionConfig {
            endpoints: vec![Endpoint::new("localhost", 6667)],
            username: "root".to_owned(),
            password: "root".to_owned(),
            sql_dialect: "tree".to_owned(),
            fetch_size: 1024,
            zone_id: "UTC+8".to_owned(),
            connect_timeout: Duration::from_secs(10),
            socket_timeout: Some(Duration::from_secs(60)),
            query_timeout_ms: 60_000,
            database: None,
            enable_auto_reconnect: true,
            max_reconnect_attempts: 3,
            retry_interval: Duration::from_secs(1),
            enable_redirection: true,
            enable_rpc_compression: false,
            use_ssl: false,
            ca_cert_path: None,
            accept_invalid_certs: false,
            domain_override: None,
            client_cert_path: None,
            client_key_path: None,
        };
        assert(config@.endpoints =~= default_session_config().endpoints);
        config
    }
}

/// A copy of a list of endpoints.
pub(crate) fn copy_endpoints(endpoints: &Vec<Endpoint>) -> (copy: Vec<Endpoint>)
    ensures
        copy@ == endpoints@,
{
    let mut copy: Vec<Endpoint> = Vec::new();
    let mut i: usize = 0;
    while i < endpoints.len()
        invariant
            i <= endpoints@.len(),
            copy@ == endpoints@.subrange(0, i as int),
        decreases endpoints@.len() - i,
    {
        copy.push(endpoints[i].clone());
        i += 1;
        assert(copy@ =~= endpoints@.subrange(0, i as int));
    }
    assert(copy@ =~= endpoints@);
    copy
}

impl Clone for SessionConfig {
    fn clone(&self) -> (copy: SessionConfig)
        ensures
            copy@ == self@,
    {
        SessionConfig {
            endpoints: copy_endpoints(&self.endpoints),
            username: self.username.clone(),
            password: self.password.clone(),
            sql_dialect: self.sql_dialect.clone(),
            fetch_size: self.fetch_size,
            zone_id: self.zone_id.clone(),
            connect_timeout: self.connect_timeout,
            socket_timeout: self.socket_timeout,
            query_timeout_ms: self.query_timeout_ms,
            database: copy_text(&self.database),
            enable_auto_reconnect: self.enable_auto_reconnect,
            max_reconnect_attempts: self.max_reconnect_attempts,
            retry_interval: self.retry_interval,
            enable_redirection: self.enable_redirection,
            enable_rpc_compression: self.enable_rpc_compression,
            use_ssl: self.use_ssl,
            ca_cert_path: copy_text(&self.ca_cert_path),
            accept_invalid_certs: self.accept_invalid_certs,
            domain_override: copy_text(&self.domain_override),
            client_cert_path: copy_text(&self.client_cert_path),
            client_key_path: copy_text(&self.client_key_path),
        }
    }
}

/// The endpoints that the first `k` node urls name, or the complaint about the
/// first url that names none.
pub open spec fn endpoints_of(urls: Seq<Seq<char>>, k: nat) -> std::result::Result<
    Seq<EndpointView>,
    Seq<char>,
>
    decreases k,
{
    if k == 0 {
        Ok(Seq::empty())
    } else {
        match (endpoints_of(urls, (k - 1) as nat), endpoint_of(urls[k - 1])) {
            (Err(m), _) => Err(m),
            (Ok(list), Ok(e)) => Ok(list.push(e)),
            (Ok(_), Err(m)) => Err(m),
        }
    }
}

proof fn lemma_endpoints_fail_early(urls: Seq<Seq<char>>, i: nat, n: nat)
    requires
        i <= n,
        endpoints_of(urls, i) is Err,
    ensures
        endpoints_of(urls, n) == endpoints_of(urls, i),
    decreases n,
{
    if i < n {
        lemma_endpoints_fail_early(urls, i, (n - 1) as nat);
    }
}

/// Parses a list of node urls.
fn parse_node_urls(node_urls: &[&str]) -> (endpoints: Result<Vec<Endpoint>>)
    ensures
        match (endpoints, endpoints_of(str_texts(node_urls@), node_urls@.len())) {
            (Ok(list), Ok(expected)) => endpoints_view(list@) == expected,
            (Err(e), Err(m)) => e@ == ErrorView::Client(m),
            _ => false,
        },
{
    let ghost urls = str_texts(node_urls@);
    let mut endpoints: Vec<Endpoint> = Vec::new();
    let mut i: usize = 0;
    assert(endpoints_view(endpoints@) =~= Seq::empty());
    while i < node_urls.len()
        invariant
            i <= node_urls@.len(),
            urls == str_texts(node_urls@),
            endpoints_of(urls, i as nat) == Ok::<Seq<EndpointView>, Seq<char>>(
                endpoints_view(endpoints@),
            ),
        decreases node_urls@.len() - i,
    {
        let ghost before = endpoints@;
        assert(urls[i as int] == node_urls@[i as int]@);
        match Endpoint::parse(node_urls[i]) {
            Ok(e) => {
                endpoints.push(e);
                assert(endpoints_view(endpoints@) =~= endpoints_view(before).push(e@));
            },
            Err(e) => {
                proof {
                    lemma_endpoints_fail_early(urls, (i + 1) as nat, node_urls@.len());
                }
                return Err(e);
            },
        }
        i += 1;
    }
    Ok(endpoints)
}

/// The connection settings that a session configuration implies.
pub open spec fn implied_options(config: SessionConfigView) -> ConnectionOptionsView {
    ConnectionOptionsView {
        connect_timeout: config.connect_timeout,
        socket_timeout: config.socket_timeout,
        protocol: if config.enable_rpc_compression {
            RpcProtocol::Compact
        } else {
            RpcProtocol::Binary
        },
        tls: if config.use_ssl {
            Some(
                TlsOptionsView {
                    ca_cert_path: config.ca_cert_path,
                    accept_invalid_certs: config.accept_invalid_certs,
                    domain_override: config.domain_override,
                    client_cert_path: config.client_cert_path,
                    client_key_path: config.client_key_path,
                },
            )
        } else {
            None
        },
    }
}

impl SessionConfig {
    /// Set endpoints from `"host:port"` node-url strings (IPv6 hosts may be
    /// bracketed, e.g. `"[::1]:6667"`).
    pub fn with_node_urls(self, node_urls: &[&str]) -> (config: Result<SessionConfig>)
        ensures
            match (config, endpoints_of(str_texts(node_urls@), node_urls@.len())) {
                (Ok(c), Ok(endpoints)) => c@ == (SessionConfigView { endpoints, ..self@ }),
                (Err(e), Err(m)) => e@ == ErrorView::Client(m),
                _ => false,
            },
    {
        let mut config = self;
        match parse_node_urls(node_urls) {
            Ok(endpoints) => {
                config.endpoints = endpoints;
                Ok(config)
            },
            Err(e) => Err(e),
        }
    }

    /// Resolve the connection-level options (timeouts, wire protocol, TLS)
    /// this config implies.
    pub fn connection_options(&self) -> (options: ConnectionOptions)
        ensures
            options@ == implied_options(self@),
    {
        ConnectionOptions {
            connect_timeout: self.connect_timeout,
            socket_timeout: self.socket_timeout,
            protocol: if self.enable_rpc_compression {
                RpcProtocol::Compact
            } else {
                RpcProtocol::Binary
            },
            tls: if self.use_ssl {
                Some(
                    TlsOptions {
                        ca_cert_path: copy_text(&self.ca_cert_path),
                        accept_invalid_certs: self.accept_invalid_certs,
                        domain_override: copy_text(&self.domain_override),
                        client_cert_path: copy_text(&self.client_cert_path),
                        client_key_path: copy_text(&self.client_key_path),
                    },
                )
            } else {
                None
            },
        }
    }
}

} // verus!
