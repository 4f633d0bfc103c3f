//! What session configurations start from, accept and imply.

use vstd::prelude::*;

use super::config::{default_session_config, endpoints_of, implied_options, SessionConfigView};
use crate::client::table_session::default_table_config;
use crate::connection::{endpoint_of, EndpointView};

verus! {

/// A list of node urls is accepted if and only if each names an endpoint; the
/// endpoints are then those of the urls, in order. Otherwise the complaint is
/// that about the first url that names none.
pub proof fn law_node_urls(urls: Seq<Seq<char>>, k: nat)
    requires
        k <= urls.len(),
    ensures
        match endpoints_of(urls, k) {
            Ok(list) => list.len() == k && forall|i: int|
                0 <= i < k ==> endpoint_of(#[trigger] urls[i]) == Ok::<EndpointView, Seq<char>>(
                    list[i],
                ),
            Err(m) => exists|i: int|
                {
                    &&& 0 <= i < k
                    &&& endpoint_of(#[trigger] urls[i]) == Err::<EndpointView, Seq<char>>(m)
                    &&& forall|j: int| 0 <= j < i ==> endpoint_of(#[trigger] urls[j]) is Ok
                },
        },
    decreases k,
{
    if k > 0 {
        law_node_urls(urls, (k - 1) as nat);
        if endpoints_of(urls, (k - 1) as nat) is Ok {
            assert(endpoint_of(urls[k - 1]) == endpoint_of(urls[k - 1]));
        }
    }
}

/// A connection has the timeouts of its session; it speaks the compact protocol
/// if and only if compression is on, and TLS if and only if that is, with the
/// files, the name and the leniency that the configuration states.
pub proof fn law_connection_options(config: SessionConfigView)
    ensures
        implied_options(config).connect_timeout == config.connect_timeout,
        implied_options(config).socket_timeout == config.socket_timeout,
        implied_options(config).protocol is Compact <==> config.enable_rpc_compression,
        implied_options(config).protocol is Binary <==> !config.enable_rpc_compression,
        implied_options(config).tls is Some <==> config.use_ssl,
        implied_options(config).tls matches Some(tls) ==> {
            &&& tls.ca_cert_path == config.ca_cert_path
            &&& tls.accept_invalid_certs == config.accept_invalid_certs
            &&& tls.domain_override == config.domain_override
            &&& tls.client_cert_path == config.client_cert_path
            &&& tls.client_key_path == config.client_key_path
        },
{
}

/// A table session starts from the same settings as any other, but for the
/// dialect.
pub proof fn law_table_sessions_differ_by_dialect()
    ensures
        default_table_config().sql_dialect == "table"@,
        default_session_config().sql_dialect == "tree"@,
        (SessionConfigView { sql_dialect: "tree"@, ..default_table_config() })
            == default_session_config(),
{
}

/// What holds where nothing has been set: the local node at its standard port,
/// the standard user, pages of 1024 rows, ten seconds to connect and sixty to
/// answer, three attempts to reconnect a second apart, redirection, and neither
/// compression, TLS nor a database.
pub proof fn law_default_settings()
    ensures
        ({
            let config = default_session_config();
            &&& config.endpoints.len() == 1
            &&& config.endpoints[0].host == "localhost"@
            &&& config.endpoints[0].port == 6667
            &&& config.username == "root"@
            &&& config.password == "root"@
            &&& config.fetch_size == 1024
            &&& config.zone_id == "UTC+8"@
            &&& config.connect_timeout.nanos == 10 * 1_000_000_000
            &&& config.socket_timeout is Some
            &&& (config.socket_timeout->0).nanos == 60 * 1_000_000_000
            &&& config.query_timeout_ms == 60 * 1_000
            &&& config.database is None
            &&& config.enable_auto_reconnect
            &&& config.max_reconnect_attempts == 3
            &&& config.retry_interval.nanos == 1_000_000_000
            &&& config.enable_redirection
            &&& !config.enable_rpc_compression
            &&& !config.use_ssl
            &&& !config.accept_invalid_certs
            &&& config.ca_cert_path is None
            &&& config.domain_override is None
            &&& config.client_cert_path is None
            &&& config.client_key_path is None
        }),
{
}

} // verus!
