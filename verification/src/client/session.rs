//! Tree-model session (device/timeseries paths).

use vstd::prelude::*;
use vstd::string::*;

pub mod config;
pub mod config_laws;
pub mod insert_laws;
pub mod inserts;
pub mod session_laws;
pub mod status_code;
pub mod walk;

pub use config::SessionConfig;

use crate::client::redirect::{
    endpoint_found, record_redirects, str_texts, HintView, RedirectCache,
    RedirectCacheStats, RedirectCacheView,
};
use crate::connection::tls::{copy_text, text_view};
use crate::connection::{Connection, Endpoint, EndpointView};
use crate::data::record::values_view;
use crate::data::tablet::texts;
use crate::data::{Tablet, Value};
use crate::error::{Error, ErrorView, Result};
use crate::protocol::{
    TSCloseOperationReq, TSCloseSessionReq, TSExecuteStatementReq, TSExecuteStatementResp,
    TSFetchResultsReq, TSFetchResultsResp, TSInsertRecordReq, TSInsertRecordsOfOneDeviceReq,
    TSInsertRecordsReq, TSInsertTabletReq, TSInsertTabletsReq, TSOpenSessionReq,
    TSOpenSessionResp, TSStatus, PROTOCOL_V3,
};
use crate::time::{Instant, MAX_DURATION_NANOS};
use config::{endpoints_view, SessionConfigView};
use inserts::{
    batch_complaint, batch_serializable, build_insert_record_req,
    build_insert_records_of_one_device_req, build_insert_records_req, build_insert_tablet_req,
    build_insert_tablets_req, inserts_one_device, inserts_record, inserts_records,
    inserts_tablet, inserts_tablets, one_device_rows_to_send, record_complaint, records_to_send,
    send_order, tablets_view, text_lists, value_lists,
};
use walk::{rotated, EndpointWalk, WalkView};

verus! {

/// Whether a status reports success: 200 and 400 do; 302 does iff every
/// sub-status does.
pub open spec fn status_ok(status: TSStatus) -> bool
    decreases status,
{
    ||| status.code == status_code::SUCCESS_STATUS
    ||| status.code == status_code::REDIRECTION_RECOMMEND
    ||| status.code == status_code::MULTIPLE_ERROR && match status.sub_status {
        None => true,
        Some(subs) => forall|i: int|
            0 <= i < subs@.len() ==> status_ok(*(#[trigger] subs@[i])),
    }
}

/// A status's own code and message as an error.
pub open spec fn server_error(status: TSStatus) -> ErrorView {
    ErrorView::Server {
        code: status.code,
        message: match status.message {
            Some(m) => m@,
            None => Seq::empty(),
        },
    }
}

/// The error of a status that does not report success: of a batch, that of the
/// first sub-status that does not; otherwise its own.
pub open spec fn is_status_error(status: TSStatus, error: ErrorView) -> bool {
    if status.code == status_code::MULTIPLE_ERROR {
        exists|i: int|
            {
                &&& 0 <= i < status.sub_status->0@.len()
                &&& !status_ok(*(#[trigger] status.sub_status->0@[i]))
                &&& forall|j: int| 0 <= j < i ==> status_ok(*(#[trigger] status.sub_status->0@[j]))
                &&& error == server_error(*status.sub_status->0@[i])
            }
    } else {
        error == server_error(status)
    }
}

fn status_error(status: &TSStatus) -> (e: Error)
    ensures
        e@ == server_error(*status),
{
    let message = match &status.message {
        Some(m) => m.clone(),
        None => String::new(),
    };
    assert(status.message is None ==> message@ =~= Seq::empty());
    Error::Server { code: status.code, message }
}

/// Map a `TSStatus` to success or [`Error::Server`]: 200 OK; 400 is a
/// **successful** write with a redirect hint; 302 succeeds iff every
/// subStatus is itself OK.
pub fn check_status(status: &TSStatus) -> (checked: Result<()>)
    ensures
        checked is Ok <==> status_ok(*status),
        checked matches Err(e) ==> is_status_error(*status, e@),
        status.code == 200 || status.code == 400 ==> checked is Ok,
        status.code == 302 && status.sub_status is Some ==> (checked is Ok <==> forall|i: int|
            0 <= i < status.sub_status->0@.len() ==> status_ok(
                *(#[trigger] status.sub_status->0@[i]),
            )),
        status.code != 200 && status.code != 400 && status.code != 302 ==> checked is Err,
    decreases *status,
{
    if status.code == status_code::SUCCESS_STATUS || status.code
        == status_code::REDIRECTION_RECOMMEND {
        return Ok(());
    }
    if status.code != status_code::MULTIPLE_ERROR {
        return Err(status_error(status));
    }
    match &status.sub_status {
        None => Ok(()),
        Some(subs) => {
            let mut i: usize = 0;
            while i < subs.len()
                invariant
                    i <= subs@.len(),
                    status.sub_status == Some(*subs),
                    status.code == status_code::MULTIPLE_ERROR,
                    forall|k: int| 0 <= k < i ==> status_ok(*(#[trigger] subs@[k])),
                decreases subs@.len() - i,
            {
                proof {
                    assert(decreases_to!(*status => status.sub_status));
                    assert(decreases_to!(status.sub_status => status.sub_status->0));
                    assert(decreases_to!(status.sub_status->0 => status.sub_status->0[i as int]));
                }
                let checked = check_status(&subs[i]);
                if checked.is_err() {
                    assert(!status_ok(*status.sub_status->0@[i as int]));
                    return Err(status_error(&subs[i]));
                }
                i += 1;
            }
            Ok(())
        },
    }
}

/// A status with code 200 or 400 reports success whatever else it carries, and
/// so does an empty batch; any other code but that of a batch reports failure.
pub proof fn law_status_codes(status: TSStatus)
    ensures
        status.code == 200 || status.code == 400 ==> status_ok(status),
        status.code == 302 && status.sub_status is None ==> status_ok(status),
        status.code != 200 && status.code != 400 && status.code != 302 ==> !status_ok(status),
{
}

/// Raw result of a query statement: response metadata plus undecoded TsBlocks.
///
/// TsBlock decoding lives in the data layer; this handle only carries the
/// bytes and the bookkeeping needed to fetch more pages and close the query.
#[derive(Debug)]
pub struct QueryHandle {
    pub query_id: i64,
    pub statement: String,
    pub columns: Vec<String>,
    pub data_type_list: Vec<String>,
    pub ignore_time_stamp: bool,
    /// Serialized TsBlocks (decoded by the data layer).
    pub query_result: Vec<Vec<u8>>,
    pub more_data: bool,
    /// Output column ordinal → physical TsBlock column index (`-1` = time
    /// column); identity mapping when absent.
    pub column_index2_ts_block_column_index_list: Option<Vec<i32>>,
}

/// An insert that is ready to be sent.
#[derive(Debug)]
pub enum InsertRequest {
    Tablet(TSInsertTabletReq),
    Tablets(TSInsertTabletsReq),
    Record(TSInsertRecordReq),
    Records(TSInsertRecordsReq),
    RecordsOfOneDevice(TSInsertRecordsOfOneDeviceReq),
}

impl InsertRequest {
    /// The same request for another session.
    pub open spec fn for_session(self, session_id: i64) -> InsertRequest {
        match self {
            InsertRequest::Tablet(r) => InsertRequest::Tablet(
                TSInsertTabletReq { session_id, ..r },
            ),
            InsertRequest::Tablets(r) => InsertRequest::Tablets(
                TSInsertTabletsReq { session_id, ..r },
            ),
            InsertRequest::Record(r) => InsertRequest::Record(
                TSInsertRecordReq { session_id, ..r },
            ),
            InsertRequest::Records(r) => InsertRequest::Records(
                TSInsertRecordsReq { session_id, ..r },
            ),
            InsertRequest::RecordsOfOneDevice(r) => InsertRequest::RecordsOfOneDevice(
                TSInsertRecordsOfOneDeviceReq { session_id, ..r },
            ),
        }
    }

    /// The devices (or the table) written to, in the order of the request.
    pub open spec fn targets(self) -> Seq<Seq<char>> {
        match self {
            InsertRequest::Tablet(r) => seq![r.prefix_path@],
            InsertRequest::Tablets(r) => texts(r.prefix_paths@),
            InsertRequest::Record(r) => seq![r.prefix_path@],
            InsertRequest::Records(r) => texts(r.prefix_paths@),
            InsertRequest::RecordsOfOneDevice(r) => seq![r.prefix_path@],
        }
    }

    /// Readdresses the request: a reconnect refreshes the session id, and
    /// nothing else changes between attempts.
    pub fn set_session_id(&mut self, session_id: i64)
        ensures
            *final(self) == old(self).for_session(session_id),
    {
        match self {
            InsertRequest::Tablet(r) => {
                r.session_id = session_id;
            },
            InsertRequest::Tablets(r) => {
                r.session_id = session_id;
            },
            InsertRequest::Record(r) => {
                r.session_id = session_id;
            },
            InsertRequest::Records(r) => {
                r.session_id = session_id;
            },
            InsertRequest::RecordsOfOneDevice(r) => {
                r.session_id = session_id;
            },
        }
    }

    /// The devices (or the table) written to, in the order of the request.
    pub fn devices(&self) -> (devices: Vec<&str>)
        ensures
            str_texts(devices@) == self.targets(),
    {
        match self {
            InsertRequest::Tablet(r) => one_device(r.prefix_path.as_str()),
            InsertRequest::Tablets(r) => all_devices(&r.prefix_paths),
            InsertRequest::Record(r) => one_device(r.prefix_path.as_str()),
            InsertRequest::Records(r) => all_devices(&r.prefix_paths),
            InsertRequest::RecordsOfOneDevice(r) => one_device(r.prefix_path.as_str()),
        }
    }
}

fn one_device<'a>(device: &'a str) -> (devices: Vec<&'a str>)
    ensures
        str_texts(devices@) == seq![device@],
{
    let mut devices: Vec<&'a str> = Vec::new();
    devices.push(device);
    assert(str_texts(devices@) =~= seq![device@]);
    devices
}

fn all_devices<'a>(paths: &'a Vec<String>) -> (devices: Vec<&'a str>)
    ensures
        str_texts(devices@) == texts(paths@),
{
    let mut devices: Vec<&'a str> = Vec::new();
    let mut i: usize = 0;
    while i < paths.len()
        invariant
            i == devices@.len() <= paths@.len(),
            forall|k: int| 0 <= k < i ==> (#[trigger] devices@[k])@ == paths@[k]@,
        decreases paths@.len() - i,
    {
        devices.push(paths[i].as_str());
        i += 1;
    }
    assert(str_texts(devices@) =~= texts(paths@));
    devices
}

/// What follows an attempt at an RPC.
#[derive(Debug)]
pub enum AfterAttempt<T> {
    /// This is the outcome.
    Finish(Result<T>),
    /// The transport failed with this error: reopen the session and try again.
    Reconnect(Error),
}

/// What follows a reconnect.
#[derive(Debug)]
pub enum AfterReconnect {
    /// Try the RPC once more; its outcome is final.
    TryAgain,
    /// Report this error.
    Fail(Error),
}

/// A tree-model session against an IoTDB cluster, over RPC clients of type `C`.
#[derive(Debug)]
pub struct Session<C> {
    config: SessionConfig,
    connection: Option<Connection<C>>,
    session_id: i64,
    statement_id: i64,
    /// Current database, tracked from `USE <db>` responses (table dialect).
    database: Option<String>,
    /// Endpoint of the most recent (possibly dead) connection — reconnect
    /// starts its round-robin here.
    last_endpoint: Option<Endpoint>,
    /// Device → endpoint hints harvested from status-400 insert responses.
    redirect_cache: RedirectCache,
    /// Whether the session belongs to a pool.
    pooled: bool,
}

/// A session with its texts as character sequences.
#[verifier::ext_equal]
#[verifier::reject_recursive_types(C)]
pub struct SessionView<C> {
    pub config: SessionConfigView,
    pub connection: Option<Connection<C>>,
    pub session_id: i64,
    pub statement_id: i64,
    pub database: Option<Seq<char>>,
    pub last_endpoint: Option<EndpointView>,
    pub redirects: RedirectCacheView,
    pub pooled: bool,
}

/// An endpoint, where there is one.
pub open spec fn endpoint_view(e: Option<Endpoint>) -> Option<EndpointView> {
    match e {
        Some(e) => Some(e@),
        None => None,
    }
}

impl<C> SessionView<C> {
    /// The cache of hints is well formed, and the endpoint remembered is that
    /// of the connection.
    pub open spec fn wf(self) -> bool {
        &&& self.redirects.wf()
        &&& self.connection matches Some(c) ==> self.last_endpoint == Some(c.spec_endpoint()@)
    }

    /// Whether the session has a connection.
    pub open spec fn is_open(self) -> bool {
        self.connection is Some
    }

    /// The session without a connection and ids.
    pub open spec fn after_close(self) -> SessionView<C> {
        SessionView { connection: None, session_id: -1i64, statement_id: -1i64, ..self }
    }
}

impl<C> View for Session<C> {
    type V = SessionView<C>;

    closed spec fn view(&self) -> SessionView<C> {
        SessionView {
            config: self.config@,
            connection: self.connection,
            session_id: self.session_id,
            statement_id: self.statement_id,
            database: text_view(self.database),
            last_endpoint: endpoint_view(self.last_endpoint),
            redirects: self.redirect_cache@,
            pooled: self.pooled,
        }
    }
}

/// Where `e` first occurs among the first `k` endpoints.
pub open spec fn first_position(endpoints: Seq<EndpointView>, e: EndpointView, k: nat) -> Option<
    int,
>
    decreases k,
{
    if k == 0 {
        None
    } else {
        match first_position(endpoints, e, (k - 1) as nat) {
            Some(i) => Some(i),
            None => if endpoints[k - 1] == e {
                Some(k - 1)
            } else {
                None
            },
        }
    }
}

proof fn lemma_position_stays(endpoints: Seq<EndpointView>, e: EndpointView, i: nat, n: nat)
    requires
        i <= n,
        first_position(endpoints, e, i) is Some,
    ensures
        first_position(endpoints, e, n) == first_position(endpoints, e, i),
    decreases n,
{
    if i < n {
        lemma_position_stays(endpoints, e, i, (n - 1) as nat);
    }
}

/// Where a reconnect begins: at the endpoint last connected to, or at the
/// first where that is none of the configured ones.
pub open spec fn reconnect_start(
    endpoints: Seq<EndpointView>,
    last_endpoint: Option<EndpointView>,
) -> int {
    match last_endpoint {
        Some(e) => match first_position(endpoints, e, endpoints.len()) {
            Some(i) => i,
            None => 0,
        },
        None => 0,
    }
}

fn find_endpoint(endpoints: &Vec<Endpoint>, e: &Endpoint) -> (index: Option<usize>)
    ensures
        match (index, first_position(endpoints_view(endpoints@), e@, endpoints@.len())) {
            (Some(i), Some(k)) => i == k && i < endpoints@.len(),
            (None, None) => true,
            _ => false,
        },
{
    let ghost view = endpoints_view(endpoints@);
    let mut i: usize = 0;
    while i < endpoints.len()
        invariant
            i <= endpoints@.len(),
            view == endpoints_view(endpoints@),
            first_position(view, e@, i as nat) is None,
        decreases endpoints@.len() - i,
    {
        assert(view[i as int] == endpoints@[i as int]@);
        if endpoints[i] == *e {
            proof {
                lemma_position_stays(view, e@, (i + 1) as nat, view.len());
            }
            return Some(i);
        }
        i += 1;
    }
    None
}

/// The number of passes a reconnect makes: at least one.
pub open spec fn reconnect_passes(config: SessionConfigView) -> nat {
    if config.max_reconnect_attempts == 0 {
        1
    } else {
        config.max_reconnect_attempts as nat
    }
}

/// Whether a request carries the statement with the session's ids and limits.
pub open spec fn asks_statement<C>(
    req: TSExecuteStatementReq,
    session: SessionView<C>,
    sql: Seq<char>,
) -> bool {
    &&& req.session_id == session.session_id
    &&& req.statement@ == sql
    &&& req.statement_id == session.statement_id
    &&& req.fetch_size == session.config.fetch_size
    &&& req.timeout == session.config.query_timeout_ms
    &&& req.enable_redirect_query
    &&& !req.jdbc_query
}

fn not_open() -> (e: Error)
    ensures
        e@ == ErrorView::Client("session is not open"@),
{
    Error::Client("session is not open".to_owned())
}

impl<C> Session<C> {
    /// A session that is not open yet.
    pub fn new(config: SessionConfig) -> (session: Session<C>)
        ensures
            session@.wf(),
            session@.config == config@,
            session@.connection is None,
            session@.session_id == -1,
            session@.statement_id == -1,
            session@.database == config@.database,
            session@.last_endpoint is None,
            session@.redirects.hints.len() == 0,
            session@.redirects.ttl == 300_000_000_000,
            session@.redirects.max_entries == 1024,
            session@.redirects.seq == 0,
            !session@.pooled,
    {
        let database = copy_text(&config.database);
        Session {
            config,
            connection: None,
            session_id: -1,
            statement_id: -1,
            database,
            last_endpoint: None,
            redirect_cache: RedirectCache::default(),
            pooled: false,
        }
    }

    /// Begins to open the session: the endpoints are to be tried from the
    /// `start`-th on (counted around), and the first that accepts a
    /// connection wins. [`Session::opened`] ends it.
    pub fn open(&self, start: usize) -> (walk: Result<EndpointWalk>)
        requires
            self@.wf(),
        ensures
            match walk {
                Ok(w) => {
                    let n = self@.config.endpoints.len();
                    &&& !self@.is_open()
                    &&& n > 0
                    &&& w@.wf()
                    &&& w@ == (WalkView {
                        endpoints: rotated(self@.config.endpoints, start as int % n as int),
                        passes: 1,
                        pause: None,
                        pass: 0,
                        index: 0,
                        paused: false,
                        last_error: None,
                        fallback: "no endpoints configured"@,
                    })
                },
                Err(e) => if self@.is_open() {
                    e@ == ErrorView::Client("session already open"@)
                } else {
                    &&& self@.config.endpoints.len() == 0
                    &&& e@ == ErrorView::Client("no endpoints configured"@)
                },
            },
    {
        if self.connection.is_some() {
            return Err(Error::Client("session already open".to_owned()));
        }
        let n: usize = self.config.endpoints.len();
        if n == 0 {
            return Err(Error::Client("no endpoints configured".to_owned()));
        }
        Ok(EndpointWalk::new(&self.config.endpoints, start % n, 1, None, "no endpoints configured"))
    }

    /// The handshake request on a fresh connection: dialect, and the current
    /// database via the `db` config key, so a reopened session lands back in
    /// the database its `USE <db>` had selected.
    pub fn open_session_req(&self) -> (req: TSOpenSessionReq)
        ensures
            req.client_protocol == PROTOCOL_V3,
            req.zone_id@ == self@.config.zone_id,
            req.username@ == self@.config.username,
            req.password@ == self@.config.password,
            pairs_view(req.configuration@) == session_configuration(
                self@.config.sql_dialect,
                self@.database,
            ),
    {
        let mut configuration: Vec<(String, String)> = Vec::new();
        match &self.database {
            Some(db) => {
                // The config key is literally "db", not "database".
                configuration.push(("db".to_owned(), db.clone()));
            },
            None => {},
        }
        configuration.push(("sql_dialect".to_owned(), self.config.sql_dialect.clone()));
        assert(pairs_view(configuration@) =~= session_configuration(
            self@.config.sql_dialect,
            self@.database,
        ));
        TSOpenSessionReq {
            client_protocol: PROTOCOL_V3,
            zone_id: self.config.zone_id.clone(),
            username: self.config.username.clone(),
            password: self.config.password.clone(),
            configuration,
        }
    }

    /// The session id that the server's answer to the handshake grants.
    pub fn session_id_granted(resp: &TSOpenSessionResp) -> (id: Result<i64>)
        ensures
            match id {
                Ok(id) => status_ok(resp.status) && resp.session_id == Some(id),
                Err(e) => if status_ok(resp.status) {
                    &&& resp.session_id is None
                    &&& e@ == ErrorView::Client("openSession response missing sessionId"@)
                } else {
                    is_status_error(resp.status, e@)
                },
            },
    {
        match check_status(&resp.status) {
            Ok(_) => {},
            Err(e) => return Err(e),
        }
        match resp.session_id {
            Some(id) => Ok(id),
            None => Err(Error::Client("openSession response missing sessionId".to_owned())),
        }
    }

    /// Takes over a connection on which the handshake has succeeded.
    pub fn opened(&mut self, connection: Connection<C>, session_id: i64, statement_id: i64)
        requires
            old(self)@.wf(),
        ensures
            final(self)@.wf(),
            final(self)@ == (SessionView {
                connection: Some(connection),
                session_id,
                statement_id,
                last_endpoint: Some(connection.spec_endpoint()@),
                ..old(self)@
            }),
    {
        self.session_id = session_id;
        self.statement_id = statement_id;
        self.last_endpoint = Some(connection.endpoint().clone());
        self.connection = Some(connection);
    }

    /// Begins to reopen after a transport-level failure: drops the dead
    /// connection (closing its transport). A **full** handshake is then to be
    /// tried round-robin over all endpoints, starting at the one that just
    /// died, for up to `max_reconnect_attempts` passes with `retry_interval`
    /// between passes. Pooled sessions skip the pauses, so a pool slot is
    /// never held for the full walk. [`Session::opened`] ends it.
    pub fn reconnect(&mut self) -> (walk: Result<EndpointWalk>)
        requires
            old(self)@.wf(),
        ensures
            final(self)@.wf(),
            final(self)@ == (SessionView { connection: None, ..old(self)@ }),
            match walk {
                Ok(w) => {
                    &&& old(self)@.config.endpoints.len() > 0
                    &&& w@.wf()
                    &&& w@ == (WalkView {
                        endpoints: rotated(
                            old(self)@.config.endpoints,
                            reconnect_start(
                                old(self)@.config.endpoints,
                                old(self)@.last_endpoint,
                            ),
                        ),
                        passes: reconnect_passes(old(self)@.config),
                        pause: if old(self)@.pooled {
                            None
                        } else {
                            Some(old(self)@.config.retry_interval)
                        },
                        pass: 0,
                        index: 0,
                        paused: false,
                        last_error: None,
                        fallback: "reconnect failed"@,
                    })
                },
                Err(e) => {
                    &&& old(self)@.config.endpoints.len() == 0
                    &&& e@ == ErrorView::Client("no endpoints configured"@)
                },
            },
    {
        self.connection = None;
        if self.config.endpoints.len() == 0 {
            return Err(Error::Client("no endpoints configured".to_owned()));
        }
        let start: usize = match &self.last_endpoint {
            Some(e) => match find_endpoint(&self.config.endpoints, e) {
                Some(i) => i,
                None => 0,
            },
            None => 0,
        };
        let passes: usize = if self.config.max_reconnect_attempts == 0 {
            1
        } else {
            self.config.max_reconnect_attempts
        };
        let pause = if self.pooled {
            None
        } else {
            Some(self.config.retry_interval)
        };
        Ok(EndpointWalk::new(&self.config.endpoints, start, passes, pause, "reconnect failed"))
    }

    /// What follows an attempt at an RPC: a transport-level failure
    /// ([`Error::Thrift`]) with auto-reconnect enabled calls for a reconnect
    /// and one retry; every other outcome is final. Server status errors pass
    /// through untouched.
    pub fn after_attempt<T>(&self, outcome: Result<T>) -> (next: AfterAttempt<T>)
        ensures
            next == if self@.config.enable_auto_reconnect && self@.is_open() && (
            outcome matches Err(Error::Thrift(_))) {
                AfterAttempt::Reconnect(outcome->Err_0)
            } else {
                AfterAttempt::Finish(outcome)
            },
    {
        match outcome {
            Err(Error::Thrift(e)) => {
                if self.config.enable_auto_reconnect && self.connection.is_some() {
                    AfterAttempt::Reconnect(Error::Thrift(e))
                } else {
                    AfterAttempt::Finish(Err(Error::Thrift(e)))
                }
            },
            other => AfterAttempt::Finish(other),
        }
    }

    /// What follows a reconnect: one more attempt, or, if the reconnect itself
    /// failed, the **original** error.
    pub fn after_reconnect(original: Error, reconnected: Result<()>) -> (next: AfterReconnect)
        ensures
            next == match reconnected {
                Ok(_) => AfterReconnect::TryAgain,
                Err(_) => AfterReconnect::Fail(original),
            },
    {
        match reconnected {
            Ok(_) => AfterReconnect::TryAgain,
            Err(_) => AfterReconnect::Fail(original),
        }
    }

    /// Whether the session has a connection.
    pub fn is_open(&self) -> (open: bool)
        ensures
            open == self@.is_open(),
    {
        self.connection.is_some()
    }

    /// The configuration the session was made with.
    pub fn config(&self) -> (config: &SessionConfig)
        ensures
            config@ == self@.config,
    {
        &self.config
    }

    /// The id that the server knows the session by; -1 where there is none.
    pub fn session_id(&self) -> (id: i64)
        ensures
            id == self@.session_id,
    {
        self.session_id
    }

    /// The database currently selected on this session, if any.
    pub fn database(&self) -> (database: Option<&str>)
        ensures
            match (database, self@.database) {
                (Some(db), Some(expected)) => db@ == expected,
                (None, None) => true,
                _ => false,
            },
    {
        match &self.database {
            Some(db) => Some(db.as_str()),
            None => None,
        }
    }

    /// The endpoint this session is currently connected to, if open.
    pub fn current_endpoint(&self) -> (endpoint: Option<&Endpoint>)
        ensures
            match (endpoint, self@.connection) {
                (Some(e), Some(c)) => *e == c.spec_endpoint(),
                (None, None) => true,
                _ => false,
            },
    {
        match &self.connection {
            Some(c) => Some(c.endpoint()),
            None => None,
        }
    }

    /// Marks the session as belonging to a pool.
    pub fn mark_pooled(&mut self)
        ensures
            final(self)@ == (SessionView { pooled: true, ..old(self)@ }),
    {
        self.pooled = true;
    }

    /// The cached redirect endpoint for `device_id`, if a status-400 insert
    /// response recommended one and the hint has not expired.
    ///
    /// The session itself does **not** act on these hints (it holds a
    /// single connection); [`crate::SessionPool::acquire_for_device`]
    /// consults them to prefer a matching idle session. See
    /// [`crate::client::redirect`] for the routing-honesty note.
    pub fn redirect_hint(&mut self, device_id: &str) -> (endpoint: Option<Endpoint>)
        requires
            old(self)@.wf(),
        ensures
            final(self)@.wf(),
            exists|now: Instant|
                {
                    &&& now.nanos <= MAX_DURATION_NANOS
                    &&& final(self)@ == (SessionView {
                        redirects: #[trigger] old(self)@.redirects.after_lookup(
                            device_id@,
                            now.nanos as int,
                        ),
                        ..old(self)@
                    })
                    &&& endpoint_found(
                        endpoint,
                        old(self)@.redirects.lookup(device_id@, now.nanos as int),
                    )
                },
    {
        self.redirect_cache.get(device_id)
    }

    /// [`Session::redirect_hint`] with the hint's insertion number: the higher,
    /// the newer.
    pub fn redirect_hint_with_seq(&mut self, device_id: &str) -> (hint: Option<(Endpoint, u64)>)
        requires
            old(self)@.wf(),
        ensures
            final(self)@.wf(),
            exists|now: Instant|
                {
                    &&& now.nanos <= MAX_DURATION_NANOS
                    &&& final(self)@ == (SessionView {
                        redirects: #[trigger] old(self)@.redirects.after_lookup(
                            device_id@,
                            now.nanos as int,
                        ),
                        ..old(self)@
                    })
                    &&& hint_found(
                        hint,
                        old(self)@.redirects.lookup(device_id@, now.nanos as int),
                    )
                },
    {
        let now = self.redirect_cache.now();
        self.redirect_cache.get_numbered_at(device_id, now)
    }

    /// Records a redirect hint, as a status-400 insert response would.
    pub fn remember_redirect(&mut self, device_id: &str, endpoint: Endpoint)
        requires
            old(self)@.wf(),
        ensures
            final(self)@.wf(),
            exists|now: Instant|
                now.nanos <= MAX_DURATION_NANOS && final(self)@ == (SessionView {
                    redirects: #[trigger] old(self)@.redirects.after_put(
                        device_id@,
                        endpoint@,
                        now.nanos as int,
                    ),
                    ..old(self)@
                }),
    {
        self.redirect_cache.put(device_id, endpoint);
    }

    /// Numbers the next redirect hints behind `seq`, so that hints of several
    /// sessions can be told apart by age.
    pub fn resume_hints_from(&mut self, seq: u64)
        requires
            old(self)@.wf(),
        ensures
            final(self)@.wf(),
            final(self)@ == (SessionView {
                redirects: old(self)@.redirects.resumed(seq),
                ..old(self)@
            }),
    {
        self.redirect_cache.resume_from(seq);
    }

    /// Occupancy/config snapshot of the redirect cache.
    pub fn redirect_cache_stats(&self) -> (stats: RedirectCacheStats)
        ensures
            stats.size == self@.redirects.hints.len(),
            stats.max_entries == self@.redirects.max_entries,
            stats.ttl.nanos == self@.redirects.ttl,
    {
        self.redirect_cache.stats()
    }

    /// Drop all cached redirect hints.
    pub fn clear_redirect_cache(&mut self)
        requires
            old(self)@.wf(),
        ensures
            final(self)@.wf(),
            final(self)@ == (SessionView {
                redirects: RedirectCacheView { hints: Seq::empty(), ..old(self)@.redirects },
                ..old(self)@
            }),
    {
        self.redirect_cache.clear();
    }

    /// Inspect an insert response for redirect hints before collapsing it
    /// into a `Result` — `check_status` treats 400 as plain success and
    /// would discard the recommended node.
    pub fn check_insert_status(&mut self, devices: &[&str], status: &TSStatus) -> (checked: Result<
        (),
    >)
        requires
            old(self)@.wf(),
        ensures
            final(self)@.wf(),
            checked is Ok <==> status_ok(*status),
            checked matches Err(e) ==> is_status_error(*status, e@),
            if old(self)@.config.enable_redirection {
                exists|now: Instant|
                    now.nanos <= MAX_DURATION_NANOS && final(self)@ == (SessionView {
                        redirects: #[trigger] old(self)@.redirects.after_recording(
                            str_texts(devices@),
                            *status,
                            now.nanos as int,
                            devices@.len(),
                        ),
                        ..old(self)@
                    })
            } else {
                final(self)@ == old(self)@
            },
    {
        if self.config.enable_redirection {
            record_redirects(&mut self.redirect_cache, devices, status);
        }
        check_status(status)
    }

    /// The connection, for issuing RPCs.
    pub fn connection_mut(&mut self) -> (connection: Result<&mut Connection<C>>)
        ensures
            match connection {
                Ok(c) => {
                    &&& old(self)@.connection == Some(*c)
                    &&& final(self)@ == (SessionView {
                        connection: Some(*final(c)),
                        ..old(self)@
                    })
                },
                Err(e) => {
                    &&& old(self)@.connection is None
                    &&& e@ == ErrorView::Client("session is not open"@)
                    &&& final(self)@ == old(self)@
                },
            },
    {
        match &mut self.connection {
            Some(c) => Ok(c),
            None => Err(not_open()),
        }
    }

    fn statement_req(&self, sql: &str) -> (req: TSExecuteStatementReq)
        ensures
            asks_statement(req, self@, sql@),
    {
        TSExecuteStatementReq {
            session_id: self.session_id,
            statement: sql.to_owned(),
            statement_id: self.statement_id,
            fetch_size: self.config.fetch_size,
            timeout: self.config.query_timeout_ms,
            enable_redirect_query: true,
            // false forces TsBlock queryResult responses
            jdbc_query: false,
        }
    }

    /// The request for a non-query statement (DDL/DML). It is to be asked for
    /// anew for every attempt: a reconnect refreshes the ids.
    pub fn execute_non_query(&self, sql: &str) -> (req: Result<TSExecuteStatementReq>)
        ensures
            match req {
                Ok(r) => self@.is_open() && asks_statement(r, self@, sql@),
                Err(e) => !self@.is_open() && e@ == ErrorView::Client("session is not open"@),
            },
    {
        if self.connection.is_none() {
            return Err(not_open());
        }
        Ok(self.statement_req(sql))
    }

    /// Takes in the answer to a non-query statement. Tracks `USE <db>` via
    /// the answer's `database` field.
    pub fn finish_non_query(&mut self, resp: TSExecuteStatementResp) -> (done: Result<()>)
        requires
            old(self)@.wf(),
        ensures
            final(self)@.wf(),
            match done {
                Ok(_) => {
                    &&& status_ok(resp.status)
                    &&& final(self)@ == (SessionView {
                        database: if resp.database is Some {
                            text_view(resp.database)
                        } else {
                            old(self)@.database
                        },
                        ..old(self)@
                    })
                },
                Err(e) => {
                    &&& !status_ok(resp.status)
                    &&& is_status_error(resp.status, e@)
                    &&& final(self)@ == old(self)@
                },
            },
    {
        match check_status(&resp.status) {
            Ok(_) => {},
            Err(e) => return Err(e),
        }
        match resp.database {
            Some(db) => {
                self.database = Some(db);
            },
            None => {},
        }
        Ok(())
    }

    /// The request for a query statement. Retrying covers only this initial
    /// RPC: once a query id exists, the result set is pinned to its node and
    /// cannot be migrated by a reconnect.
    pub fn execute_query(&self, sql: &str) -> (req: Result<TSExecuteStatementReq>)
        ensures
            match req {
                Ok(r) => self@.is_open() && asks_statement(r, self@, sql@),
                Err(e) => !self@.is_open() && e@ == ErrorView::Client("session is not open"@),
            },
    {
        if self.connection.is_none() {
            return Err(not_open());
        }
        Ok(self.statement_req(sql))
    }

    /// The raw result in the answer to a query statement: TsBlock bytes plus
    /// metadata.
    pub fn execute_query_raw(sql: &str, resp: TSExecuteStatementResp) -> (handle: Result<
        QueryHandle,
    >)
        ensures
            match handle {
                Ok(h) => {
                    &&& status_ok(resp.status)
                    &&& resp.query_id == Some(h.query_id)
                    &&& h.statement@ == sql@
                    &&& h.columns@ == list_or_empty(resp.columns)
                    &&& h.data_type_list@ == list_or_empty(resp.data_type_list)
                    &&& h.ignore_time_stamp == (resp.ignore_time_stamp == Some(true))
                    &&& h.query_result@ == list_or_empty(resp.query_result)
                    &&& h.more_data == (resp.more_data == Some(true))
                    &&& h.column_index2_ts_block_column_index_list
                        == resp.column_index2_ts_block_column_index_list
                },
                Err(e) => if status_ok(resp.status) {
                    &&& resp.query_id is None
                    &&& e@ == ErrorView::Client("query response missing queryId"@)
                } else {
                    is_status_error(resp.status, e@)
                },
            },
    {
        match check_status(&resp.status) {
            Ok(_) => {},
            Err(e) => return Err(e),
        }
        let query_id = match resp.query_id {
            Some(id) => id,
            None => return Err(Error::Client("query response missing queryId".to_owned())),
        };
        Ok(
            QueryHandle {
                query_id,
                statement: sql.to_owned(),
                columns: or_empty(resp.columns),
                data_type_list: or_empty(resp.data_type_list),
                ignore_time_stamp: or_false(resp.ignore_time_stamp),
                query_result: or_empty(resp.query_result),
                more_data: or_false(resp.more_data),
                column_index2_ts_block_column_index_list: resp.column_index2_ts_block_column_index_list,
            },
        )
    }

    /// The request for the next page of an open query.
    pub fn fetch_results(&self, query_id: i64, sql: &str) -> (req: Result<TSFetchResultsReq>)
        ensures
            match req {
                Ok(r) => {
                    &&& self@.is_open()
                    &&& r.session_id == self@.session_id
                    &&& r.statement@ == sql@
                    &&& r.fetch_size == self@.config.fetch_size
                    &&& r.query_id == query_id
                    &&& r.is_align
                    &&& r.timeout == self@.config.query_timeout_ms
                    &&& r.statement_id == self@.statement_id
                },
                Err(e) => !self@.is_open() && e@ == ErrorView::Client("session is not open"@),
            },
    {
        if self.connection.is_none() {
            return Err(not_open());
        }
        Ok(
            TSFetchResultsReq {
                session_id: self.session_id,
                statement: sql.to_owned(),
                fetch_size: self.config.fetch_size,
                query_id,
                is_align: true,
                timeout: self.config.query_timeout_ms,
                statement_id: self.statement_id,
            },
        )
    }

    /// The page in the answer to a fetch: the raw blocks and whether more data
    /// remains; empty when the set is exhausted.
    pub fn fetched_page(resp: TSFetchResultsResp) -> (page: Result<(Vec<Vec<u8>>, bool)>)
        ensures
            match page {
                Ok((blocks, more)) => {
                    &&& status_ok(resp.status)
                    &&& blocks@ == if resp.has_result_set {
                        list_or_empty(resp.query_result)
                    } else {
                        Seq::empty()
                    }
                    &&& more == (resp.has_result_set && resp.more_data == Some(true))
                },
                Err(e) => !status_ok(resp.status) && is_status_error(resp.status, e@),
            },
    {
        match check_status(&resp.status) {
            Ok(_) => {},
            Err(e) => return Err(e),
        }
        if !resp.has_result_set {
            return Ok((Vec::new(), false));
        }
        Ok((or_empty(resp.query_result), or_false(resp.more_data)))
    }

    /// The request that closes an open query result set; none where the session
    /// is not open. Closing is best-effort: its errors are swallowed.
    pub fn close_query(&self, query_id: i64) -> (req: Option<TSCloseOperationReq>)
        ensures
            req == if self@.is_open() {
                Some(
                    TSCloseOperationReq {
                        session_id: self@.session_id,
                        query_id,
                        statement_id: self@.statement_id,
                    },
                )
            } else {
                None
            },
    {
        if self.connection.is_none() {
            return None;
        }
        Some(
            TSCloseOperationReq {
                session_id: self.session_id,
                query_id,
                statement_id: self.statement_id,
            },
        )
    }

    /// The request that inserts a [`Tablet`] (tree or table model):
    /// column-major values with trailing null bitmaps, i64-BE timestamps,
    /// rows sorted by timestamp. Table-model tablets are sent with
    /// `writeToTable=true` plus their column categories, and are never
    /// aligned.
    pub fn insert_tablet(&self, tablet: &Tablet) -> (req: Result<InsertRequest>)
        requires
            tablet@.wf(),
            tablet@.serializable(),
        ensures
            match req {
                Ok(r) => {
                    &&& self@.is_open()
                    &&& r matches InsertRequest::Tablet(t)
                    &&& inserts_tablet(t, self@.session_id, tablet@)
                },
                Err(e) => !self@.is_open() && e@ == ErrorView::Client("session is not open"@),
            },
    {
        let req = build_insert_tablet_req(self.session_id, tablet);
        if self.connection.is_none() {
            return Err(not_open());
        }
        Ok(InsertRequest::Tablet(req))
    }

    /// The request that inserts a tablet from pre-serialized buffers.
    ///
    /// `values` is the column-major value buffer with trailing null bitmaps;
    /// `timestamps` is the `size × 8-byte i64 BE` buffer. Prefer the typed
    /// [`Session::insert_tablet`]; this is the low-level escape hatch.
    pub fn insert_tablet_raw(
        &self,
        prefix_path: &str,
        measurements: Vec<String>,
        types: Vec<i32>,
        values: Vec<u8>,
        timestamps: Vec<u8>,
        size: i32,
        is_aligned: bool,
        write_to_table: Option<bool>,
        column_categories: Option<Vec<i8>>,
    ) -> (req: Result<InsertRequest>)
        ensures
            match req {
                Ok(r) => {
                    &&& self@.is_open()
                    &&& r matches InsertRequest::Tablet(t)
                    &&& t == (TSInsertTabletReq {
                        session_id: self@.session_id,
                        prefix_path: t.prefix_path,
                        measurements,
                        values,
                        timestamps,
                        types,
                        size,
                        is_aligned: Some(is_aligned),
                        write_to_table,
                        column_categories,
                    })
                    &&& t.prefix_path@ == prefix_path@
                },
                Err(e) => !self@.is_open() && e@ == ErrorView::Client("session is not open"@),
            },
    {
        if self.connection.is_none() {
            return Err(not_open());
        }
        Ok(
            InsertRequest::Tablet(
                TSInsertTabletReq {
                    session_id: self.session_id,
                    prefix_path: prefix_path.to_owned(),
                    measurements,
                    values,
                    timestamps,
                    types,
                    size,
                    is_aligned: Some(is_aligned),
                    write_to_table,
                    column_categories,
                },
            ),
        )
    }

    /// The request that inserts a batch of [`Tablet`]s in one `insertTablets`
    /// RPC. Each tablet is serialized exactly like
    /// [`Session::insert_tablet`]. `is_aligned` applies to the **whole batch**
    /// (the RPC carries a single flag); the per-tablet aligned flag is
    /// ignored.
    ///
    /// Tree model only: the batch request has no `writeToTable` /
    /// `columnCategories` fields, so table-model tablets are rejected —
    /// send those one at a time via [`Session::insert_tablet`].
    pub fn insert_tablets(&self, tablets: &[Tablet], is_aligned: bool) -> (req: Result<
        InsertRequest,
    >)
        requires
            forall|i: int| 0 <= i < tablets@.len() ==> (#[trigger] tablets@[i])@.wf(),
            batch_serializable(tablets_view(tablets@)),
        ensures
            match req {
                Ok(r) => {
                    &&& self@.is_open()
                    &&& batch_complaint(tablets_view(tablets@)) is None
                    &&& r matches InsertRequest::Tablets(t)
                    &&& inserts_tablets(t, self@.session_id, tablets_view(tablets@), is_aligned)
                },
                Err(e) => match batch_complaint(tablets_view(tablets@)) {
                    Some(m) => e@ == ErrorView::Client(m),
                    None => !self@.is_open() && e@ == ErrorView::Client("session is not open"@),
                },
            },
    {
        match build_insert_tablets_req(self.session_id, tablets, is_aligned) {
            Ok(req) => {
                if self.connection.is_none() {
                    return Err(not_open());
                }
                Ok(InsertRequest::Tablets(req))
            },
            Err(e) => Err(e),
        }
    }

    /// [`Session::insert_tablets`] against aligned devices.
    pub fn insert_aligned_tablets(&self, tablets: &[Tablet]) -> (req: Result<InsertRequest>)
        requires
            forall|i: int| 0 <= i < tablets@.len() ==> (#[trigger] tablets@[i])@.wf(),
            batch_serializable(tablets_view(tablets@)),
        ensures
            match req {
                Ok(r) => {
                    &&& self@.is_open()
                    &&& batch_complaint(tablets_view(tablets@)) is None
                    &&& r matches InsertRequest::Tablets(t)
                    &&& inserts_tablets(t, self@.session_id, tablets_view(tablets@), true)
                },
                Err(e) => match batch_complaint(tablets_view(tablets@)) {
                    Some(m) => e@ == ErrorView::Client(m),
                    None => !self@.is_open() && e@ == ErrorView::Client("session is not open"@),
                },
            },
    {
        self.insert_tablets(tablets, true)
    }

    /// The request that inserts one row for one device via `insertRecord`.
    /// `values[i]` pairs with `measurements[i]`. The value buffer is
    /// row-oriented (per-cell type marker + big-endian payload), unlike the
    /// tablet's column-major layout.
    ///
    /// [`Value::Null`] cells are dropped together with their measurement
    /// before sending (the server rejects null cells against registered
    /// series); an all-null row is an error.
    pub fn insert_record(
        &self,
        device_id: &str,
        timestamp: i64,
        measurements: Vec<String>,
        values: &[Value],
        is_aligned: bool,
    ) -> (req: Result<InsertRequest>)
        ensures
            match req {
                Ok(r) => {
                    &&& self@.is_open()
                    &&& record_complaint(texts(measurements@), values_view(values@)) is None
                    &&& r matches InsertRequest::Record(t)
                    &&& inserts_record(
                        t,
                        self@.session_id,
                        device_id@,
                        timestamp,
                        texts(measurements@),
                        values_view(values@),
                        is_aligned,
                    )
                },
                Err(e) => match record_complaint(texts(measurements@), values_view(values@)) {
                    Some(m) => e@ == ErrorView::Client(m),
                    None => !self@.is_open() && e@ == ErrorView::Client("session is not open"@),
                },
            },
    {
        match build_insert_record_req(
            self.session_id,
            device_id,
            timestamp,
            measurements,
            values,
            is_aligned,
        ) {
            Ok(req) => {
                if self.connection.is_none() {
                    return Err(not_open());
                }
                Ok(InsertRequest::Record(req))
            },
            Err(e) => Err(e),
        }
    }

    /// The request that inserts one row per device via `insertRecords`
    /// (multi-device batch). `device_ids`, `timestamps`, `measurements_list`
    /// and `values_list` must have equal length; row `i` targets
    /// `device_ids[i]`.
    ///
    /// Null cells are dropped per row; rows that end up all-null are dropped
    /// entirely. An all-null batch is an error.
    pub fn insert_records(
        &self,
        device_ids: Vec<String>,
        timestamps: Vec<i64>,
        measurements_list: Vec<Vec<String>>,
        values_list: &[Vec<Value>],
        is_aligned: bool,
    ) -> (req: Result<InsertRequest>)
        ensures
            match (
                req,
                records_to_send(
                    device_ids@.len(),
                    timestamps@.len(),
                    text_lists(measurements_list@),
                    value_lists(values_list@),
                ),
            ) {
                (Ok(r), Ok(kept)) => {
                    &&& self@.is_open()
                    &&& r matches InsertRequest::Records(t)
                    &&& inserts_records(
                        t,
                        self@.session_id,
                        texts(device_ids@),
                        timestamps@,
                        text_lists(measurements_list@),
                        value_lists(values_list@),
                        is_aligned,
                        kept,
                    )
                },
                (Err(e), Err(m)) => e@ == ErrorView::Client(m),
                (Err(e), Ok(_)) => !self@.is_open() && e@ == ErrorView::Client(
                    "session is not open"@,
                ),
                (Ok(_), Err(_)) => false,
            },
    {
        match build_insert_records_req(
            self.session_id,
            device_ids,
            timestamps,
            measurements_list,
            values_list,
            is_aligned,
        ) {
            Ok(req) => {
                if self.connection.is_none() {
                    return Err(not_open());
                }
                Ok(InsertRequest::Records(req))
            },
            Err(e) => Err(e),
        }
    }

    /// The request that inserts multiple rows for one device via
    /// `insertRecordsOfOneDevice`. Rows are stably sorted by timestamp
    /// client-side first (the server requires ascending time).
    ///
    /// Null cells are dropped per row; rows that end up all-null are dropped
    /// entirely. An all-null batch is an error.
    pub fn insert_records_of_one_device(
        &self,
        device_id: &str,
        timestamps: Vec<i64>,
        measurements_list: Vec<Vec<String>>,
        values_list: &[Vec<Value>],
        is_aligned: bool,
    ) -> (req: Result<InsertRequest>)
        ensures
            match (
                req,
                one_device_rows_to_send(
                    timestamps@.len(),
                    text_lists(measurements_list@),
                    value_lists(values_list@),
                ),
            ) {
                (Ok(r), Ok(kept)) => {
                    &&& self@.is_open()
                    &&& r matches InsertRequest::RecordsOfOneDevice(t)
                    &&& inserts_one_device(
                        t,
                        self@.session_id,
                        device_id@,
                        timestamps@,
                        text_lists(measurements_list@),
                        value_lists(values_list@),
                        is_aligned,
                        send_order(timestamps@, kept),
                    )
                },
                (Err(e), Err(m)) => e@ == ErrorView::Client(m),
                (Err(e), Ok(_)) => !self@.is_open() && e@ == ErrorView::Client(
                    "session is not open"@,
                ),
                (Ok(_), Err(_)) => false,
            },
    {
        match build_insert_records_of_one_device_req(
            self.session_id,
            device_id,
            timestamps,
            measurements_list,
            values_list,
            is_aligned,
        ) {
            Ok(req) => {
                if self.connection.is_none() {
                    return Err(not_open());
                }
                Ok(InsertRequest::RecordsOfOneDevice(req))
            },
            Err(e) => Err(e),
        }
    }

    /// [`Session::insert_record`] against an aligned device
    /// (`isAligned=true` on the same RPC).
    pub fn insert_aligned_record(
        &self,
        device_id: &str,
        timestamp: i64,
        measurements: Vec<String>,
        values: &[Value],
    ) -> (req: Result<InsertRequest>)
        ensures
            match req {
                Ok(r) => {
                    &&& self@.is_open()
                    &&& record_complaint(texts(measurements@), values_view(values@)) is None
                    &&& r matches InsertRequest::Record(t)
                    &&& inserts_record(
                        t,
                        self@.session_id,
                        device_id@,
                        timestamp,
                        texts(measurements@),
                        values_view(values@),
                        true,
                    )
                },
                Err(e) => match record_complaint(texts(measurements@), values_view(values@)) {
                    Some(m) => e@ == ErrorView::Client(m),
                    None => !self@.is_open() && e@ == ErrorView::Client("session is not open"@),
                },
            },
    {
        self.insert_record(device_id, timestamp, measurements, values, true)
    }

    /// [`Session::insert_records`] against aligned devices.
    pub fn insert_aligned_records(
        &self,
        device_ids: Vec<String>,
        timestamps: Vec<i64>,
        measurements_list: Vec<Vec<String>>,
        values_list: &[Vec<Value>],
    ) -> (req: Result<InsertRequest>)
        ensures
            match (
                req,
                records_to_send(
                    device_ids@.len(),
                    timestamps@.len(),
                    text_lists(measurements_list@),
                    value_lists(values_list@),
                ),
            ) {
                (Ok(r), Ok(kept)) => {
                    &&& self@.is_open()
                    &&& r matches InsertRequest::Records(t)
                    &&& inserts_records(
                        t,
                        self@.session_id,
                        texts(device_ids@),
                        timestamps@,
                        text_lists(measurements_list@),
                        value_lists(values_list@),
                        true,
                        kept,
                    )
                },
                (Err(e), Err(m)) => e@ == ErrorView::Client(m),
                (Err(e), Ok(_)) => !self@.is_open() && e@ == ErrorView::Client(
                    "session is not open"@,
                ),
                (Ok(_), Err(_)) => false,
            },
    {
        self.insert_records(device_ids, timestamps, measurements_list, values_list, true)
    }

    /// [`Session::insert_records_of_one_device`] against an aligned device.
    pub fn insert_aligned_records_of_one_device(
        &self,
        device_id: &str,
        timestamps: Vec<i64>,
        measurements_list: Vec<Vec<String>>,
        values_list: &[Vec<Value>],
    ) -> (req: Result<InsertRequest>)
        ensures
            match (
                req,
                one_device_rows_to_send(
                    timestamps@.len(),
                    text_lists(measurements_list@),
                    value_lists(values_list@),
                ),
            ) {
                (Ok(r), Ok(kept)) => {
                    &&& self@.is_open()
                    &&& r matches InsertRequest::RecordsOfOneDevice(t)
                    &&& inserts_one_device(
                        t,
                        self@.session_id,
                        device_id@,
                        timestamps@,
                        text_lists(measurements_list@),
                        value_lists(values_list@),
                        true,
                        send_order(timestamps@, kept),
                    )
                },
                (Err(e), Err(m)) => e@ == ErrorView::Client(m),
                (Err(e), Ok(_)) => !self@.is_open() && e@ == ErrorView::Client(
                    "session is not open"@,
                ),
                (Ok(_), Err(_)) => false,
            },
    {
        self.insert_records_of_one_device(
            device_id,
            timestamps,
            measurements_list,
            values_list,
            true,
        )
    }

    /// Takes in the answer to an insert: harvests its redirect hints and
    /// reports its status.
    pub fn finish_insert(&mut self, req: &InsertRequest, status: &TSStatus) -> (done: Result<()>)
        requires
            old(self)@.wf(),
        ensures
            final(self)@.wf(),
            done is Ok <==> status_ok(*status),
            done matches Err(e) ==> is_status_error(*status, e@),
            if old(self)@.config.enable_redirection {
                exists|now: Instant|
                    now.nanos <= MAX_DURATION_NANOS && final(self)@ == (SessionView {
                        redirects: #[trigger] old(self)@.redirects.after_recording(
                            req.targets(),
                            *status,
                            now.nanos as int,
                            req.targets().len(),
                        ),
                        ..old(self)@
                    })
            } else {
                final(self)@ == old(self)@
            },
    {
        let devices = req.devices();
        self.check_insert_status(devices.as_slice(), status)
    }

    /// Closes the session: gives up the connection, with the request that
    /// tells the server (best-effort), and forgets the ids. Closing a session
    /// that is not open is fine.
    pub fn close(&mut self) -> (closing: Result<Option<(Connection<C>, TSCloseSessionReq)>>)
        requires
            old(self)@.wf(),
        ensures
            final(self)@.wf(),
            final(self)@ == old(self)@.after_close(),
            closing == Ok::<_, Error>(
                match old(self)@.connection {
                    Some(c) => Some(
                        (c, TSCloseSessionReq { session_id: old(self)@.session_id }),
                    ),
                    None => None,
                },
            ),
    {
        let session_id = self.session_id;
        let connection = self.connection.take();
        self.session_id = -1;
        self.statement_id = -1;
        match connection {
            Some(c) => Ok(Some((c, TSCloseSessionReq { session_id }))),
            None => Ok(None),
        }
    }
}

/// Key and value texts.
pub open spec fn pairs_view(pairs: Seq<(String, String)>) -> Seq<(Seq<char>, Seq<char>)> {
    pairs.map_values(|p: (String, String)| (p.0@, p.1@))
}

/// What a session tells the server when it opens, in key order.
pub open spec fn session_configuration(dialect: Seq<char>, database: Option<Seq<char>>) -> Seq<
    (Seq<char>, Seq<char>),
> {
    match database {
        Some(db) => seq![("db"@, db), ("sql_dialect"@, dialect)],
        None => seq![("sql_dialect"@, dialect)],
    }
}

/// Whether an endpoint and a number are those of the hint that was found.
pub open spec fn hint_found(found: Option<(Endpoint, u64)>, hint: Option<HintView>) -> bool {
    match (found, hint) {
        (Some((e, seq)), Some(h)) => e@ == h.endpoint && seq == h.seq,
        (None, None) => true,
        _ => false,
    }
}

/// A list; an absent one is empty.
pub open spec fn list_or_empty<T>(list: Option<Vec<T>>) -> Seq<T> {
    match list {
        Some(v) => v@,
        None => Seq::empty(),
    }
}

fn or_empty<T>(list: Option<Vec<T>>) -> (v: Vec<T>)
    ensures
        v@ == list_or_empty(list),
{
    match list {
        Some(v) => v,
        None => Vec::new(),
    }
}

fn or_false(flag: Option<bool>) -> (b: bool)
    ensures
        b == (flag == Some(true)),
{
    match flag {
        Some(b) => b,
        None => false,
    }
}

/// A session that is closed is not open, and stays so however often it is
/// closed; what it remembers of databases, endpoints and hints is kept.
pub proof fn law_closing_is_idempotent<C>(s: SessionView<C>)
    ensures
        !s.after_close().is_open(),
        s.after_close().after_close() == s.after_close(),
        s.after_close().database == s.database,
        s.after_close().last_endpoint == s.last_endpoint,
        s.after_close().redirects == s.redirects,
{
}

/// A reconnect begins at the endpoint that was last connected to, where that is
/// one of the configured ones.
pub proof fn law_reconnect_begins_where_it_was(
    endpoints: Seq<EndpointView>,
    last: EndpointView,
    at: int,
)
    requires
        0 <= at < endpoints.len(),
        endpoints[at] == last,
    ensures
        0 <= reconnect_start(endpoints, Some(last)) <= at,
        endpoints[reconnect_start(endpoints, Some(last))] == last,
        rotated(endpoints, reconnect_start(endpoints, Some(last)))[0] == last,
{
    lemma_first_position_found(endpoints, last, at, endpoints.len());
    let start = reconnect_start(endpoints, Some(last));
    assert((start + 0) % endpoints.len() as int == start) by (nonlinear_arith)
        requires
            0 <= start < endpoints.len(),
    ;
}

proof fn lemma_first_position_found(
    endpoints: Seq<EndpointView>,
    e: EndpointView,
    at: int,
    k: nat,
)
    requires
        k <= endpoints.len(),
    ensures
        0 <= at < k && endpoints[at] == e ==> (first_position(endpoints, e, k) matches Some(i) && 0
            <= i <= at && endpoints[i] == e),
    decreases k,
{
    if k > 0 {
        lemma_first_position_found(endpoints, e, at, (k - 1) as nat);
        lemma_first_position_sound(endpoints, e, (k - 1) as nat);
    }
}

proof fn lemma_first_position_sound(endpoints: Seq<EndpointView>, e: EndpointView, k: nat)
    requires
        k <= endpoints.len(),
    ensures
        first_position(endpoints, e, k) matches Some(i) ==> 0 <= i < k && endpoints[i] == e,
    decreases k,
{
    if k > 0 {
        lemma_first_position_sound(endpoints, e, (k - 1) as nat);
    }
}

} // verus!
