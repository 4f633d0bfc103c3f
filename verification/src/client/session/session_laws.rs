//! What sessions make of answers, and what they hand to the server.

use vstd::prelude::*;

use super::walk::{repeated, rotated, WalkView};
use super::{
    asks_statement, first_position, hint_found, is_status_error, list_or_empty, reconnect_passes,
    reconnect_start, session_configuration, status_ok, InsertRequest, SessionView,
};
use crate::client::redirect::HintView;
use crate::client::session::config::SessionConfigView;
use crate::connection::{Endpoint, EndpointView};
use crate::error::ErrorView;
use crate::protocol::{TSExecuteStatementReq, TSStatus};

verus! {

/// A batch status reports success if and only if each of its sub-statuses
/// does; one without a list of sub-statuses does.
pub proof fn law_batch_succeeds_with_all_its_parts(status: TSStatus)
    requires
        status.code == 302,
    ensures
        status.sub_status matches Some(subs) ==> (status_ok(status) <==> forall|i: int|
            0 <= i < subs@.len() ==> status_ok(*(#[trigger] subs@[i]))),
        status.sub_status is None ==> status_ok(status),
{
}

/// One failed part fails the whole batch, wherever it stands, and the error is
/// that of the first part that failed: its code and its message, an absent
/// message being empty.
pub proof fn law_first_failed_part_is_reported(
    status: TSStatus,
    subs: Seq<Box<TSStatus>>,
    i: int,
    error: ErrorView,
)
    requires
        status.code == 302,
        status.sub_status is Some,
        subs == status.sub_status->0@,
        0 <= i < subs.len(),
        !status_ok(*subs[i]),
    ensures
        !status_ok(status),
        is_status_error(status, error) && (forall|j: int|
            0 <= j < i ==> status_ok(*(#[trigger] subs[j]))) ==> {
            &&& error is Server
            &&& error->code == subs[i].code
            &&& subs[i].message matches Some(m) ==> error->message == m@
            &&& subs[i].message is None ==> error->message.len() == 0
        },
{
    if is_status_error(status, error) && (forall|j: int|
        0 <= j < i ==> status_ok(*(#[trigger] subs[j]))) {
        let k = choose|k: int|
            {
                &&& 0 <= k < status.sub_status->0@.len()
                &&& !status_ok(*(#[trigger] status.sub_status->0@[k]))
                &&& forall|j: int| 0 <= j < k ==> status_ok(*(#[trigger] status.sub_status->0@[j]))
                &&& error == super::server_error(*status.sub_status->0@[k])
            };
        if k < i {
            assert(status_ok(*subs[k]));
        }
        if i < k {
            assert(status_ok(*status.sub_status->0@[i]));
        }
        assert(k == i);
    }
}

/// A status that is neither a success, a redirect nor a batch fails with its own
/// code and message, an absent message being empty.
pub proof fn law_failed_status_is_reported(status: TSStatus, error: ErrorView)
    requires
        status.code != 200,
        status.code != 400,
        status.code != 302,
    ensures
        !status_ok(status),
        is_status_error(status, error) ==> {
            &&& error is Server
            &&& error->code == status.code
            &&& status.message matches Some(m) ==> error->message == m@
            &&& status.message is None ==> error->message.len() == 0
        },
{
}

proof fn lemma_first_position(endpoints: Seq<EndpointView>, e: EndpointView, k: nat)
    ensures
        match first_position(endpoints, e, k) {
            Some(i) => 0 <= i < k && endpoints[i] == e && forall|j: int|
                0 <= j < i ==> #[trigger] endpoints[j] != e,
            None => forall|j: int| 0 <= j < k ==> #[trigger] endpoints[j] != e,
        },
    decreases k,
{
    if k > 0 {
        lemma_first_position(endpoints, e, (k - 1) as nat);
    }
}

/// A reconnect starts at the first configured endpoint that is the one last
/// connected to; at the first of all where none is, or where there was no
/// connection yet.
pub proof fn law_reconnect_start(endpoints: Seq<EndpointView>, last: Option<EndpointView>)
    requires
        endpoints.len() > 0,
    ensures
        0 <= reconnect_start(endpoints, last) < endpoints.len(),
        last is None ==> reconnect_start(endpoints, last) == 0,
        last matches Some(e) ==> {
            let start = reconnect_start(endpoints, last);
            &&& endpoints[start] == e || start == 0 && !endpoints.contains(e)
            &&& forall|j: int| 0 <= j < start ==> #[trigger] endpoints[j] != e
        },
{
    if let Some(e) = last {
        lemma_first_position(endpoints, e, endpoints.len());
    }
}

/// A reconnect makes as many passes as it is given attempts, and one where it is
/// given none.
pub proof fn law_reconnect_passes(config: SessionConfigView)
    ensures
        reconnect_passes(config) >= 1,
        config.max_reconnect_attempts >= 1 ==> reconnect_passes(config)
            == config.max_reconnect_attempts,
        config.max_reconnect_attempts == 0 ==> reconnect_passes(config) == 1,
{
}

/// A pass tries all endpoints in their order from its start on, and then those
/// before it.
pub proof fn law_pass_goes_around(endpoints: Seq<EndpointView>, start: int, i: int)
    requires
        0 <= start < endpoints.len(),
        0 <= i < endpoints.len(),
    ensures
        rotated(endpoints, start).len() == endpoints.len(),
        i < endpoints.len() - start ==> rotated(endpoints, start)[i] == endpoints[start + i],
        i >= endpoints.len() - start ==> rotated(endpoints, start)[i] == endpoints[start + i
            - endpoints.len()],
{
    let n = endpoints.len() as int;
    assert((start + i) % n == if start + i < n {
        start + i
    } else {
        start + i - n
    }) by (nonlinear_arith)
        requires
            0 <= start < n,
            0 <= i < n,
    ;
}

/// Passes follow one another in the same order: the endpoint tried after a
/// whole pass is the one tried first.
pub proof fn law_passes_repeat(order: Seq<EndpointView>, passes: nat, i: int)
    requires
        0 <= i < passes * order.len(),
    ensures
        repeated(order, passes).len() == passes * order.len(),
        i < order.len() ==> repeated(order, passes)[i] == order[i],
        i >= order.len() ==> repeated(order, passes)[i] == repeated(order, passes)[i - order.len()],
    decreases passes,
{
    let n = order.len() as int;
    lemma_repeated_len(order, passes);
    assert(passes > 0) by (nonlinear_arith)
        requires
            0 <= i < passes * n,
            n >= 0,
    ;
    let fewer = (passes - 1) as nat;
    assert(passes * n == fewer * n + n) by (nonlinear_arith)
        requires
            fewer == passes - 1,
    ;
    lemma_repeated_len(order, fewer);
    if i >= n {
        let rest = repeated(order, fewer);
        assert(repeated(order, passes)[i] == rest[i - n]);
        law_passes_repeat(order, fewer, i - n);
        if i - n < n {
        } else {
            assert(rest[i - n] == rest[i - n - n]);
            assert(repeated(order, passes)[i - n] == rest[i - n - n]);
        }
    }
}

proof fn lemma_repeated_len(s: Seq<EndpointView>, n: nat)
    ensures
        repeated(s, n).len() == n * s.len(),
    decreases n,
{
    if n > 0 {
        lemma_repeated_len(s, (n - 1) as nat);
        assert(n * s.len() == (n - 1) * s.len() + s.len()) by (nonlinear_arith)
            requires
                n > 0,
        ;
    } else {
        assert(n * s.len() == 0) by (nonlinear_arith)
            requires
                n == 0,
        ;
    }
}

/// A new pass begins only when every endpoint has been tried in this one and
/// another pass is left; it begins with the first endpoint.
pub proof fn law_next_pass_begins(walk: WalkView)
    requires
        walk.wf(),
    ensures
        ({
            let at = walk.ready();
            let over = walk.index == walk.endpoints.len() && walk.pass + 1 < walk.passes;
            &&& over ==> at.pass == walk.pass + 1 && at.index == 0 && !at.paused
            &&& !over ==> at == walk
            &&& at.endpoints == walk.endpoints
            &&& at.passes == walk.passes
            &&& at.pause == walk.pause
            &&& at.last_error == walk.last_error
            &&& at.fallback == walk.fallback
        }),
{
}

/// Walks pause between passes and nowhere else: never where no pause is set,
/// never in the first pass, never in the midst of a pass, and once before each
/// further pass.
pub proof fn law_pauses_come_between_passes(walk: WalkView)
    requires
        walk.wf(),
    ensures
        walk.pause is None ==> !walk.ready().pause_due(),
        walk.ready().pass == 0 ==> !walk.ready().pause_due(),
        walk.ready().index > 0 ==> !walk.ready().pause_due(),
        !(WalkView { paused: true, ..walk.ready() }).pause_due(),
        walk.pause is Some && walk.index == walk.endpoints.len() && walk.pass + 1 < walk.passes
            ==> walk.ready().pause_due(),
        walk.pause is Some && walk.index == 0 && walk.pass > 0 && !walk.paused
            ==> walk.ready().pause_due(),
{
}

/// Readdressing a request changes nothing but the session it is for: addressed
/// back, it is the request it was, and it writes to the same targets.
pub proof fn law_readdressing_changes_the_session_only(
    request: InsertRequest,
    session_id: i64,
    other: i64,
)
    ensures
        request.for_session(session_id).targets() == request.targets(),
        request.for_session(other).for_session(session_id) == request.for_session(session_id),
        match request {
            InsertRequest::Tablet(r) => request.for_session(r.session_id) == request
                && request.for_session(session_id)->Tablet_0.session_id == session_id,
            InsertRequest::Tablets(r) => request.for_session(r.session_id) == request
                && request.for_session(session_id)->Tablets_0.session_id == session_id,
            InsertRequest::Record(r) => request.for_session(r.session_id) == request
                && request.for_session(session_id)->Record_0.session_id == session_id,
            InsertRequest::Records(r) => request.for_session(r.session_id) == request
                && request.for_session(session_id)->Records_0.session_id == session_id,
            InsertRequest::RecordsOfOneDevice(r) => request.for_session(r.session_id) == request
                && request.for_session(session_id)->RecordsOfOneDevice_0.session_id == session_id,
        },
{
}

/// The targets of a request are the paths it carries, in order: one for a single
/// tablet, row or device, one per entry of a batch.
pub proof fn law_targets_are_the_paths(request: InsertRequest)
    ensures
        request matches InsertRequest::Tablet(r) ==> request.targets().len() == 1
            && request.targets()[0] == r.prefix_path@,
        request matches InsertRequest::Record(r) ==> request.targets().len() == 1
            && request.targets()[0] == r.prefix_path@,
        request matches InsertRequest::RecordsOfOneDevice(r) ==> request.targets().len() == 1
            && request.targets()[0] == r.prefix_path@,
        request matches InsertRequest::Tablets(r) ==> request.targets().len()
            == r.prefix_paths@.len() && forall|i: int|
            0 <= i < r.prefix_paths@.len() ==> #[trigger] request.targets()[i]
                == r.prefix_paths@[i]@,
        request matches InsertRequest::Records(r) ==> request.targets().len()
            == r.prefix_paths@.len() && forall|i: int|
            0 <= i < r.prefix_paths@.len() ==> #[trigger] request.targets()[i]
                == r.prefix_paths@[i]@,
{
}

/// Closing takes the connection and both ids from a session, and nothing else.
pub proof fn law_closing_takes_connection_and_ids<C>(s: SessionView<C>)
    ensures
        s.after_close().connection is None,
        s.after_close().session_id == -1,
        s.after_close().statement_id == -1,
        s.after_close().config == s.config,
        s.after_close().database == s.database,
        s.after_close().last_endpoint == s.last_endpoint,
        s.after_close().redirects == s.redirects,
        s.after_close().pooled == s.pooled,
        s.wf() ==> s.after_close().wf(),
{
}

/// A session is open if and only if it has a connection.
pub proof fn law_open_means_connected<C>(s: SessionView<C>)
    ensures
        s.is_open() <==> s.connection is Some,
        s.wf() && s.is_open() ==> s.last_endpoint == Some(s.connection->0.spec_endpoint()@),
{
}

/// A session opens with its dialect always, and with its database under the key
/// `db` where it has one, before the dialect.
pub proof fn law_configuration_names_dialect_and_database(
    dialect: Seq<char>,
    database: Option<Seq<char>>,
)
    ensures
        session_configuration(dialect, database).last() == ("sql_dialect"@, dialect),
        database is None ==> session_configuration(dialect, database).len() == 1,
        database matches Some(db) ==> session_configuration(dialect, database).len() == 2
            && session_configuration(dialect, database)[0] == ("db"@, db),
{
}

/// A statement request carries the statement as it was given, with the ids and
/// the limits of the session; it allows redirection and asks for blocks.
pub proof fn law_statement_request<C>(
    req: TSExecuteStatementReq,
    session: SessionView<C>,
    sql: Seq<char>,
)
    requires
        asks_statement(req, session, sql),
    ensures
        req.statement@ == sql,
        req.session_id == session.session_id,
        req.statement_id == session.statement_id,
        req.fetch_size == session.config.fetch_size,
        req.timeout == session.config.query_timeout_ms,
        req.enable_redirect_query == true,
        req.jdbc_query == false,
{
}

/// A hint is reported if and only if there is one, with its endpoint and its
/// number.
pub proof fn law_hint_is_reported(found: Option<(Endpoint, u64)>, hint: Option<HintView>)
    requires
        hint_found(found, hint),
    ensures
        found is Some <==> hint is Some,
        hint matches Some(h) ==> (found matches Some(f) && f.0@ == h.endpoint && f.1 == h.seq),
{
}

/// An absent list reads as an empty one, and a list as itself.
pub proof fn law_absent_lists_are_empty<T>(list: Option<Vec<T>>)
    ensures
        list is None ==> list_or_empty(list).len() == 0,
        list matches Some(v) ==> list_or_empty(list) == v@,
{
}

} // verus!
