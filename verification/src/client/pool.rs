//! Session pools: a bounded set of open sessions, eagerly grown to `min_size`
//! and lazily to `max_size`.
//!
//! A pool decides; whoever owns it opens and closes connections, waits and
//! sends statements as it says, and reports back what came of it. Round-robin
//! endpoint spread happens naturally via the rotating start index handed to
//! [`Session::open`].

use std::collections::VecDeque;
use vstd::prelude::*;
use vstd::string::*;

use crate::client::redirect::{
    expired, law_resumed_hints_are_newer, str_texts, RedirectCacheView,
};
use crate::client::session::config::{endpoints_of, SessionConfigView};
use crate::client::session::walk::error_view;
use crate::client::session::{hint_found, Session, SessionConfig, SessionView};
use crate::connection::tls::{copy_text, text_view};
use crate::connection::{same_node, Endpoint, EndpointView};
use crate::error::{Error, ErrorView, Result};
use crate::text::{decimal, push_decimal};
use crate::time::{
    elapsed, shown_duration, Duration, Instant, MAX_DURATION_NANOS, MAX_INSTANT_NANOS,
};

verus! {

/// Configuration for a [`SessionPool`] (or [`TableSessionPool`]).
///
/// `session` carries the per-connection settings — node urls,
/// user/password, dialect/database, connect timeout — shared by every
/// pooled session.
#[derive(Debug)]
pub struct SessionPoolConfig {
    pub session: SessionConfig,
    /// Upper bound on live sessions (idle + handed out). Default 8.
    pub max_size: usize,
    /// Sessions opened eagerly when the pool is created. Default 0.
    pub min_size: usize,
    /// How long an acquire waits for an idle session once the pool is at
    /// `max_size`. Default 60 s.
    pub acquire_timeout: Duration,
    /// Idle sessions unused for longer than this are closed by the lazy
    /// sweep (never shrinking the pool below `min_size`). Default 60 s.
    pub max_idle_time: Duration,
    /// Minimum time between idle sweeps. There is **no** timer thread —
    /// the sweep runs lazily on pool activity (acquire/release) once this
    /// much time has passed since the previous sweep, so a completely idle
    /// pool keeps its sessions until the next acquire. Default 30 s.
    pub idle_sweep_interval: Duration,
}

/// A pool configuration with its texts as character sequences.
#[verifier::ext_equal]
pub struct PoolConfigView {
    pub session: SessionConfigView,
    pub max_size: usize,
    pub min_size: usize,
    pub acquire_timeout: Duration,
    pub max_idle_time: Duration,
    pub idle_sweep_interval: Duration,
}

impl View for SessionPoolConfig {
    type V = PoolConfigView;

    open spec fn view(&self) -> PoolConfigView {
        PoolConfigView {
            session: self.session@,
            max_size: self.max_size,
            min_size: self.min_size,
            acquire_timeout: self.acquire_timeout,
            max_idle_time: self.max_idle_time,
            idle_sweep_interval: self.idle_sweep_interval,
        }
    }
}

impl Default for SessionPoolConfig {
    fn default() -> (config: SessionPoolConfig)
        ensures
            config@ == (PoolConfigView {
                session: crate::client::session::config::default_session_config(),
                max_size: 8,
                min_size: 0,
                acquire_timeout: Duration { nanos: 60_000_000_000 },
                max_idle_time: Duration { nanos: 60_000_000_000 },
                idle_sweep_interval: Duration { nanos: 30_000_000_000 },
            }),
    {
        SessionPoolConfig {
            session: SessionConfig::default(),
            max_size: 8,
            min_size: 0,
            acquire_timeout: Duration::from_secs(60),
            max_idle_time: Duration::from_secs(60),
            idle_sweep_interval: Duration::from_secs(30),
        }
    }
}

impl Clone for SessionPoolConfig {
    fn clone(&self) -> (copy: SessionPoolConfig)
        ensures
            copy@ == self@,
    {
        SessionPoolConfig {
            session: self.session.clone(),
            max_size: self.max_size,
            min_size: self.min_size,
            acquire_timeout: self.acquire_timeout,
            max_idle_time: self.max_idle_time,
            idle_sweep_interval: self.idle_sweep_interval,
        }
    }
}

impl SessionPoolConfig {
    /// Set endpoints from `"host:port"` node-url strings.
    pub fn with_node_urls(self, node_urls: &[&str]) -> (config: Result<SessionPoolConfig>)
        ensures
            match (config, endpoints_of(str_texts(node_urls@), node_urls@.len())) {
                (Ok(c), Ok(endpoints)) => c@ == (PoolConfigView {
                    session: SessionConfigView { endpoints, ..self@.session },
                    ..self@
                }),
                (Err(e), Err(m)) => e@ == ErrorView::Client(m),
                _ => false,
            },
    {
        match self.session.with_node_urls(node_urls) {
            Ok(session) => Ok(
                SessionPoolConfig {
                    session,
                    max_size: self.max_size,
                    min_size: self.min_size,
                    acquire_timeout: self.acquire_timeout,
                    max_idle_time: self.max_idle_time,
                    idle_sweep_interval: self.idle_sweep_interval,
                },
            ),
            Err(e) => Err(e),
        }
    }
}

/// An idle session together with the moment it went idle, so the sweep
/// can measure how long it has been unused.
#[derive(Debug)]
struct IdleEntry<C> {
    session: Session<C>,
    since: Instant,
}

/// A pool of open tree-model [`Session`]s.
///
/// Sessions are created lazily up to `max_size` (after the eager
/// `min_size`); an acquire waits up to `acquire_timeout` when the pool is
/// exhausted. Dead sessions are discarded on acquire and on release; sessions
/// idle longer than `max_idle_time` are closed by a lazy sweep that runs on
/// pool activity (no timer thread — see
/// [`SessionPoolConfig::idle_sweep_interval`]), never shrinking the pool
/// below `min_size`. The pool tracks the most recent `USE <db>` seen on any
/// released session and replays it on acquire so every handed-out session
/// is in the pool's current database.
#[derive(Debug)]
pub struct SessionPool<C> {
    config: SessionPoolConfig,
    /// Longest idle first.
    idle: VecDeque<IdleEntry<C>>,
    closed: bool,
    /// Gates the lazy idle sweep.
    last_sweep: Instant,
    /// Sessions alive right now: idle + handed out.
    live: usize,
    /// Pool-level current database, updated from released sessions.
    database: Option<String>,
}

/// An idle session and since when it is idle.
#[verifier::ext_equal]
#[verifier::reject_recursive_types(C)]
pub struct IdleView<C> {
    pub session: SessionView<C>,
    pub since: int,
}

/// A pool: its idle sessions from the longest idle to the latest, and its
/// counts and settings.
#[verifier::ext_equal]
#[verifier::reject_recursive_types(C)]
pub struct PoolView<C> {
    pub config: PoolConfigView,
    pub idle: Seq<IdleView<C>>,
    pub closed: bool,
    pub last_sweep: int,
    pub live: nat,
    pub database: Option<Seq<char>>,
}

impl<C> IdleEntry<C> {
    spec fn idle_view(self) -> IdleView<C> {
        IdleView { session: self.session@, since: self.since.nanos as int }
    }
}

spec fn idle_views<C>(entries: Seq<IdleEntry<C>>) -> Seq<IdleView<C>> {
    entries.map_values(|e: IdleEntry<C>| e.idle_view())
}

impl<C> View for SessionPool<C> {
    type V = PoolView<C>;

    closed spec fn view(&self) -> PoolView<C> {
        PoolView {
            config: self.config@,
            idle: idle_views(self.idle@),
            closed: self.closed,
            last_sweep: self.last_sweep.nanos as int,
            live: self.live as nat,
            database: text_view(self.database),
        }
    }
}

/// The sessions of a list.
pub open spec fn session_views<C>(sessions: Seq<Session<C>>) -> Seq<SessionView<C>> {
    sessions.map_values(|s: Session<C>| s@)
}

/// Splits idle sessions at moment `now` into those that stay and those that
/// have been idle for longer than `max_idle` and go, the longest idle first,
/// while more than `min` sessions are alive.
pub open spec fn sweep<C>(idle: Seq<IdleView<C>>, live: int, min: int, max_idle: int, now: int) -> (
    Seq<IdleView<C>>,
    Seq<SessionView<C>>,
)
    decreases idle.len(),
{
    if idle.len() == 0 || live <= min {
        (idle, Seq::empty())
    } else if elapsed(idle[0].since, now) > max_idle {
        let (stay, go) = sweep(idle.drop_first(), live - 1, min, max_idle, now);
        (stay, seq![idle[0].session] + go)
    } else {
        let (stay, go) = sweep(idle.drop_first(), live, min, max_idle, now);
        (seq![idle[0]] + stay, go)
    }
}

/// How many sessions at the front of the queue have lost their connection.
pub open spec fn dead_in_front<C>(idle: Seq<IdleView<C>>) -> nat
    decreases idle.len(),
{
    if idle.len() == 0 || idle[0].session.is_open() {
        0
    } else {
        1 + dead_in_front(idle.drop_first())
    }
}

impl<C> PoolView<C> {
    /// Idle sessions are alive, no more sessions are alive than the pool may
    /// hold, and every idle session is well formed.
    pub open spec fn wf(self) -> bool {
        &&& self.idle.len() <= self.live <= self.config.max_size
        &&& self.config.min_size <= self.config.max_size
        &&& forall|i: int| 0 <= i < self.idle.len() ==> (#[trigger] self.idle[i]).session.wf()
    }

    /// The sessions that are handed out or being opened.
    pub open spec fn out(self) -> int {
        self.live - self.idle.len()
    }

    /// Whether a sweep is due at moment `now`.
    pub open spec fn sweep_due(self, now: int) -> bool {
        elapsed(self.last_sweep, now) >= self.config.idle_sweep_interval.nanos
    }

    /// The sessions that a sweep at moment `now` would take out.
    pub open spec fn swept_out(self, now: int) -> Seq<SessionView<C>> {
        if self.sweep_due(now) {
            sweep(
                self.idle,
                self.live as int,
                self.config.min_size as int,
                self.config.max_idle_time.nanos as int,
                now,
            ).1
        } else {
            Seq::empty()
        }
    }

    /// The pool after a sweep at moment `now`.
    pub open spec fn after_sweep(self, now: int) -> PoolView<C> {
        if self.sweep_due(now) {
            PoolView {
                idle: sweep(
                    self.idle,
                    self.live as int,
                    self.config.min_size as int,
                    self.config.max_idle_time.nanos as int,
                    now,
                ).0,
                live: (self.live - self.swept_out(now).len()) as nat,
                last_sweep: now,
                ..self
            }
        } else {
            self
        }
    }

    /// The pool without the dead sessions at the front of its queue.
    pub open spec fn without_dead(self) -> PoolView<C> {
        let n = dead_in_front(self.idle) as int;
        PoolView {
            idle: self.idle.subrange(n, self.idle.len() as int),
            live: (self.live - n) as nat,
            ..self
        }
    }

    /// The statement that brings a session into the pool's database, where it
    /// is in another.
    pub open spec fn catch_up(self, session: SessionView<C>) -> Option<Seq<char>> {
        match self.database {
            Some(db) => if session.database == Some(db) {
                None
            } else {
                Some("USE "@ + db)
            },
            None => None,
        }
    }

    /// The configuration that a new session of the pool opens with.
    pub open spec fn session_config(self) -> SessionConfigView {
        SessionConfigView { database: self.database, ..self.config.session }
    }

    /// The pool after `session` is released at moment `now`, before the sweep.
    pub open spec fn after_return(self, session: SessionView<C>, now: int) -> PoolView<C> {
        let database = if session.database is Some {
            session.database
        } else {
            self.database
        };
        if !session.is_open() {
            PoolView { live: (self.live - 1) as nat, ..self }
        } else if self.closed {
            PoolView { live: (self.live - 1) as nat, database, ..self }
        } else {
            PoolView { idle: self.idle.push(IdleView { session, since: now }), database, ..self }
        }
    }
}

proof fn lemma_sweep<C>(idle: Seq<IdleView<C>>, live: int, min: int, max_idle: int, now: int)
    requires
        idle.len() <= live,
        forall|i: int| 0 <= i < idle.len() ==> (#[trigger] idle[i]).session.wf(),
    ensures
        ({
            let (stay, go) = sweep(idle, live, min, max_idle, now);
            &&& stay.len() + go.len() == idle.len()
            &&& go.len() > 0 ==> live - go.len() >= min
            &&& forall|i: int| 0 <= i < stay.len() ==> (#[trigger] stay[i]).session.wf()
            &&& forall|i: int| 0 <= i < go.len() ==> (#[trigger] go[i]).wf()
        }),
    decreases idle.len(),
{
    if idle.len() == 0 || live <= min {
    } else {
        let rest = idle.drop_first();
        let goes = elapsed(idle[0].since, now) > max_idle;
        let left = if goes {
            live - 1
        } else {
            live
        };
        assert forall|i: int| 0 <= i < rest.len() implies (#[trigger] rest[i]).session.wf() by {
            assert(idle[i + 1].session.wf());
        }
        lemma_sweep(rest, left, min, max_idle, now);
        let (stay0, go0) = sweep(rest, left, min, max_idle, now);
        let (stay, go) = sweep(idle, live, min, max_idle, now);
        assert(idle[0].session.wf());
        assert forall|i: int| 0 <= i < stay.len() implies (#[trigger] stay[i]).session.wf() by {
            if !goes && i > 0 {
                assert(stay0[i - 1].session.wf());
            }
        }
        assert forall|i: int| 0 <= i < go.len() implies (#[trigger] go[i]).wf() by {
            if goes && i > 0 {
                assert(go0[i - 1].wf());
            }
        }
    }
}

proof fn lemma_dead_in_front<C>(idle: Seq<IdleView<C>>)
    ensures
        dead_in_front(idle) <= idle.len(),
        dead_in_front(idle) < idle.len() ==> idle[dead_in_front(idle) as int].session.is_open(),
        forall|i: int|
            0 <= i < dead_in_front(idle) ==> !(#[trigger] idle[i]).session.is_open(),
    decreases idle.len(),
{
    if idle.len() > 0 && !idle[0].session.is_open() {
        let rest = idle.drop_first();
        lemma_dead_in_front(rest);
        assert forall|i: int| 0 <= i < dead_in_front(idle) implies !(
        #[trigger] idle[i]).session.is_open() by {
            if i > 0 {
                assert(rest[i - 1] == idle[i]);
            }
        }
    }
}

/// A sweep keeps the pool well formed, never brings it below its minimum size,
/// leaves sessions alone that are not idle for too long, and takes none unless
/// a sweep is due.
pub proof fn law_sweep_respects_the_minimum<C>(pool: PoolView<C>, now: int)
    requires
        pool.wf(),
    ensures
        pool.after_sweep(now).wf(),
        pool.after_sweep(now).out() == pool.out(),
        pool.swept_out(now).len() > 0 ==> pool.after_sweep(now).live >= pool.config.min_size,
        !pool.sweep_due(now) ==> pool.after_sweep(now) == pool && pool.swept_out(now).len() == 0,
        pool.after_sweep(now).live + pool.swept_out(now).len() == pool.live,
        (forall|i: int|
            0 <= i < pool.idle.len() ==> elapsed((#[trigger] pool.idle[i]).since, now)
                <= pool.config.max_idle_time.nanos) ==> pool.swept_out(now).len() == 0
            && pool.after_sweep(now).idle == pool.idle,
{
    let min = pool.config.min_size as int;
    let max_idle = pool.config.max_idle_time.nanos as int;
    lemma_sweep(pool.idle, pool.live as int, min, max_idle, now);
    if forall|i: int|
        0 <= i < pool.idle.len() ==> elapsed((#[trigger] pool.idle[i]).since, now) <= max_idle {
        lemma_nothing_to_sweep(pool.idle, pool.live as int, min, max_idle, now);
    }
}

proof fn lemma_nothing_to_sweep<C>(
    idle: Seq<IdleView<C>>,
    live: int,
    min: int,
    max_idle: int,
    now: int,
)
    requires
        forall|i: int|
            0 <= i < idle.len() ==> elapsed((#[trigger] idle[i]).since, now) <= max_idle,
    ensures
        sweep(idle, live, min, max_idle, now) == (idle, Seq::<SessionView<C>>::empty()),
    decreases idle.len(),
{
    if idle.len() == 0 || live <= min {
    } else {
        assert forall|i: int| 0 <= i < idle.drop_first().len() implies elapsed(
            (#[trigger] idle.drop_first()[i]).since,
            now,
        ) <= max_idle by {
            assert(idle.drop_first()[i] == idle[i + 1]);
        }
        assert(elapsed(idle[0].since, now) <= max_idle);
        lemma_nothing_to_sweep(idle.drop_first(), live, min, max_idle, now);
        assert(seq![idle[0]] + idle.drop_first() =~= idle);
    }
}

/// A sweep repeated at once takes nothing more out: it is not due again, or
/// nothing more may go.
pub proof fn law_sweep_is_idempotent<C>(pool: PoolView<C>, now: int)
    requires
        pool.wf(),
    ensures
        pool.after_sweep(now).swept_out(now).len() == 0,
{
    law_sweep_respects_the_minimum(pool, now);
    if pool.sweep_due(now) {
        lemma_sweep_twice(
            pool.idle,
            pool.live as int,
            pool.config.min_size as int,
            pool.config.max_idle_time.nanos as int,
            now,
        );
    }
}

proof fn lemma_sweep_twice<C>(idle: Seq<IdleView<C>>, live: int, min: int, max_idle: int, now: int)
    requires
        idle.len() <= live,
    ensures
        ({
            let (stay, go) = sweep(idle, live, min, max_idle, now);
            &&& sweep(stay, live - go.len(), min, max_idle, now).1.len() == 0
            &&& live - go.len() <= min || forall|i: int|
                0 <= i < stay.len() ==> elapsed((#[trigger] stay[i]).since, now) <= max_idle
        }),
    decreases idle.len(),
{
    let (stay, go) = sweep(idle, live, min, max_idle, now);
    if idle.len() == 0 || live <= min {
    } else {
        let rest = idle.drop_first();
        let goes = elapsed(idle[0].since, now) > max_idle;
        let left = if goes {
            live - 1
        } else {
            live
        };
        lemma_sweep_twice(rest, left, min, max_idle, now);
        let (stay0, go0) = sweep(rest, left, min, max_idle, now);
        if !goes && live - go.len() > min {
            assert forall|i: int| 0 <= i < stay.len() implies elapsed(
                (#[trigger] stay[i]).since,
                now,
            ) <= max_idle by {
                if i > 0 {
                    assert(stay[i] == stay0[i - 1]);
                }
            }
        }
    }
    if live - go.len() > min {
        lemma_nothing_to_sweep(stay, live - go.len(), min, max_idle, now);
    }
}

/// One acquire in progress.
#[derive(Debug)]
pub struct Acquire {
    /// When to give up; never where there is none.
    deadline: Option<Instant>,
    /// What the last attempt failed with.
    last_error: Option<Error>,
}

/// An acquire in progress: its deadline and what it last failed with.
#[verifier::ext_equal]
pub struct AcquireView {
    pub deadline: Option<Instant>,
    pub last_error: Option<ErrorView>,
}

impl View for Acquire {
    type V = AcquireView;

    closed spec fn view(&self) -> AcquireView {
        AcquireView { deadline: self.deadline, last_error: error_view(self.last_error) }
    }
}

/// How long to wait for another user of the pool to release a session.
#[derive(Debug, Clone, Copy, PartialEq, Eq, Structural)]
pub enum Wait {
    /// Not at all: the deadline has passed.
    Over,
    /// At most this long.
    AtMost(Duration),
    /// Until something happens.
    Unbounded,
}

/// How long an acquire may still wait at moment `now`.
pub open spec fn is_wait_left(deadline: Option<Instant>, now: Instant, wait: Wait) -> bool {
    match deadline {
        None => wait == Wait::Unbounded,
        Some(end) => if now.nanos >= end.nanos {
            wait == Wait::Over
        } else {
            wait matches Wait::AtMost(d) && d.nanos == end.nanos - now.nanos
        },
    }
}

/// What to do next in an acquire.
#[derive(Debug)]
pub enum AcquireStep<C> {
    /// The acquire has failed.
    Fail(Error),
    /// Close these sessions, which have been idle for too long, and go on.
    Close(Vec<Session<C>>),
    /// Bring this session into the pool's database and hand it out; where that
    /// fails, report it with [`SessionPool::hand_out_failed`] and go on.
    HandOut(Session<C>),
    /// Open a new session with this configuration and hand it out; where
    /// opening fails, report it with [`SessionPool::open_failed`], wait and go
    /// on; where handing out fails, with [`SessionPool::new_session_failed`].
    /// A slot is already counted for it.
    Open(SessionConfig),
    /// Wait for a release, and go on.
    Wait(Wait),
}

/// The complaint of an acquire whose time is up.
pub open spec fn exhausted_text(timeout: Duration, live: nat, max: nat) -> Seq<char> {
    "pool exhausted: no session available within "@ + shown_duration(timeout) + " ("@ + decimal(
        live,
    ) + " live, max "@ + decimal(max) + ")"@
}

/// Whether an acquire's time is up at moment `now`.
pub open spec fn out_of_time(deadline: Option<Instant>, now: Instant) -> bool {
    deadline matches Some(end) && now.nanos >= end.nanos
}

/// Whether `step` is what comes next in an acquire at moment `now`, and takes
/// the pool and the acquire to `after` and `acquire_after`. In this order: a
/// closed pool and a passed deadline fail; sessions that a sweep takes out are
/// to be closed; the first idle session that is open is handed out; below
/// capacity a session is opened; else there is nothing to do but wait.
pub open spec fn is_acquire_step<C>(
    pool: PoolView<C>,
    acquire: AcquireView,
    now: Instant,
    step: AcquireStep<C>,
    after: PoolView<C>,
    acquire_after: AcquireView,
) -> bool {
    let swept = pool.after_sweep(now.nanos as int);
    let expired = pool.swept_out(now.nanos as int);
    let cleared = swept.without_dead();
    if pool.closed {
        &&& step matches AcquireStep::Fail(e)
        &&& e@ == ErrorView::Client("session pool is closed"@)
        &&& after == pool
        &&& acquire_after == acquire
    } else if out_of_time(acquire.deadline, now) {
        &&& step matches AcquireStep::Fail(e)
        &&& e@ == match acquire.last_error {
            Some(last) => last,
            None => ErrorView::Client(
                exhausted_text(
                    pool.config.acquire_timeout,
                    pool.live,
                    pool.config.max_size as nat,
                ),
            ),
        }
        &&& after == pool
        &&& acquire_after == (AcquireView { last_error: None, ..acquire })
    } else if expired.len() > 0 {
        &&& step matches AcquireStep::Close(sessions)
        &&& session_views(sessions@) == expired
        &&& after == swept
        &&& acquire_after == acquire
    } else if cleared.idle.len() > 0 {
        &&& step matches AcquireStep::HandOut(session)
        &&& session@ == cleared.idle[0].session
        &&& session@.is_open()
        &&& after == (PoolView { idle: cleared.idle.drop_first(), ..cleared })
        &&& acquire_after == acquire
    } else if cleared.live < cleared.config.max_size {
        &&& step matches AcquireStep::Open(config)
        &&& config@ == cleared.session_config()
        &&& after == (PoolView { live: cleared.live + 1, ..cleared })
        &&& acquire_after == acquire
    } else {
        &&& step matches AcquireStep::Wait(wait)
        &&& is_wait_left(acquire.deadline, now, wait)
        &&& after == cleared
        &&& acquire_after == acquire
    }
}

impl<C> SessionPool<C> {
    /// An empty pool. Its owner opens `min_size` sessions with
    /// [`SessionPool::open_config`] and adds them.
    pub fn new(config: SessionPoolConfig, now: Instant) -> (pool: Result<SessionPool<C>>)
        ensures
            match pool {
                Ok(p) => {
                    &&& config.min_size <= config.max_size
                    &&& p@.wf()
                    &&& p@ == (PoolView::<C> {
                        config: config@,
                        idle: Seq::empty(),
                        closed: false,
                        last_sweep: now.nanos as int,
                        live: 0,
                        database: config@.session.database,
                    })
                },
                Err(e) => {
                    &&& config.min_size > config.max_size
                    &&& e@ == ErrorView::Client(
                        "pool min_size ("@ + decimal(config.min_size as nat) + ") > max_size ("@
                            + decimal(config.max_size as nat) + ")"@,
                    )
                },
            },
    {
        if config.min_size > config.max_size {
            let mut m = "pool min_size (".to_owned();
            push_decimal(&mut m, config.min_size as u64);
            m.append(") > max_size (");
            push_decimal(&mut m, config.max_size as u64);
            m.append(")");
            return Err(Error::Client(m));
        }
        let database = copy_text(&config.session.database);
        let pool = SessionPool {
            config,
            idle: VecDeque::new(),
            closed: false,
            last_sweep: now,
            live: 0,
            database,
        };
        assert(pool@.idle =~= Seq::empty());
        Ok(pool)
    }

    /// The pool's configuration.
    pub fn config(&self) -> (config: &SessionPoolConfig)
        ensures
            config@ == self@.config,
    {
        &self.config
    }

    /// Sessions alive right now (idle + handed out).
    pub fn live_count(&self) -> (live: usize)
        ensures
            live == self@.live,
    {
        self.live
    }

    /// Sessions sitting idle in the pool right now.
    pub fn idle_count(&self) -> (idle: usize)
        ensures
            idle == self@.idle.len(),
    {
        self.idle.len()
    }

    /// The configuration for a new session: it starts in the pool's current
    /// database (config key "db"), so no catch-up USE is needed on first
    /// hand-out.
    pub fn open_config(&self) -> (config: SessionConfig)
        ensures
            config@ == self@.session_config(),
    {
        let mut config = self.config.session.clone();
        config.database = copy_text(&self.database);
        config
    }

    /// Adds a session that has been opened, as an idle one.
    pub fn add_idle(&mut self, session: Session<C>, now: Instant)
        requires
            old(self)@.wf(),
            old(self)@.live < old(self)@.config.max_size,
            session@.wf(),
        ensures
            final(self)@.wf(),
            final(self)@ == (PoolView {
                idle: old(self)@.idle.push(
                    IdleView { session: session@, since: now.nanos as int },
                ),
                live: old(self)@.live + 1,
                ..old(self)@
            }),
    {
        let ghost start = self@;
        let ghost before = self.idle@;
        let entry = IdleEntry { session, since: now };
        self.idle.push_back(entry);
        self.live = self.live + 1;
        proof {
            assert(idle_views(self.idle@) =~= idle_views(before).push(entry.idle_view()));
            assert forall|i: int| 0 <= i < self@.idle.len() implies (
            #[trigger] self@.idle[i]).session.wf() by {
                if i < start.idle.len() {
                    assert(self@.idle[i] == start.idle[i]);
                }
            }
        }
    }

    /// Lazy idle sweep, run at acquire/release time (there is no timer
    /// thread — a completely inactive pool is only swept on its next use).
    /// No-op until `idle_sweep_interval` has elapsed since the last sweep;
    /// then removes sessions idle longer than `max_idle_time`, oldest
    /// first, never shrinking the pool (idle + handed out) below
    /// `min_size`. Returns the expired sessions for the caller to close.
    pub fn sweep_idle(&mut self, now: Instant) -> (expired: Vec<Session<C>>)
        requires
            old(self)@.wf(),
        ensures
            final(self)@.wf(),
            final(self)@ == old(self)@.after_sweep(now.nanos as int),
            session_views(expired@) == old(self)@.swept_out(now.nanos as int),
            forall|i: int| 0 <= i < expired@.len() ==> (#[trigger] expired@[i])@.wf(),
    {
        let ghost start = self@;
        let ghost at = now.nanos as int;
        proof {
            law_sweep_respects_the_minimum(start, at);
        }
        let mut expired: Vec<Session<C>> = Vec::new();
        assert(session_views(expired@) =~= Seq::empty());
        if now.saturating_duration_since(self.last_sweep).nanos
            < self.config.idle_sweep_interval.nanos {
            return expired;
        }
        self.last_sweep = now;
        let ghost min = start.config.min_size as int;
        let ghost max_idle = start.config.max_idle_time.nanos as int;
        let ghost whole = sweep(start.idle, start.live as int, min, max_idle, at);
        let mut i: usize = 0;
        assert(self@.idle.subrange(0, self@.idle.len() as int) =~= self@.idle);
        assert(self@.idle.subrange(0, 0) =~= Seq::empty());
        assert(Seq::<IdleView<C>>::empty() + whole.0 =~= whole.0);
        assert(Seq::<SessionView<C>>::empty() + whole.1 =~= whole.1);
        while i < self.idle.len() && self.live - expired.len() > self.config.min_size
            invariant
                i <= self.idle@.len(),
                start == old(self)@,
                start.wf(),
                at == now.nanos,
                min == start.config.min_size,
                max_idle == start.config.max_idle_time.nanos,
                self@ == (PoolView { idle: self@.idle, last_sweep: at, ..start }),
                self.idle@.len() + expired@.len() == start.idle.len(),
                forall|k: int| 0 <= k < self@.idle.len() ==> (#[trigger] self@.idle[k]).session.wf(),
                forall|k: int| 0 <= k < expired@.len() ==> (#[trigger] expired@[k])@.wf(),
                whole == sweep(start.idle, start.live as int, min, max_idle, at),
                ({
                    let (stay, go) = sweep(
                        self@.idle.subrange(i as int, self@.idle.len() as int),
                        start.live - expired@.len(),
                        min,
                        max_idle,
                        at,
                    );
                    &&& whole.0 == self@.idle.subrange(0, i as int) + stay
                    &&& whole.1 == session_views(expired@) + go
                }),
            decreases self.idle@.len() - i,
        {
            let ghost before = self@.idle;
            let ghost rest = before.subrange(i as int, before.len() as int);
            let ghost gone = expired@;
            proof {
                assert(rest.drop_first() =~= before.subrange(i + 1, before.len() as int));
                assert(before[i as int] == self.idle@[i as int].idle_view());
                assert(before[i as int].session.wf());
            }
            if now.saturating_duration_since(self.idle[i].since).nanos
                > self.config.max_idle_time.nanos {
                match self.idle.remove(i) {
                    Some(entry) => {
                        proof {
                            assert(idle_views(self.idle@) =~= before.remove(i as int));
                            assert(self@.idle.subrange(i as int, self@.idle.len() as int)
                                =~= rest.drop_first());
                            assert(self@.idle.subrange(0, i as int) =~= before.subrange(
                                0,
                                i as int,
                            ));
                            assert(entry.idle_view() == before[i as int]);
                            assert forall|k: int| 0 <= k < self@.idle.len() implies (
                            #[trigger] self@.idle[k]).session.wf() by {
                                if k < i {
                                    assert(self@.idle[k] == before[k]);
                                } else {
                                    assert(self@.idle[k] == before[k + 1]);
                                }
                            }
                        }
                        expired.push(entry.session);
                        proof {
                            let (stay, go) = sweep(
                                rest.drop_first(),
                                start.live - expired@.len(),
                                min,
                                max_idle,
                                at,
                            );
                            assert(session_views(expired@) =~= session_views(gone).push(
                                before[i as int].session,
                            ));
                            assert(session_views(gone) + (seq![before[i as int].session] + go)
                                =~= session_views(expired@) + go);
                        }
                    },
                    None => {},
                }
            } else {
                proof {
                    let (stay, go) = sweep(
                        rest.drop_first(),
                        start.live - expired@.len(),
                        min,
                        max_idle,
                        at,
                    );
                    assert(before.subrange(0, i as int) + (seq![before[i as int]] + stay)
                        =~= before.subrange(0, i + 1) + stay);
                }
                i += 1;
            }
        }
        proof {
            let rest = self@.idle.subrange(i as int, self@.idle.len() as int);
            assert(sweep(rest, start.live - expired@.len(), min, max_idle, at) == (
                rest,
                Seq::<SessionView<C>>::empty(),
            ));
            assert(self@.idle.subrange(0, i as int) + rest =~= self@.idle);
            assert(session_views(expired@) + Seq::<SessionView<C>>::empty() =~= session_views(
                expired@,
            ));
        }
        self.live = self.live - expired.len();
        assert(self@ =~= start.after_sweep(at));
        expired
    }

    /// Begins an acquire. An `acquire_timeout` beyond what the clock can name
    /// means "wait without a deadline".
    pub fn acquire(&self, now: Instant) -> (acquire: Acquire)
        ensures
            acquire@.last_error is None,
            match acquire@.deadline {
                Some(end) => end.nanos == now.nanos + self@.config.acquire_timeout.nanos
                    && end.nanos <= MAX_INSTANT_NANOS,
                None => now.nanos + self@.config.acquire_timeout.nanos > MAX_INSTANT_NANOS,
            },
    {
        Acquire { deadline: now.checked_add(self.config.acquire_timeout), last_error: None }
    }

    /// Decides what comes next in an acquire. Dead idle sessions are
    /// discarded on the way; a fresh session is opened while under
    /// `max_size`.
    pub fn acquire_step(&mut self, acquire: &mut Acquire, now: Instant) -> (step: AcquireStep<C>)
        requires
            old(self)@.wf(),
        ensures
            final(self)@.wf(),
            is_acquire_step(
                old(self)@,
                old(acquire)@,
                now,
                step,
                final(self)@,
                final(acquire)@,
            ),
            step matches AcquireStep::HandOut(s) ==> s@.wf(),
            step matches AcquireStep::Close(list) ==> forall|i: int|
                0 <= i < list@.len() ==> (#[trigger] list@[i])@.wf(),
    {
        let ghost start = self@;
        let ghost at = now.nanos as int;
        if self.closed {
            return AcquireStep::Fail(Error::Client("session pool is closed".to_owned()));
        }
        if let Some(end) = acquire.deadline {
            if now.nanos >= end.nanos {
                let last = acquire.last_error.take();
                return match last {
                    Some(e) => AcquireStep::Fail(e),
                    None => AcquireStep::Fail(self.exhausted()),
                };
            }
        }
        let expired = self.sweep_idle(now);
        if expired.len() > 0 {
            assert(session_views(expired@).len() > 0);
            return AcquireStep::Close(expired);
        }
        assert(session_views(expired@).len() == 0);
        let ghost swept = self@;
        proof {
            lemma_dead_in_front(swept.idle);
            assert(swept.idle.subrange(0, swept.idle.len() as int) =~= swept.idle);
        }
        // Idle session available → validate liveness, evict the dead.
        loop
            invariant
                self@.wf(),
                swept.wf(),
                start == old(self)@,
                swept == start.after_sweep(at),
                at == now.nanos,
                start.swept_out(at).len() == 0,
                !start.closed,
                !out_of_time(old(acquire)@.deadline, now),
                acquire@ == old(acquire)@,
                self@.idle.len() <= swept.idle.len(),
                self@ == (PoolView {
                    idle: swept.idle.subrange(
                        swept.idle.len() - self@.idle.len(),
                        swept.idle.len() as int,
                    ),
                    live: (swept.live - (swept.idle.len() - self@.idle.len())) as nat,
                    ..swept
                }),
                dead_in_front(swept.idle) == swept.idle.len() - self@.idle.len() + dead_in_front(
                    self@.idle,
                ),
            ensures
                self@.idle.len() == 0,
            decreases self@.idle.len(),
        {
            let ghost before = self@;
            match self.idle.pop_front() {
                None => {
                    break;
                },
                Some(entry) => {
                    proof {
                        assert(idle_views(self.idle@) =~= before.idle.drop_first());
                        assert(before.idle[0] == entry.idle_view());
                        assert(before.idle[0].session.wf());
                        let cut = swept.idle.len() - before.idle.len();
                        assert(before.idle.drop_first() =~= swept.idle.subrange(
                            cut + 1,
                            swept.idle.len() as int,
                        ));
                        assert forall|i: int| 0 <= i < self@.idle.len() implies (
                        #[trigger] self@.idle[i]).session.wf() by {
                            assert(self@.idle[i] == before.idle[i + 1]);
                        }
                    }
                    if entry.session.is_open() {
                        proof {
                            assert(dead_in_front(before.idle) == 0);
                            let cleared = swept.without_dead();
                            assert(cleared =~= before);
                            assert(self@ =~= (PoolView {
                                idle: cleared.idle.drop_first(),
                                ..cleared
                            }));
                        }
                        return AcquireStep::HandOut(entry.session);
                    }
                    self.live = self.live - 1;
                },
            }
        }
        proof {
            assert(self@.idle.len() == 0);
            assert(swept.without_dead() =~= self@);
        }
        // Below capacity → grow lazily; the slot is counted at once, so that
        // concurrent acquires cannot overshoot.
        if self.live < self.config.max_size {
            self.live = self.live + 1;
            return AcquireStep::Open(self.open_config());
        }
        // At capacity → wait for a release, bounded by the deadline.
        AcquireStep::Wait(wait_left(acquire.deadline, now))
    }

    fn exhausted(&self) -> (e: Error)
        ensures
            e@ == ErrorView::Client(
                exhausted_text(
                    self@.config.acquire_timeout,
                    self@.live,
                    self@.config.max_size as nat,
                ),
            ),
    {
        let mut m = "pool exhausted: no session available within ".to_owned();
        m.append(self.config.acquire_timeout.show().as_str());
        m.append(" (");
        push_decimal(&mut m, self.live as u64);
        m.append(" live, max ");
        push_decimal(&mut m, self.config.max_size as u64);
        m.append(")");
        Error::Client(m)
    }

    /// The statement that syncs a session onto the pool's current database
    /// before it is handed out; none where it is there already.
    pub fn catch_up_statement(&self, session: &Session<C>) -> (sql: Option<String>)
        ensures
            match (sql, self@.catch_up(session@)) {
                (Some(s), Some(expected)) => s@ == expected,
                (None, None) => true,
                _ => false,
            },
    {
        match &self.database {
            None => None,
            Some(db) => {
                let there = match session.database() {
                    Some(current) => current.to_owned() == *db,
                    None => false,
                };
                if there {
                    return None;
                }
                let mut sql = "USE ".to_owned();
                sql.append(db.as_str());
                Some(sql)
            },
        }
    }

    /// Notes that an idle session could not be handed out and is discarded.
    /// The acquire goes on with the remaining candidates instead of failing
    /// instantly. Whoever waits for the pool is to be woken.
    pub fn hand_out_failed(&mut self, acquire: &mut Acquire, error: Error)
        requires
            old(self)@.wf(),
            old(self)@.out() > 0,
        ensures
            final(self)@.wf(),
            final(self)@ == (PoolView { live: (old(self)@.live - 1) as nat, ..old(self)@ }),
            final(acquire)@ == (AcquireView { last_error: Some(error@), ..old(acquire)@ }),
    {
        self.live = self.live - 1;
        acquire.last_error = Some(error);
    }

    /// Notes that a new session could not be opened: its slot is free again.
    /// The acquire spends its remaining time waiting for a release instead of
    /// failing at once. Whoever waits for the pool is to be woken.
    pub fn open_failed(&mut self, acquire: &mut Acquire, error: Error, now: Instant) -> (wait: Wait)
        requires
            old(self)@.wf(),
            old(self)@.out() > 0,
        ensures
            final(self)@.wf(),
            final(self)@ == (PoolView { live: (old(self)@.live - 1) as nat, ..old(self)@ }),
            final(acquire)@ == (AcquireView { last_error: Some(error@), ..old(acquire)@ }),
            is_wait_left(old(acquire)@.deadline, now, wait),
    {
        self.live = self.live - 1;
        acquire.last_error = Some(error);
        wait_left(acquire.deadline, now)
    }

    /// Notes that a new session could not be brought into the pool's database:
    /// its slot is free again. Unlike an idle session's, this failure ends the
    /// acquire: the error is to be reported. Whoever waits for the pool is to
    /// be woken.
    pub fn new_session_failed(&mut self, error: Error) -> (e: Error)
        requires
            old(self)@.wf(),
            old(self)@.out() > 0,
        ensures
            final(self)@.wf(),
            final(self)@ == (PoolView { live: (old(self)@.live - 1) as nat, ..old(self)@ }),
            e == error,
    {
        self.live = self.live - 1;
        error
    }

    /// Notes that a session which was taken out for a device could not be
    /// handed out and is discarded. Whoever waits for the pool is to be woken.
    pub fn discard(&mut self)
        requires
            old(self)@.wf(),
            old(self)@.out() > 0,
        ensures
            final(self)@.wf(),
            final(self)@ == (PoolView { live: (old(self)@.live - 1) as nat, ..old(self)@ }),
    {
        self.live = self.live - 1;
    }

    /// Takes a session back that was handed out. Dead sessions are discarded;
    /// live ones update the pool database and go back to the idle queue,
    /// unless the pool is closed. Returns the sessions to close. One waiter is
    /// to be woken.
    pub fn release(&mut self, session: Session<C>, now: Instant) -> (to_close: Vec<Session<C>>)
        requires
            old(self)@.wf(),
            old(self)@.out() > 0,
            session@.wf(),
        ensures
            final(self)@.wf(),
            ({
                let returned = old(self)@.after_return(session@, now.nanos as int);
                if !session@.is_open() {
                    final(self)@ == returned && to_close@.len() == 0
                } else if old(self)@.closed {
                    final(self)@ == returned && session_views(to_close@) == seq![session@]
                } else {
                    &&& final(self)@ == returned.after_sweep(now.nanos as int)
                    &&& session_views(to_close@) == returned.swept_out(now.nanos as int)
                }
            }),
            forall|i: int| 0 <= i < to_close@.len() ==> (#[trigger] to_close@[i])@.wf(),
    {
        let ghost start = self@;
        let ghost given = session@;
        if !session.is_open() {
            self.live = self.live - 1;
            return Vec::new();
        }
        match session.database() {
            Some(db) => {
                self.database = Some(db.to_owned());
            },
            None => {},
        }
        if self.closed {
            self.live = self.live - 1;
            let mut to_close: Vec<Session<C>> = Vec::new();
            to_close.push(session);
            assert(session_views(to_close@) =~= seq![given]);
            return to_close;
        }
        let ghost before = self.idle@;
        let entry = IdleEntry { session, since: now };
        self.idle.push_back(entry);
        proof {
            assert(idle_views(self.idle@) =~= idle_views(before).push(entry.idle_view()));
            assert(self@ =~= start.after_return(given, now.nanos as int));
            assert forall|i: int| 0 <= i < self@.idle.len() implies (
            #[trigger] self@.idle[i]).session.wf() by {
                if i < start.idle.len() {
                    assert(self@.idle[i] == start.idle[i]);
                }
            }
        }
        self.sweep_idle(now)
    }

    /// Close the pool: no further acquires; hands out all idle sessions for
    /// closing. Sessions currently handed out are closed when they are
    /// released. All waiters are to be woken.
    pub fn close(&mut self) -> (drained: Vec<Session<C>>)
        requires
            old(self)@.wf(),
        ensures
            final(self)@.wf(),
            final(self)@ == (PoolView {
                closed: true,
                idle: Seq::empty(),
                live: old(self)@.out() as nat,
                ..old(self)@
            }),
            session_views(drained@) == old(self)@.idle.map_values(|e: IdleView<C>| e.session),
            forall|i: int| 0 <= i < drained@.len() ==> (#[trigger] drained@[i])@.wf(),
    {
        let ghost start = self@;
        self.closed = true;
        self.live = self.live - self.idle.len();
        let mut drained: Vec<Session<C>> = Vec::new();
        assert(session_views(drained@) =~= Seq::empty());
        assert(start.idle.subrange(0, start.idle.len() as int) =~= start.idle);
        while self.idle.len() > 0
            invariant
                start == old(self)@,
                start.wf(),
                drained@.len() + self@.idle.len() == start.idle.len(),
                self@ == (PoolView {
                    closed: true,
                    idle: start.idle.subrange(drained@.len() as int, start.idle.len() as int),
                    live: start.out() as nat,
                    ..start
                }),
                session_views(drained@) == start.idle.subrange(0, drained@.len() as int).map_values(
                    |e: IdleView<C>| e.session,
                ),
                forall|i: int| 0 <= i < drained@.len() ==> (#[trigger] drained@[i])@.wf(),
            decreases self@.idle.len(),
        {
            let ghost before = self@;
            let ghost gone = drained@;
            match self.idle.pop_front() {
                Some(entry) => {
                    proof {
                        assert(idle_views(self.idle@) =~= before.idle.drop_first());
                        assert(before.idle[0] == entry.idle_view());
                        assert(start.idle[gone.len() as int] == before.idle[0]);
                        assert(start.idle[gone.len() as int].session.wf());
                    }
                    drained.push(entry.session);
                    proof {
                        assert(session_views(drained@) =~= session_views(gone).push(
                            before.idle[0].session,
                        ));
                        assert(session_views(drained@) =~= start.idle.subrange(
                            0,
                            drained@.len() as int,
                        ).map_values(|e: IdleView<C>| e.session));
                        assert(self@.idle =~= start.idle.subrange(
                            drained@.len() as int,
                            start.idle.len() as int,
                        ));
                    }
                },
                None => {},
            }
        }
        assert(start.idle.subrange(0, drained@.len() as int) =~= start.idle);
        drained
    }
}

/// How long an acquire may still wait.
fn wait_left(deadline: Option<Instant>, now: Instant) -> (wait: Wait)
    ensures
        is_wait_left(deadline, now, wait),
{
    match deadline {
        None => Wait::Unbounded,
        Some(end) => {
            if now.nanos >= end.nanos {
                Wait::Over
            } else {
                Wait::AtMost(end.saturating_duration_since(now))
            }
        },
    }
}

/// The newest of the first `k` hints: the one with the highest number, and the
/// last such.
pub open spec fn newest_hint(hints: Seq<Option<(EndpointView, u64)>>, k: nat) -> Option<
    (EndpointView, u64),
>
    decreases k,
{
    if k == 0 {
        None
    } else {
        match (newest_hint(hints, (k - 1) as nat), hints[k - 1]) {
            (None, h) => h,
            (Some(best), None) => Some(best),
            (Some(best), Some(h)) => if h.1 >= best.1 {
                Some(h)
            } else {
                Some(best)
            },
        }
    }
}

/// Whether a session is connected to that node.
pub open spec fn connected_to<C>(session: SessionView<C>, node: EndpointView) -> bool {
    session.connection matches Some(c) && same_node(c.spec_endpoint()@, node)
}

/// Where the first of the first `k` idle sessions that is connected to that
/// node stands.
pub open spec fn first_connected<C>(idle: Seq<IdleView<C>>, node: EndpointView, k: nat) -> Option<
    int,
>
    decreases k,
{
    if k == 0 {
        None
    } else {
        match first_connected(idle, node, (k - 1) as nat) {
            Some(i) => Some(i),
            None => if connected_to(idle[k - 1].session, node) {
                Some(k - 1)
            } else {
                None
            },
        }
    }
}

/// The idle session that the hints of all idle sessions point to.
pub open spec fn hinted_session<C>(
    idle: Seq<IdleView<C>>,
    hints: Seq<Option<(EndpointView, u64)>>,
) -> Option<int> {
    match newest_hint(hints, hints.len()) {
        Some((node, _)) => first_connected(idle, node, idle.len()),
        None => None,
    }
}

/// The views of hints with their numbers.
pub open spec fn hints_view(hints: Seq<Option<(Endpoint, u64)>>) -> Seq<
    Option<(EndpointView, u64)>,
> {
    hints.map_values(
        |h: Option<(Endpoint, u64)>|
            match h {
                Some((e, seq)) => Some((e@, seq)),
                None => None,
            },
    )
}

/// Whether `session` is what a pool gives out for a device, and `after` what
/// is left of the pool. Nothing, where it is closed. Otherwise every idle
/// session is asked for its hint for the device, each at some moment, and the
/// first session connected to the newest hinted endpoint is taken out.
pub open spec fn taken_for_device<C>(
    before: PoolView<C>,
    device_id: Seq<char>,
    session: Option<Session<C>>,
    after: PoolView<C>,
) -> bool {
    if before.closed {
        session is None && after == before
    } else {
        exists|looked: Seq<IdleView<C>>, hints: Seq<Option<(Endpoint, u64)>>|
            {
                &&& looked.len() == before.idle.len() == hints.len()
                &&& forall|i: int|
                    0 <= i < hints.len() ==> looked_up(
                        before.idle[i],
                        looked[i],
                        device_id,
                        #[trigger] hints[i],
                    )
                &&& match (session, #[trigger] hinted_session(looked, hints_view(hints))) {
                    (Some(s), Some(i)) => {
                        &&& s@ == looked[i].session
                        &&& s@.wf()
                        &&& after == (PoolView { idle: looked.remove(i), ..before })
                    },
                    (None, None) => after == (PoolView { idle: looked, ..before }),
                    _ => false,
                }
            }
    }
}

/// Whether `after` is the idle session `before` after its hint for `device` was
/// looked up at some moment, and `hint` is what was found.
pub open spec fn looked_up<C>(
    before: IdleView<C>,
    after: IdleView<C>,
    device: Seq<char>,
    hint: Option<(Endpoint, u64)>,
) -> bool {
    exists|now: Instant|
        {
            &&& now.nanos <= MAX_DURATION_NANOS
            &&& after == (IdleView {
                session: SessionView {
                    redirects: #[trigger] before.session.redirects.after_lookup(
                        device,
                        now.nanos as int,
                    ),
                    ..before.session
                },
                ..before
            })
            &&& hint_found(hint, before.session.redirects.lookup(device, now.nanos as int))
        }
}

proof fn lemma_first_connected_stays<C>(
    idle: Seq<IdleView<C>>,
    node: EndpointView,
    i: nat,
    n: nat,
)
    requires
        i <= n,
        first_connected(idle, node, i) is Some,
    ensures
        first_connected(idle, node, n) == first_connected(idle, node, i),
    decreases n,
{
    if i < n {
        lemma_first_connected_stays(idle, node, i, (n - 1) as nat);
    }
}

impl<C> SessionPool<C> {
    /// Looks up the hint for a device in every idle session.
    fn collect_hints(&mut self, device_id: &str) -> (hints: Vec<Option<(Endpoint, u64)>>)
        requires
            old(self)@.wf(),
        ensures
            final(self)@.wf(),
            final(self)@ == (PoolView { idle: final(self)@.idle, ..old(self)@ }),
            final(self)@.idle.len() == old(self)@.idle.len(),
            hints@.len() == old(self)@.idle.len(),
            forall|i: int|
                0 <= i < hints@.len() ==> looked_up(
                    old(self)@.idle[i],
                    final(self)@.idle[i],
                    device_id@,
                    #[trigger] hints@[i],
                ),
    {
        let ghost start = self@;
        let ghost n = start.idle.len() as int;
        let mut hints: Vec<Option<(Endpoint, u64)>> = Vec::new();
        let count: usize = self.idle.len();
        // Every entry goes once from the front to the back.
        while hints.len() < count
            invariant
                start == old(self)@,
                start.wf(),
                n == start.idle.len() == count,
                hints@.len() <= n,
                self@ == (PoolView { idle: self@.idle, ..start }),
                self@.idle.len() == n,
                forall|k: int|
                    0 <= k < n - hints@.len() ==> #[trigger] self@.idle[k] == start.idle[k
                        + hints@.len()],
                forall|k: int|
                    0 <= k < hints@.len() ==> looked_up(
                        start.idle[k],
                        self@.idle[n - hints@.len() + k],
                        device_id@,
                        #[trigger] hints@[k],
                    ),
                forall|k: int| 0 <= k < n ==> (#[trigger] self@.idle[k]).session.wf(),
            decreases n - hints@.len(),
        {
            let ghost before = self@.idle;
            let ghost done = hints@;
            match self.idle.pop_front() {
                None => {
                    return hints;
                },
                Some(mut entry) => {
                    let ghost entry_before = entry.idle_view();
                    assert(entry_before == before[0]);
                    assert(before[0].session.wf());
                    let hint = entry.session.redirect_hint_with_seq(device_id);
                    let ghost entry_after = entry.idle_view();
                    assert(looked_up(entry_before, entry_after, device_id@, hint));
                    self.idle.push_back(entry);
                    hints.push(hint);
                    proof {
                        assert(idle_views(self.idle@) =~= before.drop_first().push(entry_after));
                        assert forall|k: int| 0 <= k < hints@.len() implies looked_up(
                            start.idle[k],
                            self@.idle[n - hints@.len() + k],
                            device_id@,
                            #[trigger] hints@[k],
                        ) by {
                            if k < done.len() {
                                assert(hints@[k] == done[k]);
                                assert(self@.idle[n - hints@.len() + k] == before[n - done.len()
                                    + k]);
                            } else {
                                assert(self@.idle[n - 1] == entry_after);
                            }
                        }
                        assert forall|k: int| 0 <= k < n implies (
                        #[trigger] self@.idle[k]).session.wf() by {
                            if k < n - 1 {
                                assert(self@.idle[k] == before[k + 1]);
                            }
                        }
                    }
                },
            }
        }
        hints
    }

    /// Takes out the idle session that is connected to the newest hinted
    /// endpoint.
    pub fn take_hinted(&mut self, hints: &Vec<Option<(Endpoint, u64)>>) -> (session: Option<
        Session<C>,
    >)
        requires
            old(self)@.wf(),
        ensures
            final(self)@.wf(),
            match (session, hinted_session(old(self)@.idle, hints_view(hints@))) {
                (Some(s), Some(i)) => {
                    &&& 0 <= i < old(self)@.idle.len()
                    &&& s@ == old(self)@.idle[i].session
                    &&& s@.wf()
                    &&& final(self)@ == (PoolView {
                        idle: old(self)@.idle.remove(i),
                        ..old(self)@
                    })
                },
                (None, None) => final(self)@ == old(self)@,
                _ => false,
            },
            session matches Some(s) ==> s@.connection is Some && exists|k: int|
                {
                    &&& 0 <= k < hints@.len()
                    &&& (#[trigger] hints@[k]) is Some
                    &&& same_node(s@.connection->0.spec_endpoint()@, (hints@[k]->0).0@)
                },
    {
        let ghost start = self@;
        let ghost view = hints_view(hints@);
        // When several sessions hold conflicting hints, the newest wins.
        let mut best: Option<usize> = None;
        let mut k: usize = 0;
        while k < hints.len()
            invariant
                k <= hints@.len(),
                *self == *old(self),
                view == hints_view(hints@),
                match best {
                    None => newest_hint(view, k as nat) is None,
                    Some(b) => b < k && hints@[b as int] is Some && newest_hint(view, k as nat)
                        == view[b as int],
                },
            decreases hints@.len() - k,
        {
            match &hints[k] {
                Some((_, seq)) => {
                    let newer = match best {
                        None => true,
                        Some(b) => match &hints[b] {
                            Some((_, best_seq)) => *seq >= *best_seq,
                            None => true,
                        },
                    };
                    if newer {
                        best = Some(k);
                    }
                },
                None => {},
            }
            k += 1;
        }
        let chosen = match best {
            None => return None,
            Some(b) => b,
        };
        let node = match &hints[chosen] {
            Some((e, _)) => e,
            None => return None,
        };
        let mut i: usize = 0;
        while i < self.idle.len()
            invariant
                i <= self.idle@.len(),
                *self == *old(self),
                start == self@,
                start.wf(),
                view == hints_view(hints@),
                newest_hint(view, view.len()) matches Some((e, _)) && e == node@,
                chosen < hints@.len() && hints@[chosen as int] is Some,
                (hints@[chosen as int]->0).0 == *node,
                first_connected(start.idle, node@, i as nat) is None,
            decreases self.idle@.len() - i,
        {
            assert(start.idle[i as int] == self.idle@[i as int].idle_view());
            let matches = match self.idle[i].session.current_endpoint() {
                Some(current) => current.equivalent(node),
                None => false,
            };
            assert(matches == connected_to(start.idle[i as int].session, node@));
            if matches {
                proof {
                    lemma_first_connected_stays(
                        start.idle,
                        node@,
                        (i + 1) as nat,
                        start.idle.len(),
                    );
                    assert(start.idle[i as int].session.wf());
                }
                match self.idle.remove(i) {
                    Some(entry) => {
                        proof {
                            assert(idle_views(self.idle@) =~= start.idle.remove(i as int));
                            assert forall|j: int| 0 <= j < self@.idle.len() implies (
                            #[trigger] self@.idle[j]).session.wf() by {
                                if j < i {
                                    assert(self@.idle[j] == start.idle[j]);
                                } else {
                                    assert(self@.idle[j] == start.idle[j + 1]);
                                }
                            }
                        }
                        return Some(entry.session);
                    },
                    None => return None,
                }
            }
            i += 1;
        }
        None
    }

    /// Takes out a session for writes to `device_id`, preferring an idle
    /// session already connected to the device's redirected endpoint.
    ///
    /// A status-400 insert response leaves a device → endpoint hint in the
    /// session that saw it ([`Session::redirect_hint`]); if any idle
    /// session carries such a hint **and** another idle session is
    /// connected to that endpoint, that session is taken out, to be handed
    /// out (or, where that fails, reported with [`SessionPool::discard`]). In
    /// every other case — no hint, no matching idle session, hint expired —
    /// the caller is to go on with a plain [`SessionPool::acquire`]. The pool
    /// never opens a new connection to the hinted endpoint.
    pub fn acquire_for_device(&mut self, device_id: &str) -> (session: Option<Session<C>>)
        requires
            old(self)@.wf(),
        ensures
            final(self)@.wf(),
            taken_for_device(old(self)@, device_id@, session, final(self)@),
    {
        if self.closed {
            return None;
        }
        let hints = self.collect_hints(device_id);
        let ghost looked = self@.idle;
        let ghost found = hinted_session(looked, hints_view(hints@));
        self.take_hinted(&hints)
    }
}

/// The hint that decides is one of those that were found, and none found has a
/// higher number.
pub proof fn law_newest_hint_wins(hints: Seq<Option<(EndpointView, u64)>>, k: nat)
    requires
        k <= hints.len(),
    ensures
        match newest_hint(hints, k) {
            None => forall|i: int| 0 <= i < k ==> (#[trigger] hints[i]) is None,
            Some(best) => {
                &&& exists|i: int| 0 <= i < k && #[trigger] hints[i] == Some(best)
                &&& forall|i: int|
                    0 <= i < k ==> (#[trigger] hints[i] matches Some(h) ==> h.1 <= best.1)
            },
        },
    decreases k,
{
    if k > 0 {
        law_newest_hint_wins(hints, (k - 1) as nat);
        let best = newest_hint(hints, k);
        if best is Some {
            if best == hints[k - 1] {
                assert(hints[k - 1] == Some(best->0));
            } else {
                let i = choose|i: int|
                    0 <= i < k - 1 && #[trigger] hints[i] == newest_hint(hints, (k - 1) as nat);
                assert(hints[i] == Some(best->0));
            }
        }
    }
}

/// Numbers compare across sessions where each continues behind all that were
/// given out before: a hint recorded after its session's numbering was
/// continued behind `seq` decides over all hints numbered up to `seq`,
/// wherever in the pool they were found.
pub proof fn law_resumed_hint_decides(
    cache: RedirectCacheView,
    seq: u64,
    device: Seq<char>,
    endpoint: EndpointView,
    put_at: int,
    now: int,
    hints: Seq<Option<(EndpointView, u64)>>,
    j: int,
)
    requires
        cache.wf(),
        cache.max_entries > 0,
        seq < u64::MAX,
        !expired(elapsed(put_at, now), cache.ttl),
        0 <= j < hints.len(),
        ({
            let found = cache.resumed(seq).after_put(device, endpoint, put_at).lookup(device, now);
            hints[j] == Some(((found->0).endpoint, (found->0).seq))
        }),
        forall|i: int|
            0 <= i < hints.len() && i != j ==> (#[trigger] hints[i] matches Some(h) ==> h.1 <= seq),
    ensures
        newest_hint(hints, hints.len()) matches Some(best) && best.0 == endpoint && best.1 > seq,
{
    law_resumed_hints_are_newer(cache, seq, device, endpoint, put_at, now);
    law_newest_hint_wins(hints, hints.len());
    let best = newest_hint(hints, hints.len());
    assert(best is Some) by {
        assert(hints[j] is Some);
    }
    let i = choose|i: int| 0 <= i < hints.len() && #[trigger] hints[i] == Some(best->0);
    let newest = best->0;
    let recorded = hints[j]->0;
    assert(recorded.1 <= newest.1);
    assert(i == j);
}

/// An acquire accounts for every session: exactly the steps that give one out
/// (an idle one, or a slot for a new one) raise the number of sessions that are
/// out, the capacity is never exceeded, and an acquire waits only when the pool
/// is full and nothing is idle.
pub proof fn law_acquire_accounts_for_sessions<C>(
    pool: PoolView<C>,
    acquire: AcquireView,
    now: Instant,
    step: AcquireStep<C>,
    after: PoolView<C>,
    acquire_after: AcquireView,
)
    requires
        pool.wf(),
        is_acquire_step(pool, acquire, now, step, after, acquire_after),
    ensures
        after.live <= after.config.max_size,
        after.idle.len() <= after.live,
        after.out() == pool.out() + if step is HandOut || step is Open {
            1int
        } else {
            0int
        },
        step is Wait ==> after.live == after.config.max_size && after.idle.len() == 0,
        step is Fail <==> pool.closed || out_of_time(acquire.deadline, now),
        after.closed == pool.closed,
        after.database == pool.database,
{
    law_sweep_respects_the_minimum(pool, now.nanos as int);
    lemma_dead_in_front(pool.after_sweep(now.nanos as int).idle);
}

/// A closed pool gives out nothing: every acquire on it fails, whatever the
/// time, and it stays closed.
pub proof fn law_closed_pool_gives_out_nothing<C>(
    pool: PoolView<C>,
    acquire: AcquireView,
    now: Instant,
    step: AcquireStep<C>,
    after: PoolView<C>,
    acquire_after: AcquireView,
)
    requires
        pool.closed,
        is_acquire_step(pool, acquire, now, step, after, acquire_after),
    ensures
        step is Fail,
        after == pool,
{
}

/// A released session that is still open brings the pool into its database, so
/// that the next session handed out is made to follow; and a session that
/// follows already needs no statement.
pub proof fn law_database_follows_released_sessions<C>(
    pool: PoolView<C>,
    session: SessionView<C>,
    now: int,
    next: SessionView<C>,
)
    requires
        session.is_open(),
        session.database is Some,
    ensures
        pool.after_return(session, now).database == session.database,
        next.database == session.database ==> pool.after_return(session, now).catch_up(next)
            is None,
        next.database != session.database ==> pool.after_return(session, now).catch_up(next)
            == Some("USE "@ + session.database->0),
{
}

/// A session that is released is out no longer, whether it goes back to the
/// queue, is dead or comes back to a closed pool.
pub proof fn law_release_accounts_for_the_session<C>(
    pool: PoolView<C>,
    session: SessionView<C>,
    now: int,
)
    requires
        pool.wf(),
        pool.out() > 0,
        session.wf(),
    ensures
        pool.after_return(session, now).wf(),
        pool.after_return(session, now).out() == pool.out() - 1,
        pool.after_return(session, now).after_sweep(now).out() == pool.out() - 1,
{
    let returned = pool.after_return(session, now);
    assert forall|i: int| 0 <= i < returned.idle.len() implies (
    #[trigger] returned.idle[i]).session.wf() by {
        if i < pool.idle.len() {
            assert(returned.idle[i] == pool.idle[i]);
        }
    }
    law_sweep_respects_the_minimum(returned, now);
}

/// A pool of table-dialect sessions — a [`SessionPool`] whose sessions are
/// opened with `sql_dialect="table"` (and optionally a database). `USE <db>`
/// on any pooled session propagates pool-wide on release.
#[derive(Debug)]
pub struct TableSessionPool<C> {
    pool: SessionPool<C>,
}

impl<C> TableSessionPool<C> {
    /// The pool of sessions.
    pub closed spec fn spec_pool(self) -> SessionPool<C> {
        self.pool
    }

    /// Create the pool, forcing the table dialect on the session config.
    pub fn new(config: SessionPoolConfig, now: Instant) -> (pool: Result<TableSessionPool<C>>)
        ensures
            match pool {
                Ok(p) => {
                    &&& config.min_size <= config.max_size
                    &&& p.spec_pool()@.wf()
                    &&& p.spec_pool()@ == (PoolView::<C> {
                        config: PoolConfigView {
                            session: SessionConfigView {
                                sql_dialect: "table"@,
                                ..config@.session
                            },
                            ..config@
                        },
                        idle: Seq::empty(),
                        closed: false,
                        last_sweep: now.nanos as int,
                        live: 0,
                        database: config@.session.database,
                    })
                },
                Err(e) => {
                    &&& config.min_size > config.max_size
                    &&& e@ == ErrorView::Client(
                        "pool min_size ("@ + decimal(config.min_size as nat) + ") > max_size ("@
                            + decimal(config.max_size as nat) + ")"@,
                    )
                },
            },
    {
        let mut config = config;
        config.session.sql_dialect = "table".to_owned();
        match SessionPool::new(config, now) {
            Ok(pool) => Ok(TableSessionPool { pool }),
            Err(e) => Err(e),
        }
    }

    /// The pool of sessions.
    pub fn pool(&self) -> (pool: &SessionPool<C>)
        ensures
            *pool == self.spec_pool(),
    {
        &self.pool
    }

    /// The pool of sessions alone.
    pub fn into_pool(self) -> (pool: SessionPool<C>)
        ensures
            pool == self.spec_pool(),
    {
        self.pool
    }

    /// Begins an acquire of a table-dialect session; see
    /// [`SessionPool::acquire`].
    pub fn acquire(&self, now: Instant) -> (acquire: Acquire)
        ensures
            acquire@.last_error is None,
            match acquire@.deadline {
                Some(end) => end.nanos == now.nanos
                    + self.spec_pool()@.config.acquire_timeout.nanos && end.nanos
                    <= MAX_INSTANT_NANOS,
                None => now.nanos + self.spec_pool()@.config.acquire_timeout.nanos
                    > MAX_INSTANT_NANOS,
            },
    {
        self.pool.acquire(now)
    }

    /// Takes out a table-dialect session for writes to `device_id`,
    /// preferring an idle session already connected to the device's
    /// redirected endpoint — the table-model counterpart of
    /// [`SessionPool::acquire_for_device`].
    pub fn acquire_for_device(&mut self, device_id: &str) -> (session: Option<Session<C>>)
        requires
            old(self).spec_pool()@.wf(),
        ensures
            final(self).spec_pool()@.wf(),
            taken_for_device(
                old(self).spec_pool()@,
                device_id@,
                session,
                final(self).spec_pool()@,
            ),
    {
        self.pool.acquire_for_device(device_id)
    }

    /// Closes the pool; see [`SessionPool::close`].
    pub fn close(&mut self) -> (drained: Vec<Session<C>>)
        requires
            old(self).spec_pool()@.wf(),
        ensures
            final(self).spec_pool()@.wf(),
            final(self).spec_pool()@ == (PoolView {
                closed: true,
                idle: Seq::empty(),
                live: old(self).spec_pool()@.out() as nat,
                ..old(self).spec_pool()@
            }),
            session_views(drained@) == old(self).spec_pool()@.idle.map_values(
                |e: IdleView<C>| e.session,
            ),
            forall|i: int| 0 <= i < drained@.len() ==> (#[trigger] drained@[i])@.wf(),
    {
        self.pool.close()
    }

    /// The pool of sessions, for acquiring and releasing.
    pub fn pool_mut(&mut self) -> (pool: &mut SessionPool<C>)
        ensures
            *pool == old(self).spec_pool(),
            final(self).spec_pool() == *final(pool),
    {
        &mut self.pool
    }

    /// Sessions alive right now (idle + handed out).
    pub fn live_count(&self) -> (live: usize)
        ensures
            live == self.spec_pool()@.live,
    {
        self.pool.live_count()
    }

    /// Sessions sitting idle in the pool right now.
    pub fn idle_count(&self) -> (idle: usize)
        ensures
            idle == self.spec_pool()@.idle.len(),
    {
        self.pool.idle_count()
    }
}

} // verus!
