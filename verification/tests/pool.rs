//! Session pools.

use iotdb_client::client::pool::{AcquireStep, Wait};
use iotdb_client::connection::{Connection, RpcProtocol};
use iotdb_client::time::{Duration, Instant};
use iotdb_client::{
    Endpoint, Error, Session, SessionConfig, SessionPool, SessionPoolConfig, TableSessionPool,
};

type TestPool = SessionPool<()>;
type TestSession = Session<()>;

/// A moment well behind a clock's start, so that there is a before.
fn moment() -> Instant {
    Instant { nanos: 1_000_000_000_000_000 }
}

fn later(now: Instant, span: Duration) -> Instant {
    now.checked_add(span).expect("within range")
}

fn earlier(now: Instant, span: Duration) -> Instant {
    Instant { nanos: now.nanos - span.nanos }
}

fn dead_endpoint_config() -> SessionConfig {
    SessionConfig {
        endpoints: vec![Endpoint::new("127.0.0.1", 1)],
        connect_timeout: Duration::from_millis(200),
        ..SessionConfig::default()
    }
}

fn injected_session(endpoint: &Endpoint) -> TestSession {
    let mut session = Session::new(dead_endpoint_config());
    session.opened(Connection::new(endpoint.clone(), RpcProtocol::Binary, ()), 1, 1);
    session
}

fn refused() -> Error {
    Error::Thrift(thrift::Error::from(std::io::Error::new(
        std::io::ErrorKind::ConnectionRefused,
        "refused",
    )))
}

#[test]
fn config_defaults() {
    let cfg = SessionPoolConfig::default();
    assert_eq!(cfg.max_size, 8);
    assert_eq!(cfg.min_size, 0);
    assert_eq!(cfg.acquire_timeout, Duration::from_secs(60));
    assert_eq!(cfg.max_idle_time, Duration::from_secs(60));
    assert_eq!(cfg.idle_sweep_interval, Duration::from_secs(30));
}

#[test]
fn pool_config_takes_node_urls() {
    let cfg = SessionPoolConfig::default().with_node_urls(&["a:1", "b:2"]).unwrap();
    assert_eq!(
        cfg.session.endpoints,
        vec![Endpoint::new("a", 1), Endpoint::new("b", 2)]
    );
    assert_eq!(cfg.max_size, 8);
    assert!(SessionPoolConfig::default().with_node_urls(&["a"]).is_err());
}

/// A failed growth attempt must spend the acquire_timeout budget (waiting for
/// a release) instead of failing instantly.
#[test]
fn growth_failure_spends_acquire_timeout_budget() {
    let cfg = SessionPoolConfig {
        max_size: 1,
        acquire_timeout: Duration::from_millis(300),
        session: dead_endpoint_config(),
        ..Default::default()
    };
    let start = moment();
    let mut pool: TestPool = SessionPool::new(cfg, start).unwrap();
    let mut acquire = pool.acquire(start);
    match pool.acquire_step(&mut acquire, start) {
        AcquireStep::Open(config) => {
            assert_eq!(config.endpoints, vec![Endpoint::new("127.0.0.1", 1)])
        }
        other => panic!("expected growth, got {other:?}"),
    }
    assert_eq!(pool.live_count(), 1);
    let wait = pool.open_failed(&mut acquire, refused(), start);
    assert_eq!(wait, Wait::AtMost(Duration::from_millis(300)));
    assert_eq!(pool.live_count(), 0);
    let end = later(start, Duration::from_millis(300));
    match pool.acquire_step(&mut acquire, end) {
        AcquireStep::Fail(Error::Thrift(_)) => {}
        other => panic!("expected thrift connect error, got {other:?}"),
    }
    assert_eq!(pool.live_count(), 0);
}

/// Waiters on a full pool get the closed-pool error once it is closed.
#[test]
fn close_wakes_waiters_promptly() {
    let ep = Endpoint::new("127.0.0.1", 6667);
    let cfg = SessionPoolConfig {
        max_size: 1,
        acquire_timeout: Duration::from_secs(10),
        session: dead_endpoint_config(),
        ..Default::default()
    };
    let now = moment();
    let mut pool: TestPool = SessionPool::new(cfg, now).unwrap();
    pool.add_idle(injected_session(&ep), now);
    let mut first = pool.acquire(now);
    let held = match pool.acquire_step(&mut first, now) {
        AcquireStep::HandOut(s) => s,
        other => panic!("expected a session, got {other:?}"),
    };

    let mut waiter = pool.acquire(now);
    match pool.acquire_step(&mut waiter, now) {
        AcquireStep::Wait(wait) => assert_eq!(wait, Wait::AtMost(Duration::from_secs(10))),
        other => panic!("expected to wait, got {other:?}"),
    }
    assert!(pool.close().is_empty());
    match pool.acquire_step(&mut waiter, now) {
        AcquireStep::Fail(Error::Client(msg)) => assert!(msg.contains("closed"), "{msg}"),
        other => panic!("waiter should get the closed-pool error, got {other:?}"),
    }
    // What was handed out is closed when it comes back.
    assert_eq!(pool.live_count(), 1);
    assert_eq!(pool.release(held, now).len(), 1);
    assert_eq!(pool.live_count(), 0);
}

/// `acquire_timeout = Duration::MAX` must mean "wait without a deadline". The
/// close below is what releases the waiter.
#[test]
fn acquire_timeout_max_waits_until_closed_without_panicking() {
    let ep = Endpoint::new("127.0.0.1", 6667);
    let cfg = SessionPoolConfig {
        max_size: 1,
        acquire_timeout: Duration::max(),
        session: dead_endpoint_config(),
        ..Default::default()
    };
    let now = moment();
    let mut pool: TestPool = SessionPool::new(cfg, now).unwrap();
    pool.add_idle(injected_session(&ep), now);
    let mut first = pool.acquire(now);
    let _held = match pool.acquire_step(&mut first, now) {
        AcquireStep::HandOut(s) => s,
        other => panic!("expected a session, got {other:?}"),
    };
    let mut waiter = pool.acquire(now);
    let far = later(now, Duration::from_secs(1 << 40));
    match pool.acquire_step(&mut waiter, far) {
        AcquireStep::Wait(wait) => assert_eq!(wait, Wait::Unbounded),
        other => panic!("expected to wait, got {other:?}"),
    }
    pool.close();
    match pool.acquire_step(&mut waiter, far) {
        AcquireStep::Fail(Error::Client(msg)) => assert!(msg.contains("closed"), "{msg}"),
        other => panic!("Duration::MAX waiter should wake on close, got {other:?}"),
    }
}

#[test]
fn min_greater_than_max_is_rejected() {
    let cfg = SessionPoolConfig {
        min_size: 9,
        max_size: 8,
        ..Default::default()
    };
    assert!(matches!(
        TestPool::new(cfg, moment()),
        Err(Error::Client(m)) if m == "pool min_size (9) > max_size (8)"
    ));
}

#[test]
fn exhausted_pool_times_out_with_typed_error() {
    // max_size 0: nothing idle, no growth allowed → deadline error.
    let cfg = SessionPoolConfig {
        max_size: 0,
        acquire_timeout: Duration::from_millis(50),
        session: dead_endpoint_config(),
        ..Default::default()
    };
    let start = moment();
    let mut pool: TestPool = SessionPool::new(cfg, start).unwrap();
    let mut acquire = pool.acquire(start);
    match pool.acquire_step(&mut acquire, start) {
        AcquireStep::Wait(wait) => assert_eq!(wait, Wait::AtMost(Duration::from_millis(50))),
        other => panic!("expected to wait, got {other:?}"),
    }
    match pool.acquire_step(&mut acquire, later(start, Duration::from_millis(50))) {
        AcquireStep::Fail(Error::Client(msg)) => assert_eq!(
            msg,
            "pool exhausted: no session available within 50ms (0 live, max 0)"
        ),
        other => panic!("expected pool-exhausted error, got {other:?}"),
    }
}

#[test]
fn dead_idle_sessions_are_evicted_on_acquire() {
    let cfg = SessionPoolConfig {
        max_size: 1,
        acquire_timeout: Duration::from_millis(50),
        session: dead_endpoint_config(),
        ..Default::default()
    };
    let now = moment();
    let mut pool: TestPool = SessionPool::new(cfg, now).unwrap();
    // A never-opened session is dead (is_open() == false).
    pool.add_idle(Session::new(dead_endpoint_config()), now);
    assert_eq!(pool.live_count(), 1);

    // Acquire evicts the dead session, then tries to open a fresh one,
    // which fails against the dead endpoint — a connect error, NOT
    // "pool exhausted".
    let mut acquire = pool.acquire(now);
    match pool.acquire_step(&mut acquire, now) {
        AcquireStep::Open(_) => {}
        other => panic!("expected growth, got {other:?}"),
    }
    pool.open_failed(&mut acquire, refused(), now);
    match pool.acquire_step(&mut acquire, later(now, Duration::from_millis(50))) {
        AcquireStep::Fail(Error::Thrift(_)) => {}
        other => panic!("expected thrift connect error, got {other:?}"),
    }
    // The dead session and the failed growth slot are both released.
    assert_eq!(pool.live_count(), 0);
}

#[test]
fn acquire_on_closed_pool_fails() {
    let cfg = SessionPoolConfig {
        session: dead_endpoint_config(),
        ..Default::default()
    };
    let now = moment();
    let mut pool: TestPool = SessionPool::new(cfg, now).unwrap();
    pool.close();
    let mut acquire = pool.acquire(now);
    match pool.acquire_step(&mut acquire, now) {
        AcquireStep::Fail(Error::Client(msg)) => assert!(msg.contains("closed"), "{msg}"),
        other => panic!("expected closed-pool error, got {other:?}"),
    };
}

#[test]
fn releasing_dead_session_shrinks_live_count() {
    let cfg = SessionPoolConfig {
        max_size: 1,
        session: dead_endpoint_config(),
        ..Default::default()
    };
    let now = moment();
    let mut pool: TestPool = SessionPool::new(cfg, now).unwrap();
    // A handed-out session that dies before release.
    let mut acquire = pool.acquire(now);
    assert!(matches!(pool.acquire_step(&mut acquire, now), AcquireStep::Open(_)));
    assert_eq!(pool.live_count(), 1);
    assert!(pool.release(Session::new(dead_endpoint_config()), now).is_empty());
    assert_eq!(pool.live_count(), 0);
    assert_eq!(pool.idle_count(), 0);
}

#[test]
fn table_pool_forces_table_dialect() {
    let cfg = SessionPoolConfig {
        session: SessionConfig {
            sql_dialect: "tree".into(), // deliberately wrong
            ..dead_endpoint_config()
        },
        ..Default::default()
    };
    let mut pool: TableSessionPool<()> = TableSessionPool::new(cfg, moment()).unwrap();
    assert_eq!(pool.pool().config().session.sql_dialect, "table");
    assert_eq!((pool.live_count(), pool.idle_count()), (0, 0));
    assert_eq!(pool.pool_mut().open_config().sql_dialect, "table");
}

#[test]
fn acquire_for_device_prefers_hinted_endpoint() {
    let ep_a = Endpoint::new("127.0.0.1", 7001);
    let ep_b = Endpoint::new("127.0.0.1", 7002);

    let cfg = SessionPoolConfig {
        max_size: 4,
        acquire_timeout: Duration::from_millis(50),
        session: dead_endpoint_config(),
        ..Default::default()
    };
    let now = moment();
    let mut pool: TestPool = SessionPool::new(cfg, now).unwrap();

    // s1 (connected to A) holds the redirect hint pointing at B;
    // s2 is connected to B — the hinted target.
    let mut s1 = injected_session(&ep_a);
    s1.remember_redirect("root.sg.d1", ep_b.clone());
    let s2 = injected_session(&ep_b);
    pool.add_idle(s1, now);
    pool.add_idle(s2, now);

    // Hinted device → the session on endpoint B, even though the
    // session on A is first in the idle queue.
    let session = pool.acquire_for_device("root.sg.d1").unwrap();
    assert_eq!(session.current_endpoint(), Some(&ep_b));
    pool.release(session, now);

    // Unknown device → plain FIFO acquire (the session on A).
    assert!(pool.acquire_for_device("root.sg.unknown").is_none());
    let mut acquire = pool.acquire(now);
    match pool.acquire_step(&mut acquire, now) {
        AcquireStep::HandOut(session) => assert_eq!(session.current_endpoint(), Some(&ep_a)),
        other => panic!("expected a session, got {other:?}"),
    }
}

/// When idle sessions hold conflicting hints for one device, the **newest**
/// hint wins, not the session nearest the queue head.
#[test]
fn acquire_for_device_prefers_newest_conflicting_hint() {
    let ep_x = Endpoint::new("127.0.0.1", 7001);
    let ep_y = Endpoint::new("127.0.0.1", 7002);
    let ep_b = Endpoint::new("127.0.0.1", 7003);
    let ep_c = Endpoint::new("127.0.0.1", 7004);

    let cfg = SessionPoolConfig {
        max_size: 4,
        acquire_timeout: Duration::from_millis(50),
        session: dead_endpoint_config(),
        ..Default::default()
    };
    let now = moment();
    let mut pool: TestPool = SessionPool::new(cfg, now).unwrap();

    // Older hint (inserted first, seq 1) points at B.
    let mut s_old_hint = injected_session(&ep_x);
    s_old_hint.remember_redirect("root.sg.d1", ep_b.clone());
    let (_, seq) = s_old_hint.redirect_hint_with_seq("root.sg.d1").unwrap();
    assert_eq!(seq, 1);
    // Newer hint (seq 2) points at C. Both hint-holders precede the
    // hinted sessions in the idle queue, so queue position would pick B.
    let mut s_new_hint = injected_session(&ep_y);
    s_new_hint.resume_hints_from(seq);
    s_new_hint.remember_redirect("root.sg.d1", ep_c.clone());
    let s_on_b = injected_session(&ep_b);
    let s_on_c = injected_session(&ep_c);
    pool.add_idle(s_old_hint, now);
    pool.add_idle(s_new_hint, now);
    pool.add_idle(s_on_b, now);
    pool.add_idle(s_on_c, now);

    let session = pool.acquire_for_device("root.sg.d1").unwrap();
    assert_eq!(session.current_endpoint(), Some(&ep_c));
}

#[test]
fn acquire_for_device_falls_back_when_no_session_matches_hint() {
    let ep_a = Endpoint::new("127.0.0.1", 7001);
    let ep_gone = Endpoint::new("10.255.255.1", 6667); // nobody connected here

    let cfg = SessionPoolConfig {
        max_size: 4,
        acquire_timeout: Duration::from_millis(50),
        session: dead_endpoint_config(),
        ..Default::default()
    };
    let now = moment();
    let mut pool: TestPool = SessionPool::new(cfg, now).unwrap();
    let mut s1 = injected_session(&ep_a);
    s1.remember_redirect("root.sg.d1", ep_gone);
    pool.add_idle(s1, now);

    // Hint exists but no idle session is connected to that endpoint →
    // normal acquire semantics (FIFO hand-out of s1).
    assert!(pool.acquire_for_device("root.sg.d1").is_none());
    let mut acquire = pool.acquire(now);
    match pool.acquire_step(&mut acquire, now) {
        AcquireStep::HandOut(session) => assert_eq!(session.current_endpoint(), Some(&ep_a)),
        other => panic!("expected a session, got {other:?}"),
    }
}

/// Sessions idle past `max_idle_time` are closed by the sweep on the
/// next acquire; the freed capacity is then used to (try to) grow.
#[test]
fn idle_sessions_are_evicted_on_acquire() {
    let ep = Endpoint::new("127.0.0.1", 6667);
    let cfg = SessionPoolConfig {
        max_size: 4,
        acquire_timeout: Duration::from_millis(50),
        max_idle_time: Duration::from_millis(5),
        idle_sweep_interval: Duration::from_millis(1),
        session: dead_endpoint_config(),
        ..Default::default()
    };
    let start = moment();
    let mut pool: TestPool = SessionPool::new(cfg, start).unwrap();
    pool.add_idle(injected_session(&ep), start);
    pool.add_idle(injected_session(&ep), start);
    assert_eq!(pool.idle_count(), 2);

    // Exceed max_idle_time, then acquire: the sweep evicts both idle
    // sessions and the acquire grows — which fails against the dead
    // endpoint (a connect error, proving the idle queue really was
    // emptied rather than handed out).
    let now = later(start, Duration::from_millis(10));
    let mut acquire = pool.acquire(now);
    match pool.acquire_step(&mut acquire, now) {
        AcquireStep::Close(expired) => assert_eq!(expired.len(), 2),
        other => panic!("expected evictions, got {other:?}"),
    }
    assert!(matches!(pool.acquire_step(&mut acquire, now), AcquireStep::Open(_)));
    pool.open_failed(&mut acquire, refused(), now);
    match pool.acquire_step(&mut acquire, later(now, Duration::from_millis(50))) {
        AcquireStep::Fail(Error::Thrift(_)) => {}
        other => panic!("expected thrift connect error, got {other:?}"),
    }
    assert_eq!(pool.idle_count(), 0);
    assert_eq!(pool.live_count(), 0);
}

/// The sweep never shrinks the pool (idle + handed out) below
/// `min_size`, evicting oldest-first.
#[test]
fn idle_sweep_respects_min_size_floor() {
    let cfg = SessionPoolConfig {
        max_size: 4,
        min_size: 2,
        max_idle_time: Duration::from_millis(5),
        idle_sweep_interval: Duration::from_millis(1),
        session: dead_endpoint_config(),
        ..Default::default()
    };
    let now = moment();
    let old = earlier(now, Duration::from_millis(10));
    let mut pool: TestPool = SessionPool::new(cfg, old).unwrap();
    for port in [1, 2, 3] {
        pool.add_idle(injected_session(&Endpoint::new("h", port)), old);
    }

    let expired = pool.sweep_idle(now);
    // All 3 exceed max_idle_time, but only 1 may go: 3 live - 1 = floor.
    assert_eq!(expired.len(), 1);
    assert_eq!(expired[0].current_endpoint(), Some(&Endpoint::new("h", 1)));
    assert_eq!(pool.idle_count(), 2);
    assert_eq!(pool.live_count(), 2);
}

/// The sweep is a no-op until `idle_sweep_interval` has passed since the
/// previous sweep — even when idle sessions have already expired.
#[test]
fn idle_sweep_is_gated_by_interval() {
    let ep = Endpoint::new("127.0.0.1", 6667);
    let cfg = SessionPoolConfig {
        max_size: 4,
        max_idle_time: Duration::from_millis(1),
        idle_sweep_interval: Duration::from_secs(3600),
        session: dead_endpoint_config(),
        ..Default::default()
    };
    let now = moment();
    let mut pool: TestPool = SessionPool::new(cfg, now).unwrap();
    pool.add_idle(injected_session(&ep), earlier(now, Duration::from_secs(10)));
    // Entry long expired, but the last sweep (pool creation) is recent
    // relative to the huge interval → gated.
    assert!(pool.sweep_idle(now).is_empty());
    assert_eq!(pool.idle_count(), 1);

    // Once the interval has elapsed the same entry is evicted…
    let due = later(now, Duration::from_secs(3601));
    assert_eq!(pool.sweep_idle(due).len(), 1);
    // …and last_sweep was refreshed, so an immediate re-sweep is gated.
    assert!(pool.sweep_idle(due).is_empty());
}

/// Releasing a session also drives the sweep: the stale idle session is
/// evicted while the just-released (fresh) one stays.
#[test]
fn release_triggers_sweep_but_keeps_fresh_session() {
    let ep = Endpoint::new("127.0.0.1", 6667);
    let cfg = SessionPoolConfig {
        max_size: 4,
        max_idle_time: Duration::from_millis(5),
        idle_sweep_interval: Duration::from_millis(1),
        session: dead_endpoint_config(),
        ..Default::default()
    };
    let now = moment();
    let old = earlier(now, Duration::from_millis(10));
    let mut pool: TestPool = SessionPool::new(cfg, old).unwrap();
    // A session is out…
    let mut acquire = pool.acquire(old);
    assert!(matches!(pool.acquire_step(&mut acquire, old), AcquireStep::Open(_)));
    // …while another goes stale.
    pool.add_idle(injected_session(&ep), old);

    let expired = pool.release(injected_session(&ep), now);
    assert_eq!(expired.len(), 1);
    assert_eq!(pool.idle_count(), 1, "stale evicted, fresh kept");
    assert_eq!(pool.live_count(), 1);
}

#[test]
fn databases_follow_released_sessions() {
    let cfg = SessionPoolConfig {
        session: SessionConfig { database: Some("db0".into()), ..dead_endpoint_config() },
        ..Default::default()
    };
    let now = moment();
    let mut pool: TestPool = SessionPool::new(cfg, now).unwrap();
    assert_eq!(pool.open_config().database.as_deref(), Some("db0"));
    let mut acquire = pool.acquire(now);
    let config = match pool.acquire_step(&mut acquire, now) {
        AcquireStep::Open(config) => config,
        other => panic!("expected growth, got {other:?}"),
    };
    let mut session: TestSession = Session::new(config);
    session.opened(
        Connection::new(Endpoint::new("h", 1), RpcProtocol::Binary, ()),
        1,
        1,
    );
    // It opened in the pool's database, so nothing is to be replayed.
    assert_eq!(pool.catch_up_statement(&session), None);
    let other = injected_session(&Endpoint::new("h", 2));
    assert_eq!(pool.catch_up_statement(&other).as_deref(), Some("USE db0"));

    // A session that moved to another database takes the pool along.
    let moved_config = SessionConfig { database: Some("db1".into()), ..dead_endpoint_config() };
    let mut moved: TestSession = Session::new(moved_config);
    moved.opened(
        Connection::new(Endpoint::new("h", 3), RpcProtocol::Binary, ()),
        1,
        1,
    );
    pool.release(moved, now);
    assert_eq!(pool.catch_up_statement(&session).as_deref(), Some("USE db1"));
    assert_eq!(pool.open_config().database.as_deref(), Some("db1"));
}

#[test]
fn failed_hand_outs_go_on_with_the_next_candidate() {
    let now = moment();
    let mut pool: TestPool = SessionPool::new(SessionPoolConfig::default(), now).unwrap();
    pool.add_idle(injected_session(&Endpoint::new("h", 1)), now);
    pool.add_idle(injected_session(&Endpoint::new("h", 2)), now);
    let mut acquire = pool.acquire(now);
    assert!(matches!(pool.acquire_step(&mut acquire, now), AcquireStep::HandOut(_)));
    pool.hand_out_failed(&mut acquire, Error::Client("USE failed".into()));
    assert_eq!(pool.live_count(), 1);
    match pool.acquire_step(&mut acquire, now) {
        AcquireStep::HandOut(s) => {
            assert_eq!(s.current_endpoint(), Some(&Endpoint::new("h", 2)))
        }
        other => panic!("expected the second session, got {other:?}"),
    }
    pool.discard();
    assert_eq!(pool.live_count(), 0);
    // The last failure is what a timed-out acquire reports.
    let end = later(now, Duration::from_secs(60));
    match pool.acquire_step(&mut acquire, end) {
        AcquireStep::Fail(Error::Client(m)) => assert_eq!(m, "USE failed"),
        other => panic!("expected the last failure, got {other:?}"),
    }
}

#[test]
fn closing_drains_the_idle_sessions() {
    let now = moment();
    let mut pool: TestPool = SessionPool::new(SessionPoolConfig::default(), now).unwrap();
    for port in [1, 2, 3] {
        pool.add_idle(injected_session(&Endpoint::new("h", port)), now);
    }
    let mut acquire = pool.acquire(now);
    let out = match pool.acquire_step(&mut acquire, now) {
        AcquireStep::HandOut(s) => s,
        other => panic!("expected a session, got {other:?}"),
    };
    let drained = pool.close();
    assert_eq!(drained.len(), 2);
    assert_eq!(drained[0].current_endpoint(), Some(&Endpoint::new("h", 2)));
    assert_eq!((pool.live_count(), pool.idle_count()), (1, 0));
    assert_eq!(pool.release(out, now).len(), 1);
    assert_eq!(pool.live_count(), 0);
    assert!(pool.acquire_for_device("d").is_none());
}

#[test]
fn table_pools_acquire_and_close_like_plain_ones() {
    let hinted = Endpoint::new("127.0.0.1", 7002);
    let now = moment();
    let cfg = SessionPoolConfig {
        max_size: 2,
        session: dead_endpoint_config(),
        ..Default::default()
    };
    let mut pool: TableSessionPool<()> = TableSessionPool::new(cfg, now).unwrap();
    let mut session = injected_session(&hinted);
    session.remember_redirect("sensors", hinted.clone());
    pool.pool_mut().add_idle(session, now);
    pool.pool_mut().add_idle(injected_session(&Endpoint::new("127.0.0.1", 7001)), now);

    let taken = pool.acquire_for_device("sensors").expect("connected to the hinted node");
    assert_eq!(taken.current_endpoint(), Some(&hinted));
    assert_eq!((pool.live_count(), pool.idle_count()), (2, 1));
    assert!(pool.acquire_for_device("unknown").is_none());

    assert_eq!(pool.close().len(), 1);
    let mut acquire = pool.acquire(now);
    assert!(matches!(
        pool.pool_mut().acquire_step(&mut acquire, now),
        AcquireStep::Fail(Error::Client(m)) if m == "session pool is closed"
    ));
    let inner = pool.into_pool();
    assert_eq!((inner.live_count(), inner.idle_count()), (1, 0));
}

#[test]
fn a_new_session_that_cannot_be_handed_out_ends_the_acquire() {
    let now = moment();
    let cfg = SessionPoolConfig { session: dead_endpoint_config(), ..Default::default() };
    let mut pool: TestPool = SessionPool::new(cfg, now).unwrap();
    let mut acquire = pool.acquire(now);
    assert!(matches!(pool.acquire_step(&mut acquire, now), AcquireStep::Open(_)));
    assert_eq!(pool.live_count(), 1);
    assert!(matches!(
        pool.new_session_failed(Error::Client("USE failed".into())),
        Error::Client(m) if m == "USE failed"
    ));
    assert_eq!((pool.live_count(), pool.idle_count()), (0, 0));
}

#[test]
fn continued_numbers_compare_across_sessions() {
    let (old_node, new_node) = (Endpoint::new("a", 1), Endpoint::new("b", 2));
    let now = moment();
    let mut pool: TestPool = SessionPool::new(SessionPoolConfig::default(), now).unwrap();
    let mut newer = injected_session(&old_node);
    newer.resume_hints_from(7);
    newer.remember_redirect("d", new_node.clone());
    assert_eq!(newer.redirect_hint_with_seq("d"), Some((new_node.clone(), 8)));
    let mut older = injected_session(&new_node);
    older.resume_hints_from(6);
    older.remember_redirect("d", old_node);
    pool.add_idle(newer, now);
    pool.add_idle(older, now);
    let taken = pool.acquire_for_device("d").expect("connected to the newest hint");
    assert_eq!(taken.current_endpoint(), Some(&new_node));
}
