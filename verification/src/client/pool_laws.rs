//! Which sessions a pool gives out, keeps and closes.

use vstd::prelude::*;

use super::pool::{
    connected_to, dead_in_front, first_connected, hinted_session, hints_view,
    is_acquire_step, is_wait_left, looked_up, newest_hint, out_of_time, session_views, sweep,
    taken_for_device, AcquireStep, AcquireView, IdleView, PoolView, Wait,
};
use super::redirect::{HintView, RedirectCacheView};
use super::session::config::SessionConfigView;
use super::session::{Session, SessionView};
use crate::connection::{same_node, Endpoint, EndpointView};
use crate::error::ErrorView;
use crate::text::decimal;
use crate::time::{elapsed, shown_duration, Instant};

verus! {

proof fn lemma_newest_hint(hints: Seq<Option<(EndpointView, u64)>>, k: nat, j: int)
    requires
        k <= hints.len(),
    ensures
        (forall|i: int| 0 <= i < k ==> (#[trigger] hints[i]) is None) ==> newest_hint(hints, k)
            is None,
        0 <= j < k && hints[j] is Some && (forall|i: int|
            0 <= i < k ==> (#[trigger] hints[i] matches Some(h) ==> h.1 < (hints[j]->0).1
                || h.1 == (hints[j]->0).1 && i <= j)) ==> newest_hint(hints, k) == hints[j],
        newest_hint(hints, k) matches Some(best) ==> exists|i: int|
            0 <= i < k && #[trigger] hints[i] == Some(best),
    decreases k,
{
    if k > 0 {
        lemma_newest_hint(hints, (k - 1) as nat, j);
        assert(hints[k - 1] == hints[k - 1]);
        if 0 <= j < k && hints[j] is Some && (forall|i: int|
            0 <= i < k ==> (#[trigger] hints[i] matches Some(h) ==> h.1 < (hints[j]->0).1 || h.1
                == (hints[j]->0).1 && i <= j)) {
            if j == k - 1 {
                let before = newest_hint(hints, (k - 1) as nat);
                if let Some(b) = before {
                    let i = choose|i: int| 0 <= i < k - 1 && #[trigger] hints[i] == Some(b);
                    assert(hints[i] is Some);
                }
            }
        }
    }
}

proof fn lemma_first_connected<C>(idle: Seq<IdleView<C>>, node: EndpointView, k: nat)
    requires
        k <= idle.len(),
    ensures
        match first_connected(idle, node, k) {
            Some(i) => 0 <= i < k && connected_to(idle[i].session, node) && forall|j: int|
                0 <= j < i ==> !connected_to((#[trigger] idle[j]).session, node),
            None => forall|j: int| 0 <= j < k ==> !connected_to((#[trigger] idle[j]).session, node),
        },
    decreases k,
{
    if k > 0 {
        lemma_first_connected(idle, node, (k - 1) as nat);
    }
}

/// A session given out for a device is connected to the same node, by port and
/// host, as the newest hint, and is the first idle session that is. None is
/// given out only if no idle session is connected to that node. Of hints with
/// the same number the last counts.
pub proof fn law_hinted_session_is_at_the_newest_hint<C>(
    idle: Seq<IdleView<C>>,
    hints: Seq<Option<(EndpointView, u64)>>,
    j: int,
    node: EndpointView,
    seq: u64,
)
    requires
        0 <= j < hints.len(),
        hints[j] == Some((node, seq)),
        forall|i: int|
            0 <= i < hints.len() ==> (#[trigger] hints[i] matches Some(h) ==> h.1 < seq || h.1
                == seq && i <= j),
    ensures
        hinted_session(idle, hints) matches Some(i) ==> {
            &&& 0 <= i < idle.len()
            &&& idle[i].session.connection is Some
            &&& same_node(idle[i].session.connection->0.spec_endpoint()@, node)
            &&& idle[i].session.connection->0.spec_endpoint()@.port == node.port
            &&& forall|k: int|
                0 <= k < i ==> ((#[trigger] idle[k]).session.connection matches Some(c)
                    ==> !same_node(c.spec_endpoint()@, node))
        },
        hinted_session(idle, hints) is None ==> forall|k: int|
            0 <= k < idle.len() ==> ((#[trigger] idle[k]).session.connection matches Some(c)
                ==> !same_node(c.spec_endpoint()@, node)),
{
    lemma_newest_hint(hints, hints.len(), j);
    lemma_first_connected(idle, node, idle.len());
}

/// Without a hint no session is given out.
pub proof fn law_no_hint_gives_no_session<C>(
    idle: Seq<IdleView<C>>,
    hints: Seq<Option<(EndpointView, u64)>>,
)
    requires
        forall|i: int| 0 <= i < hints.len() ==> (#[trigger] hints[i]) is None,
    ensures
        hinted_session(idle, hints) is None,
{
    lemma_newest_hint(hints, hints.len(), 0);
}

proof fn lemma_index_of(cache: RedirectCacheView, device: Seq<char>, now: int)
    ensures
        cache.lookup(device, now) matches Some(h) ==> cache.hints.contains(h) && h.device == device,
{
}

/// A closed pool gives out no session for a device. An open one gives out at
/// most one of its idle sessions: it is connected, and to a node that the hint
/// of an idle session for this very device named. Nothing else of the pool
/// changes but that looking a hint up may drop it.
pub proof fn law_device_session_follows_a_hint<C>(
    before: PoolView<C>,
    device: Seq<char>,
    session: Option<Session<C>>,
    after: PoolView<C>,
)
    requires
        taken_for_device(before, device, session, after),
    ensures
        before.closed ==> session is None && after == before,
        after.config == before.config,
        after.closed == before.closed,
        after.last_sweep == before.last_sweep,
        after.live == before.live,
        after.database == before.database,
        session is None ==> after.idle.len() == before.idle.len(),
        session matches Some(s) ==> {
            &&& after.idle.len() == before.idle.len() - 1
            &&& s@.connection is Some
            &&& exists|i: int, h: HintView|
                {
                    &&& 0 <= i < before.idle.len()
                    &&& #[trigger] before.idle[i].session.redirects.hints.contains(h)
                    &&& h.device == device
                    &&& same_node(s@.connection->0.spec_endpoint()@, h.endpoint)
                }
            &&& exists|i: int|
                {
                    &&& 0 <= i < before.idle.len()
                    &&& (#[trigger] before.idle[i]).session.connection == s@.connection
                    &&& before.idle[i].session.session_id == s@.session_id
                }
        },
{
    if !before.closed {
        let (looked, hints) = choose|looked: Seq<IdleView<C>>, hints: Seq<Option<(Endpoint, u64)>>|
            {
                &&& looked.len() == before.idle.len() == hints.len()
                &&& forall|i: int|
                    0 <= i < hints.len() ==> looked_up(
                        before.idle[i],
                        looked[i],
                        device,
                        #[trigger] hints[i],
                    )
                &&& match (session, #[trigger] hinted_session(looked, hints_view(hints))) {
                    (Some(s), Some(i)) => {
                        &&& s@ == looked[i].session
                        &&& s@.wf()
                        &&& after == (PoolView { idle: looked.remove(i), ..before })
                    },
                    (None, None) => after == (PoolView { idle: looked, ..before }),
                    _ => false,
                }
            };
        let view = hints_view(hints);
        lemma_newest_hint(view, view.len(), 0);
        if let Some(s) = session {
            let i = hinted_session(looked, view)->0;
            let best = newest_hint(view, view.len())->0;
            lemma_first_connected(looked, best.0, looked.len());
            let k = choose|k: int| 0 <= k < view.len() && #[trigger] view[k] == Some(best);
            assert(hints[k] is Some);
            assert(looked_up(before.idle[k], looked[k], device, hints[k]));
            let cache = before.idle[k].session.redirects;
            let now = choose|now: Instant|
                {
                    &&& now.nanos <= crate::time::MAX_DURATION_NANOS
                    &&& looked[k] == (IdleView {
                        session: SessionView {
                            redirects: #[trigger] before.idle[k].session.redirects.after_lookup(
                                device,
                                now.nanos as int,
                            ),
                            ..before.idle[k].session
                        },
                        ..before.idle[k]
                    })
                    &&& crate::client::session::hint_found(
                        hints[k],
                        before.idle[k].session.redirects.lookup(device, now.nanos as int),
                    )
                };
            let h = cache.lookup(device, now.nanos as int)->0;
            lemma_index_of(cache, device, now.nanos as int);
            assert(before.idle[k].session.redirects.hints.contains(h));
            assert(h.endpoint == best.0);
            assert(looked_up(before.idle[i], looked[i], device, hints[i]));
            assert(before.idle[i].session.connection == s@.connection);
        }
    }
}

/// Looking up the hint of an idle session changes nothing of it but its cache.
pub proof fn law_lookup_changes_only_the_cache<C>(
    before: IdleView<C>,
    after: IdleView<C>,
    device: Seq<char>,
    hint: Option<(Endpoint, u64)>,
)
    requires
        looked_up(before, after, device, hint),
    ensures
        after.since == before.since,
        after.session.connection == before.session.connection,
        after.session.session_id == before.session.session_id,
        after.session.statement_id == before.session.statement_id,
        after.session.config == before.session.config,
        after.session.database == before.session.database,
        after.session.last_endpoint == before.session.last_endpoint,
        after.session.pooled == before.session.pooled,
{
}

/// Whether `some` and `rest` share out the numbers below `n`: each list
/// ascends, and every number stands in exactly one of them.
pub open spec fn share_out(some: Seq<int>, rest: Seq<int>, n: nat) -> bool {
    &&& some.len() + rest.len() == n
    &&& forall|a: int| 0 <= a < some.len() ==> 0 <= #[trigger] some[a] < n
    &&& forall|a: int| 0 <= a < rest.len() ==> 0 <= #[trigger] rest[a] < n
    &&& forall|a: int, b: int| 0 <= a < b < some.len() ==> #[trigger] some[a] < #[trigger] some[b]
    &&& forall|a: int, b: int| 0 <= a < b < rest.len() ==> #[trigger] rest[a] < #[trigger] rest[b]
    &&& forall|a: int, b: int|
        0 <= a < some.len() && 0 <= b < rest.len() ==> #[trigger] some[a] != #[trigger] rest[b]
}

spec fn behind(first: Option<int>, later: Seq<int>) -> Seq<int> {
    match first {
        Some(f) => seq![f] + later.map_values(|i: int| i + 1),
        None => later.map_values(|i: int| i + 1),
    }
}

proof fn lemma_share_out_front(some: Seq<int>, rest: Seq<int>, n: nat)
    requires
        share_out(some, rest, n),
    ensures
        share_out(behind(Some(0), some), behind(None, rest), n + 1),
        share_out(behind(None, some), behind(Some(0), rest), n + 1),
{
}

proof fn lemma_all_stay(n: nat)
    ensures
        share_out(Seq::empty(), Seq::new(n, |i: int| i), n),
{
}

proof fn lemma_sweep_shares_out<C>(
    idle: Seq<IdleView<C>>,
    live: int,
    min: int,
    max_idle: int,
    now: int,
) -> (gone_and_kept: (Seq<int>, Seq<int>))
    requires
        idle.len() <= live,
    ensures
        ({
            let (gone, kept) = gone_and_kept;
            let (stay, go) = sweep(idle, live, min, max_idle, now);
            &&& share_out(gone, kept, idle.len())
            &&& go.len() == gone.len()
            &&& stay.len() == kept.len()
            &&& forall|a: int|
                0 <= a < gone.len() ==> #[trigger] go[a] == idle[gone[a]].session
            &&& forall|a: int| 0 <= a < kept.len() ==> #[trigger] stay[a] == idle[kept[a]]
            &&& forall|a: int|
                0 <= a < gone.len() ==> elapsed(idle[#[trigger] gone[a]].since, now) > max_idle
            &&& forall|a: int, b: int|
                0 <= a < kept.len() && 0 <= b < gone.len() && #[trigger] kept[a]
                    < #[trigger] gone[b] ==> elapsed(idle[kept[a]].since, now) <= max_idle
            &&& live - gone.len() > min ==> forall|a: int|
                0 <= a < kept.len() ==> elapsed(idle[#[trigger] kept[a]].since, now) <= max_idle
            &&& gone.len() > 0 ==> live - gone.len() >= min
        }),
    decreases idle.len(),
{
    let n = idle.len();
    if n == 0 || live <= min {
        lemma_all_stay(n);
        (Seq::empty(), Seq::new(n, |i: int| i))
    } else {
        let rest = idle.drop_first();
        let goes = elapsed(idle[0].since, now) > max_idle;
        let left = if goes {
            live - 1
        } else {
            live
        };
        let (gone0, kept0) = lemma_sweep_shares_out(rest, left, min, max_idle, now);
        let (stay0, go0) = sweep(rest, left, min, max_idle, now);
        let (stay, go) = sweep(idle, live, min, max_idle, now);
        lemma_share_out_front(gone0, kept0, rest.len());
        lemma_share_out_front(kept0, gone0, rest.len());
        let (gone, kept) = if goes {
            (behind(Some(0), gone0), behind(None, kept0))
        } else {
            (behind(None, gone0), behind(Some(0), kept0))
        };
        let g: int = if goes {
            1
        } else {
            0
        };
        let k: int = 1 - g;
        assert forall|a: int| 0 <= a < gone.len() implies {
            &&& go[a] == idle[#[trigger] gone[a]].session
            &&& elapsed(idle[gone[a]].since, now) > max_idle
        } by {
            if a >= g {
                assert(gone[a] == gone0[a - g] + 1);
                assert(go[a] == go0[a - g]);
                assert(rest[gone0[a - g]] == idle[gone[a]]);
            }
        }
        assert forall|a: int| 0 <= a < kept.len() implies stay[a] == idle[#[trigger] kept[a]] by {
            if a >= k {
                assert(kept[a] == kept0[a - k] + 1);
                assert(stay[a] == stay0[a - k]);
                assert(rest[kept0[a - k]] == idle[kept[a]]);
            }
        }
        assert forall|a: int, b: int|
            0 <= a < kept.len() && 0 <= b < gone.len() && #[trigger] kept[a]
                < #[trigger] gone[b] implies elapsed(idle[kept[a]].since, now) <= max_idle by {
            if a >= k {
                assert(kept[a] == kept0[a - k] + 1);
                if b >= g {
                    assert(gone[b] == gone0[b - g] + 1);
                    assert(rest[kept0[a - k]] == idle[kept[a]]);
                }
            }
        }
        if live - gone.len() > min {
            assert forall|a: int| 0 <= a < kept.len() implies elapsed(
                idle[#[trigger] kept[a]].since,
                now,
            ) <= max_idle by {
                if a >= k {
                    assert(kept[a] == kept0[a - k] + 1);
                    assert(rest[kept0[a - k]] == idle[kept[a]]);
                }
            }
        }
        (gone, kept)
    }
}

/// A sweep shares the idle sessions out, each to those taken out or to those
/// that stay, both in their order. All that are taken out have been idle for
/// longer than allowed, the longest idle before any other, and of those that
/// stay none has, unless the pool is down to its minimum size.
pub proof fn law_sweep_takes_the_overdue<C>(pool: PoolView<C>, now: int) -> (gone_and_kept: (
    Seq<int>,
    Seq<int>,
))
    requires
        pool.wf(),
        pool.sweep_due(now),
    ensures
        ({
            let (gone, kept) = gone_and_kept;
            let after = pool.after_sweep(now);
            let out = pool.swept_out(now);
            let max_idle = pool.config.max_idle_time.nanos;
            &&& share_out(gone, kept, pool.idle.len())
            &&& out.len() == gone.len()
            &&& after.idle.len() == kept.len()
            &&& forall|a: int|
                0 <= a < gone.len() ==> #[trigger] out[a] == pool.idle[gone[a]].session
            &&& forall|a: int|
                0 <= a < kept.len() ==> #[trigger] after.idle[a] == pool.idle[kept[a]]
            &&& forall|a: int|
                0 <= a < gone.len() ==> now - pool.idle[#[trigger] gone[a]].since > max_idle
            &&& forall|a: int, b: int|
                0 <= a < kept.len() && 0 <= b < gone.len() && #[trigger] kept[a]
                    < #[trigger] gone[b] ==> now - pool.idle[kept[a]].since <= max_idle
            &&& after.live > pool.config.min_size ==> forall|a: int|
                0 <= a < kept.len() ==> now - pool.idle[#[trigger] kept[a]].since <= max_idle
            &&& after.live == pool.live - gone.len()
            &&& gone.len() > 0 ==> after.live >= pool.config.min_size
            &&& after.last_sweep == now
            &&& after.config == pool.config
            &&& after.closed == pool.closed
            &&& after.database == pool.database
        }),
{
    lemma_sweep_shares_out(
        pool.idle,
        pool.live as int,
        pool.config.min_size as int,
        pool.config.max_idle_time.nanos as int,
        now,
    )
}

/// A sweep is due once the interval between sweeps has passed since the last
/// one; before, nothing is taken out and nothing changes.
pub proof fn law_sweeps_keep_their_interval<C>(pool: PoolView<C>, now: int)
    requires
        now >= pool.last_sweep,
    ensures
        pool.sweep_due(now) <==> now >= pool.last_sweep + pool.config.idle_sweep_interval.nanos,
        now < pool.last_sweep + pool.config.idle_sweep_interval.nanos ==> pool.after_sweep(now)
            == pool && pool.swept_out(now).len() == 0,
{
}

/// Clearing the front of the queue drops dead sessions up to the first one that
/// is open, which then stands in front, and gives up their places.
pub proof fn law_dead_sessions_are_dropped<C>(pool: PoolView<C>) -> (n: int)
    requires
        pool.wf(),
    ensures
        0 <= n <= pool.idle.len(),
        forall|i: int| 0 <= i < n ==> (#[trigger] pool.idle[i]).session.connection is None,
        n < pool.idle.len() ==> pool.idle[n].session.connection is Some,
        pool.without_dead().idle == pool.idle.skip(n),
        pool.without_dead().live == pool.live - n,
        pool.without_dead().config == pool.config,
        pool.without_dead().closed == pool.closed,
        pool.without_dead().last_sweep == pool.last_sweep,
        pool.without_dead().database == pool.database,
{
    lemma_dead_in_front(pool.idle);
    let n = dead_in_front(pool.idle) as int;
    assert(pool.without_dead().idle =~= pool.idle.skip(n));
    n
}

proof fn lemma_dead_in_front<C>(idle: Seq<IdleView<C>>)
    ensures
        dead_in_front(idle) <= idle.len(),
        forall|i: int|
            0 <= i < dead_in_front(idle) ==> (#[trigger] idle[i]).session.connection is None,
        dead_in_front(idle) < idle.len() ==> idle[dead_in_front(idle) as int].session.connection
            is Some,
    decreases idle.len(),
{
    if idle.len() > 0 && !idle[0].session.is_open() {
        let rest = idle.drop_first();
        lemma_dead_in_front(rest);
        assert forall|i: int| 0 <= i < dead_in_front(idle) implies (
        #[trigger] idle[i]).session.connection is None by {
            if i > 0 {
                assert(rest[i - 1] == idle[i]);
            }
        }
    }
}

/// A session needs a statement to catch up with its pool exactly when the pool
/// has a database and the session is not in it; the statement selects it.
pub proof fn law_sessions_catch_up<C>(pool: PoolView<C>, session: SessionView<C>)
    ensures
        pool.catch_up(session) is Some <==> pool.database is Some && session.database
            != pool.database,
        pool.catch_up(session) matches Some(sql) ==> sql == "USE "@ + pool.database->0,
{
}

/// A new session of the pool opens in the pool's database, and is configured as
/// the pool says in all else.
pub proof fn law_new_sessions_open_in_the_pools_database<C>(pool: PoolView<C>)
    ensures
        pool.session_config().database == pool.database,
        (SessionConfigView { database: pool.config.session.database, ..pool.session_config() })
            == pool.config.session,
{
}

/// A released session that is open goes to the end of the queue of an open pool,
/// idle from now on; otherwise its place is given up. Unless it is dead, its
/// database, where it has one, becomes the pool's.
pub proof fn law_released_sessions_queue_up<C>(
    pool: PoolView<C>,
    session: SessionView<C>,
    now: int,
)
    requires
        pool.live > 0,
    ensures
        ({
            let after = pool.after_return(session, now);
            let queued = session.connection is Some && !pool.closed;
            &&& queued ==> after.idle.len() == pool.idle.len() + 1 && after.idle.drop_last()
                == pool.idle && after.idle.last().session == session && after.idle.last().since
                == now && after.live == pool.live
            &&& !queued ==> after.idle == pool.idle && after.live == pool.live - 1
            &&& session.connection is None || session.database is None ==> after.database
                == pool.database
            &&& session.connection is Some && session.database is Some ==> after.database
                == session.database
            &&& after.config == pool.config
            &&& after.closed == pool.closed
            &&& after.last_sweep == pool.last_sweep
        }),
{
    let after = pool.after_return(session, now);
    if session.connection is Some && !pool.closed {
        assert(after.idle.drop_last() =~= pool.idle);
    }
}

/// An acquire fails on a closed pool and when its time is up, and at no other
/// time. It fails with the last failure that it met, if it met one, and else
/// says how long it waited and how many sessions there are.
pub proof fn law_acquire_failures<C>(
    pool: PoolView<C>,
    acquire: AcquireView,
    now: Instant,
    step: AcquireStep<C>,
    after: PoolView<C>,
    acquire_after: AcquireView,
)
    requires
        is_acquire_step(pool, acquire, now, step, after, acquire_after),
    ensures
        step is Fail <==> pool.closed || (acquire.deadline matches Some(end) && now.nanos
            >= end.nanos),
        step is Fail ==> after == pool,
        acquire_after.deadline == acquire.deadline,
        pool.closed ==> (step matches AcquireStep::Fail(e) && e@ == ErrorView::Client(
            "session pool is closed"@,
        )),
        step matches AcquireStep::Fail(e) ==> !pool.closed && acquire.last_error is Some ==> e@
            == acquire.last_error->0,
        step matches AcquireStep::Fail(e) ==> !pool.closed && acquire.last_error is None ==> e@
            == ErrorView::Client(
            "pool exhausted: no session available within "@ + shown_duration(
                pool.config.acquire_timeout,
            ) + " ("@ + decimal(pool.live) + " live, max "@ + decimal(pool.config.max_size as nat)
                + ")"@,
        ),
        !(step is Fail) ==> acquire_after.last_error == acquire.last_error,
{
}

/// Sessions that a sweep takes out are closed before anything is given out.
pub proof fn law_acquire_closes_the_overdue_first<C>(
    pool: PoolView<C>,
    acquire: AcquireView,
    now: Instant,
    step: AcquireStep<C>,
    after: PoolView<C>,
    acquire_after: AcquireView,
)
    requires
        is_acquire_step(pool, acquire, now, step, after, acquire_after),
        !(step is Fail),
    ensures
        step is Close <==> pool.swept_out(now.nanos as int).len() > 0,
        step matches AcquireStep::Close(sessions) ==> {
            &&& after == pool.after_sweep(now.nanos as int)
            &&& sessions@.len() == pool.swept_out(now.nanos as int).len()
            &&& forall|i: int|
                0 <= i < sessions@.len() ==> (#[trigger] sessions@[i])@ == pool.swept_out(
                    now.nanos as int,
                )[i]
        },
{
    if let AcquireStep::Close(sessions) = step {
        assert(session_views(sessions@).len() == sessions@.len());
        assert forall|i: int| 0 <= i < sessions@.len() implies (#[trigger] sessions@[i])@
            == pool.swept_out(now.nanos as int)[i] by {
            assert(session_views(sessions@)[i] == sessions@[i]@);
        }
    }
}

/// Where nothing is to be closed, an acquire gives out the idle session that is
/// open and has been idle longest; where none is open it opens a new session if
/// the pool may have one more, and otherwise waits, until its deadline at most.
/// Dead sessions met on the way lose their places.
pub proof fn law_acquire_prefers_idle_sessions<C>(
    pool: PoolView<C>,
    acquire: AcquireView,
    now: Instant,
    step: AcquireStep<C>,
    after: PoolView<C>,
    acquire_after: AcquireView,
) -> (n: int)
    requires
        is_acquire_step(pool, acquire, now, step, after, acquire_after),
        pool.wf(),
        !(step is Fail),
        !(step is Close),
    ensures
        ({
            let swept = pool.after_sweep(now.nanos as int);
            &&& 0 <= n <= swept.idle.len()
            &&& forall|i: int| 0 <= i < n ==> (#[trigger] swept.idle[i]).session.connection is None
            &&& n < swept.idle.len() ==> swept.idle[n].session.connection is Some
            &&& n < swept.idle.len() ==> (step matches AcquireStep::HandOut(session) && session@
                == swept.idle[n].session && after.idle == swept.idle.skip(n + 1) && after.live
                == swept.live - n)
            &&& n == swept.idle.len() ==> after.idle.len() == 0
            &&& n == swept.idle.len() && swept.live - n < pool.config.max_size ==> (
            step matches AcquireStep::Open(config) && config@.database == pool.database && (
            SessionConfigView { database: pool.config.session.database, ..config@ })
                == pool.config.session && after.live == swept.live - n + 1)
            &&& n == swept.idle.len() && swept.live - n >= pool.config.max_size ==> (
            step matches AcquireStep::Wait(wait) && after.live == swept.live - n && (
            acquire.deadline is None ==> wait is Unbounded) && (acquire.deadline matches Some(end)
                ==> wait is AtMost && wait->AtMost_0.nanos == end.nanos - now.nanos))
            &&& after.config == pool.config
            &&& after.closed == pool.closed
            &&& after.database == pool.database
            &&& after.last_sweep == swept.last_sweep
        }),
{
    let swept = pool.after_sweep(now.nanos as int);
    super::pool::law_sweep_respects_the_minimum(pool, now.nanos as int);
    let n = law_dead_sessions_are_dropped(swept);
    if n < swept.idle.len() {
        assert(swept.idle.skip(n).drop_first() =~= swept.idle.skip(n + 1));
        assert(swept.without_dead().idle[0] == swept.idle[n]);
    }
    n
}

/// How long an acquire may wait: without end where it has no deadline, not at
/// all once that has passed, and before for just the time left.
pub proof fn law_time_left(deadline: Option<Instant>, now: Instant, wait: Wait)
    requires
        is_wait_left(deadline, now, wait),
    ensures
        wait is Unbounded <==> deadline is None,
        wait is Over <==> out_of_time(deadline, now),
        wait is Over <==> (deadline matches Some(end) && end.nanos <= now.nanos),
        wait matches Wait::AtMost(d) ==> d.nanos > 0 && now.nanos + d.nanos == (
        deadline->0).nanos,
{
}

/// The sessions of a pool are those out and those idle.
pub proof fn law_sessions_are_out_or_idle<C>(pool: PoolView<C>)
    ensures
        pool.out() + pool.idle.len() == pool.live,
{
}

/// Hints keep their endpoints, numbers and places.
pub proof fn law_hints_keep_their_places(hints: Seq<Option<(Endpoint, u64)>>, i: int)
    requires
        0 <= i < hints.len(),
    ensures
        hints_view(hints).len() == hints.len(),
        hints_view(hints)[i] is Some <==> hints[i] is Some,
        hints[i] matches Some(h) ==> hints_view(hints)[i] == Some((h.0@, h.1)),
{
}

} // verus!
