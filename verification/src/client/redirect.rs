//! Write-redirection cache: a status-400 (`REDIRECTION_RECOMMEND`) write
//! **succeeded**, and its `redirectNode` recommends a better endpoint for that
//! device. This cache remembers device → endpoint hints with a TTL (default
//! 300 s), and evicts the oldest entry when full.
//!
//! Routing honesty: a single [`crate::Session`] holds exactly one
//! connection, so the cache does **not** reroute inserts by itself — it
//! only records hints, exposed via [`crate::Session::redirect_hint`].
//! [`crate::SessionPool::acquire_for_device`] consults them to prefer an
//! idle session already connected to the hinted endpoint. Full per-device
//! connection routing is future work.

use vstd::prelude::*;
use vstd::string::*;

use crate::connection::{Endpoint, EndpointView};
use crate::protocol::{TEndPoint, TSStatus};
use crate::time::{elapsed, Clock, Duration, Instant, MAX_DURATION_NANOS};

verus! {

/// Default hint lifetime in seconds.
pub const DEFAULT_REDIRECT_TTL_SECS: u64 = 300;

/// Default capacity; the oldest entry is evicted when full.
pub const DEFAULT_REDIRECT_MAX_ENTRIES: usize = 1024;

/// Whether a hint of that age has outlived `ttl`. A zero `ttl` disables
/// expiry entirely.
pub open spec fn expired(age: int, ttl: int) -> bool {
    ttl != 0 && age > ttl
}

/// TTL predicate: an entry is expired once `elapsed` exceeds `ttl`.
/// A zero `ttl` disables expiry entirely.
pub fn is_expired(elapsed: Duration, ttl: Duration) -> (yes: bool)
    ensures
        yes == expired(elapsed.nanos as int, ttl.nanos as int),
{
    !ttl.is_zero() && elapsed.nanos > ttl.nanos
}

/// One hint.
#[derive(Debug)]
struct Entry {
    device: String,
    endpoint: Endpoint,
    inserted: Instant,
    /// Insertion number: newer hints have higher numbers.
    seq: u64,
}

/// Snapshot of a [`RedirectCache`]'s configuration and occupancy.
#[derive(Debug, Clone, Copy, PartialEq, Eq, Structural)]
pub struct RedirectCacheStats {
    pub size: usize,
    pub max_entries: usize,
    pub ttl: Duration,
}

/// Device → endpoint hint cache fed by status-400 `redirectNode`s.
#[derive(Debug)]
pub struct RedirectCache {
    /// Oldest insertion first; one entry per device.
    entries: Vec<Entry>,
    ttl: Duration,
    max_entries: usize,
    seq: u64,
    clock: Clock,
}

/// One hint, with its texts as character sequences.
#[verifier::ext_equal]
pub struct HintView {
    pub device: Seq<char>,
    pub endpoint: EndpointView,
    pub inserted: int,
    pub seq: u64,
}

/// A cache: its hints from the oldest insertion to the newest, and its
/// settings.
#[verifier::ext_equal]
pub struct RedirectCacheView {
    pub hints: Seq<HintView>,
    pub ttl: int,
    pub max_entries: nat,
    pub seq: u64,
}

/// The number that follows `seq`; the largest number is followed by itself.
pub open spec fn next_seq(seq: u64) -> u64 {
    if seq < u64::MAX {
        (seq + 1) as u64
    } else {
        seq
    }
}

impl RedirectCacheView {
    /// No device has two hints, there are no more hints than the capacity
    /// allows, and their numbers ascend from the oldest to the newest.
    pub open spec fn wf(self) -> bool {
        &&& self.hints.len() <= self.max_entries
        &&& forall|i: int, j: int|
            0 <= i < j < self.hints.len() ==> (#[trigger] self.hints[i]).device != (
            #[trigger] self.hints[j]).device
        &&& forall|i: int, j: int|
            0 <= i < j < self.hints.len() ==> (#[trigger] self.hints[i]).seq <= (
            #[trigger] self.hints[j]).seq
        &&& forall|i: int| 0 <= i < self.hints.len() ==> (#[trigger] self.hints[i]).seq <= self.seq
    }

    /// Where the hint for `device` stands.
    pub open spec fn index_of(self, device: Seq<char>) -> Option<int> {
        if exists|i: int| 0 <= i < self.hints.len() && (#[trigger] self.hints[i]).device == device {
            Some(choose|i: int| 0 <= i < self.hints.len() && (#[trigger] self.hints[i]).device == device)
        } else {
            None
        }
    }

    /// The hint for `device` that a lookup at moment `now` finds: none that
    /// has expired.
    pub open spec fn lookup(self, device: Seq<char>, now: int) -> Option<HintView> {
        match self.index_of(device) {
            Some(i) => if expired(elapsed(self.hints[i].inserted, now), self.ttl) {
                None
            } else {
                Some(self.hints[i])
            },
            None => None,
        }
    }

    /// The cache after a lookup at moment `now`: without the device's hint if
    /// that has expired.
    pub open spec fn after_lookup(self, device: Seq<char>, now: int) -> RedirectCacheView {
        match self.index_of(device) {
            Some(i) => if expired(elapsed(self.hints[i].inserted, now), self.ttl) {
                RedirectCacheView { hints: self.hints.remove(i), ..self }
            } else {
                self
            },
            None => self,
        }
    }

    /// The hints that stay when `device` gets a new one: all but its own; or,
    /// where it has none and the cache is full, all but the oldest.
    pub open spec fn kept(self, device: Seq<char>) -> Seq<HintView> {
        match self.index_of(device) {
            Some(i) => self.hints.remove(i),
            None => if self.hints.len() >= self.max_entries && self.hints.len() > 0 {
                self.hints.remove(0)
            } else {
                self.hints
            },
        }
    }

    /// The cache with its numbering continued behind `seq`.
    pub open spec fn resumed(self, seq: u64) -> RedirectCacheView {
        RedirectCacheView {
            seq: if seq > self.seq {
                seq
            } else {
                self.seq
            },
            ..self
        }
    }

    /// The cache after recording a hint at moment `now`. A cache without
    /// capacity records nothing.
    pub open spec fn after_put(
        self,
        device: Seq<char>,
        endpoint: EndpointView,
        now: int,
    ) -> RedirectCacheView {
        if self.max_entries == 0 {
            self
        } else {
            RedirectCacheView {
                hints: self.kept(device).push(
                    HintView { device, endpoint, inserted: now, seq: next_seq(self.seq) },
                ),
                seq: next_seq(self.seq),
                ..self
            }
        }
    }
}

proof fn lemma_index_of(cache: RedirectCacheView, device: Seq<char>, i: int)
    requires
        cache.wf(),
        0 <= i < cache.hints.len(),
        cache.hints[i].device == device,
    ensures
        cache.index_of(device) == Some(i),
{
    let k = choose|k: int|
        0 <= k < cache.hints.len() && (#[trigger] cache.hints[k]).device == device;
    assert(cache.hints[i].device == device);
    if k < i {
        assert(cache.hints[k].device != cache.hints[i].device);
    } else if i < k {
        assert(cache.hints[i].device != cache.hints[k].device);
    }
}

proof fn lemma_kept(cache: RedirectCacheView, device: Seq<char>)
    requires
        cache.wf(),
    ensures
        forall|i: int|
            0 <= i < cache.kept(device).len() ==> (#[trigger] cache.kept(device)[i]).device
                != device,
        forall|i: int, j: int|
            0 <= i < j < cache.kept(device).len() ==> (#[trigger] cache.kept(device)[i]).device != (
            #[trigger] cache.kept(device)[j]).device,
        forall|i: int, j: int|
            0 <= i < j < cache.kept(device).len() ==> (#[trigger] cache.kept(device)[i]).seq <= (
            #[trigger] cache.kept(device)[j]).seq,
        forall|i: int|
            0 <= i < cache.kept(device).len() ==> (#[trigger] cache.kept(device)[i]).seq
                <= cache.seq,
        cache.max_entries > 0 ==> cache.kept(device).len() < cache.max_entries,
{
    let kept = cache.kept(device);
    let gap = match cache.index_of(device) {
        Some(i) => i,
        None => if cache.hints.len() >= cache.max_entries && cache.hints.len() > 0 {
            0
        } else {
            cache.hints.len() as int
        },
    };
    assert forall|i: int| 0 <= i < kept.len() implies (#[trigger] kept[i]).device != device by {
        let k = if i < gap {
            i
        } else {
            i + 1
        };
        assert(kept[i] == cache.hints[k]);
        if cache.hints[k].device == device {
            lemma_index_of(cache, device, k);
        }
    }
    assert forall|i: int, j: int| 0 <= i < j < kept.len() implies (#[trigger] kept[i]).device != (
    #[trigger] kept[j]).device by {
        let k = if i < gap {
            i
        } else {
            i + 1
        };
        let m = if j < gap {
            j
        } else {
            j + 1
        };
        assert(kept[i] == cache.hints[k] && kept[j] == cache.hints[m]);
    }
}

/// Recording and looking up keep a cache well formed: one hint per device, and
/// never more hints than its capacity.
pub proof fn law_cache_stays_within_capacity(
    cache: RedirectCacheView,
    device: Seq<char>,
    endpoint: EndpointView,
    now: int,
)
    requires
        cache.wf(),
    ensures
        cache.after_put(device, endpoint, now).wf(),
        cache.after_put(device, endpoint, now).hints.len() <= cache.max_entries,
        cache.after_lookup(device, now).wf(),
{
    lemma_kept(cache, device);
}

/// What was recorded last for a device is what a lookup finds until it
/// expires; a cache without capacity finds nothing.
pub proof fn law_lookup_finds_what_was_put(
    cache: RedirectCacheView,
    device: Seq<char>,
    endpoint: EndpointView,
    put_at: int,
    now: int,
)
    requires
        cache.wf(),
    ensures
        cache.max_entries > 0 && !expired(elapsed(put_at, now), cache.ttl) ==> (cache.after_put(
            device,
            endpoint,
            put_at,
        ).lookup(device, now) matches Some(hint) && hint.endpoint == endpoint && hint.seq
            == next_seq(cache.seq)),
        cache.max_entries > 0 && expired(elapsed(put_at, now), cache.ttl) ==> cache.after_put(
            device,
            endpoint,
            put_at,
        ).lookup(device, now) is None,
        cache.max_entries == 0 ==> cache.after_put(device, endpoint, put_at).lookup(device, now)
            is None,
{
    law_cache_stays_within_capacity(cache, device, endpoint, put_at);
    if cache.max_entries > 0 {
        let after = cache.after_put(device, endpoint, put_at);
        lemma_index_of(after, device, after.hints.len() - 1);
    }
}

/// Recording a hint leaves every other device's hint as it was, except that
/// recording a new device in a full cache drops the oldest hint.
pub proof fn law_put_keeps_other_devices(
    cache: RedirectCacheView,
    device: Seq<char>,
    endpoint: EndpointView,
    now: int,
    other: int,
)
    requires
        cache.wf(),
        cache.max_entries > 0,
        0 <= other < cache.hints.len(),
        cache.hints[other].device != device,
    ensures
        ({
            let after = cache.after_put(device, endpoint, now);
            let hint = cache.hints[other];
            let evicted = other == 0 && cache.index_of(device) is None && cache.hints.len()
                == cache.max_entries;
            &&& evicted ==> after.index_of(hint.device) is None
            &&& !evicted ==> (after.index_of(hint.device) matches Some(i) && after.hints[i] == hint)
        }),
{
    let after = cache.after_put(device, endpoint, now);
    let hint = cache.hints[other];
    lemma_kept(cache, device);
    law_cache_stays_within_capacity(cache, device, endpoint, now);
    let evicted = other == 0 && cache.index_of(device) is None && cache.hints.len()
        == cache.max_entries;
    if evicted {
        assert forall|i: int| 0 <= i < after.hints.len() implies (
        #[trigger] after.hints[i]).device != hint.device by {
            if i < after.hints.len() - 1 {
                assert(after.hints[i] == cache.hints[i + 1]);
            }
        }
    } else {
        let gap = match cache.index_of(device) {
            Some(i) => i,
            None => if cache.hints.len() >= cache.max_entries {
                0
            } else {
                cache.hints.len() as int
            },
        };
        let k = if other < gap {
            other
        } else {
            other - 1
        };
        assert(after.hints[k] == hint);
        lemma_index_of(after, hint.device, k);
    }
}

/// A new device in a full cache takes the place of the hint with the lowest
/// number, and its own hint gets the highest; all other hints stay.
pub proof fn law_oldest_hint_makes_room(
    cache: RedirectCacheView,
    device: Seq<char>,
    endpoint: EndpointView,
    now: int,
)
    requires
        cache.wf(),
        cache.max_entries > 0,
        cache.hints.len() == cache.max_entries,
        cache.index_of(device) is None,
    ensures
        ({
            let after = cache.after_put(device, endpoint, now);
            &&& forall|i: int|
                0 <= i < cache.hints.len() ==> cache.hints[0].seq <= (
                #[trigger] cache.hints[i]).seq
            &&& after.hints.len() == cache.max_entries
            &&& after.hints.drop_last() == cache.hints.drop_first()
            &&& forall|i: int|
                0 <= i < after.hints.len() ==> (#[trigger] after.hints[i]).seq
                    <= after.hints.last().seq
        }),
{
    let after = cache.after_put(device, endpoint, now);
    assert(cache.hints.remove(0) =~= cache.hints.drop_first());
    assert(after.hints.drop_last() =~= cache.hints.drop_first());
    law_cache_stays_within_capacity(cache, device, endpoint, now);
}

/// In a cache whose numbering was continued behind `seq`, the hint that is
/// recorded next is found under a number above `seq` until it expires.
pub proof fn law_resumed_hints_are_newer(
    cache: RedirectCacheView,
    seq: u64,
    device: Seq<char>,
    endpoint: EndpointView,
    put_at: int,
    now: int,
)
    requires
        cache.wf(),
        cache.max_entries > 0,
        seq < u64::MAX,
        !expired(elapsed(put_at, now), cache.ttl),
    ensures
        cache.resumed(seq).wf(),
        cache.resumed(seq).after_put(device, endpoint, put_at).lookup(device, now) matches Some(
            hint,
        ) && hint.endpoint == endpoint && hint.seq > seq,
{
    law_lookup_finds_what_was_put(cache.resumed(seq), device, endpoint, put_at, now);
}

/// A hint recorded in a cache without expiry is found at every later moment.
pub proof fn law_zero_ttl_never_expires(cache: RedirectCacheView, device: Seq<char>, now: int)
    requires
        cache.ttl == 0,
    ensures
        cache.after_lookup(device, now) == cache,
        cache.lookup(device, now) is Some <==> cache.index_of(device) is Some,
{
}

impl Entry {
    spec fn hint(self) -> HintView {
        HintView {
            device: self.device@,
            endpoint: self.endpoint@,
            inserted: self.inserted.nanos as int,
            seq: self.seq,
        }
    }
}

spec fn entries_view(entries: Seq<Entry>) -> Seq<HintView> {
    entries.map_values(|e: Entry| e.hint())
}

impl View for RedirectCache {
    type V = RedirectCacheView;

    closed spec fn view(&self) -> RedirectCacheView {
        RedirectCacheView {
            hints: entries_view(self.entries@),
            ttl: self.ttl.nanos as int,
            max_entries: self.max_entries as nat,
            seq: self.seq,
        }
    }
}

impl Default for RedirectCache {
    fn default() -> (cache: RedirectCache)
        ensures
            cache@.wf(),
            cache@ == (RedirectCacheView {
                hints: Seq::empty(),
                ttl: 300_000_000_000,
                max_entries: 1024,
                seq: 0,
            }),
    {
        RedirectCache::new(
            Duration::from_secs(DEFAULT_REDIRECT_TTL_SECS),
            DEFAULT_REDIRECT_MAX_ENTRIES,
        )
    }
}

impl RedirectCache {
    /// A cache holding up to `max_entries` hints for `ttl` each. Zero `ttl`
    /// means hints never expire; zero `max_entries` disables the cache.
    pub fn new(ttl: Duration, max_entries: usize) -> (cache: RedirectCache)
        ensures
            cache@.wf(),
            cache@ == (RedirectCacheView {
                hints: Seq::empty(),
                ttl: ttl.nanos as int,
                max_entries: max_entries as nat,
                seq: 0,
            }),
    {
        let cache = RedirectCache {
            entries: Vec::new(),
            ttl,
            max_entries,
            seq: 0,
            clock: Clock::start(),
        };
        assert(cache@.hints =~= Seq::empty());
        cache
    }

    /// The present moment on the cache's clock; see [`Clock::now`].
    pub fn now(&self) -> (now: Instant)
        ensures
            now.nanos <= MAX_DURATION_NANOS,
    {
        self.clock.now()
    }

    fn find(&self, device_id: &str) -> (index: Option<usize>)
        requires
            self@.wf(),
        ensures
            match (index, self@.index_of(device_id@)) {
                (Some(i), Some(k)) => i == k && i < self.entries@.len(),
                (None, None) => true,
                _ => false,
            },
    {
        let device = device_id.to_owned();
        let mut i: usize = 0;
        while i < self.entries.len()
            invariant
                i <= self.entries@.len(),
                self@.wf(),
                device@ == device_id@,
                forall|k: int| 0 <= k < i ==> (#[trigger] self@.hints[k]).device != device_id@,
            decreases self.entries@.len() - i,
        {
            assert(self@.hints[i as int].device == self.entries@[i as int].device@);
            if self.entries[i].device == device {
                proof {
                    lemma_index_of(self@, device_id@, i as int);
                }
                return Some(i);
            }
            i += 1;
        }
        None
    }

    /// The cached endpoint for `device_id`, or `None` when absent or
    /// expired (expired entries are removed on the way out).
    pub fn get(&mut self, device_id: &str) -> (endpoint: Option<Endpoint>)
        requires
            old(self)@.wf(),
        ensures
            final(self)@.wf(),
            exists|now: Instant|
                {
                    &&& now.nanos <= MAX_DURATION_NANOS
                    &&& final(self)@ == #[trigger] old(self)@.after_lookup(
                        device_id@,
                        now.nanos as int,
                    )
                    &&& endpoint_found(
                        endpoint,
                        old(self)@.lookup(device_id@, now.nanos as int),
                    )
                },
    {
        let now = self.clock.now();
        self.get_at(device_id, now)
    }

    /// [`RedirectCache::get`] against an explicit "now".
    pub fn get_at(&mut self, device_id: &str, now: Instant) -> (endpoint: Option<Endpoint>)
        requires
            old(self)@.wf(),
        ensures
            final(self)@.wf(),
            final(self)@ == old(self)@.after_lookup(device_id@, now.nanos as int),
            endpoint_found(endpoint, old(self)@.lookup(device_id@, now.nanos as int)),
    {
        match self.get_numbered_at(device_id, now) {
            Some((endpoint, _)) => Some(endpoint),
            None => None,
        }
    }

    /// The cached endpoint for `device_id` at moment `now` with the hint's
    /// insertion number.
    pub fn get_numbered_at(&mut self, device_id: &str, now: Instant) -> (hint: Option<
        (Endpoint, u64),
    >)
        requires
            old(self)@.wf(),
        ensures
            final(self)@.wf(),
            final(self)@ == old(self)@.after_lookup(device_id@, now.nanos as int),
            match (hint, old(self)@.lookup(device_id@, now.nanos as int)) {
                (Some((endpoint, seq)), Some(h)) => endpoint@ == h.endpoint && seq == h.seq,
                (None, None) => true,
                _ => false,
            },
    {
        match self.find(device_id) {
            None => None,
            Some(i) => {
                assert(self@.hints[i as int] == self.entries@[i as int].hint());
                if is_expired(
                    now.saturating_duration_since(self.entries[i].inserted),
                    self.ttl,
                ) {
                    let ghost before = self.entries@;
                    self.entries.remove(i);
                    proof {
                        assert(entries_view(self.entries@) =~= entries_view(before).remove(
                            i as int,
                        ));
                    }
                    return None;
                }
                Some((self.entries[i].endpoint.clone(), self.entries[i].seq))
            },
        }
    }

    /// Record (or refresh) the hint for `device_id`. When the cache is full
    /// and the device is new, the oldest-inserted entry is evicted first.
    pub fn put(&mut self, device_id: &str, endpoint: Endpoint)
        requires
            old(self)@.wf(),
        ensures
            final(self)@.wf(),
            exists|now: Instant|
                now.nanos <= MAX_DURATION_NANOS && final(self)@ == #[trigger] old(self)@.after_put(
                    device_id@,
                    endpoint@,
                    now.nanos as int,
                ),
    {
        let now = self.clock.now();
        self.put_at(device_id, endpoint, now)
    }

    /// [`RedirectCache::put`] at an explicit moment.
    pub fn put_at(&mut self, device_id: &str, endpoint: Endpoint, now: Instant)
        requires
            old(self)@.wf(),
        ensures
            final(self)@.wf(),
            final(self)@ == old(self)@.after_put(device_id@, endpoint@, now.nanos as int),
    {
        let ghost start = self@;
        proof {
            law_cache_stays_within_capacity(start, device_id@, endpoint@, now.nanos as int);
        }
        if self.max_entries == 0 {
            return;
        }
        let ghost before = self.entries@;
        match self.find(device_id) {
            Some(i) => {
                self.entries.remove(i);
                assert(entries_view(self.entries@) =~= entries_view(before).remove(i as int));
            },
            None => {
                if self.entries.len() >= self.max_entries {
                    self.entries.remove(0);
                    assert(entries_view(self.entries@) =~= entries_view(before).remove(0));
                }
            },
        }
        assert(entries_view(self.entries@) == start.kept(device_id@));
        if self.seq < u64::MAX {
            self.seq = self.seq + 1;
        }
        let ghost kept = self.entries@;
        let entry = Entry {
            device: device_id.to_owned(),
            endpoint,
            inserted: now,
            seq: self.seq,
        };
        self.entries.push(entry);
        assert(entries_view(self.entries@) =~= entries_view(kept).push(entry.hint()));
    }

    /// Drop all hints.
    pub fn clear(&mut self)
        ensures
            final(self)@ == (RedirectCacheView { hints: Seq::empty(), ..old(self)@ }),
            final(self)@.wf(),
    {
        self.entries.clear();
        assert(self@.hints =~= Seq::empty());
    }

    /// Numbers the next hints behind `seq`, where they would not be already.
    /// Several caches that are given ascending numbers agree on which of their
    /// hints is the newest.
    pub fn resume_from(&mut self, seq: u64)
        ensures
            final(self)@ == old(self)@.resumed(seq),
            old(self)@.wf() ==> final(self)@.wf(),
    {
        if seq > self.seq {
            self.seq = seq;
        }
    }

    /// The number of the newest hint recorded so far.
    pub fn last_seq(&self) -> (seq: u64)
        ensures
            seq == self@.seq,
    {
        self.seq
    }

    /// Occupancy/config snapshot.
    pub fn stats(&self) -> (stats: RedirectCacheStats)
        ensures
            stats.size == self@.hints.len(),
            stats.max_entries == self@.max_entries,
            stats.ttl.nanos == self@.ttl,
    {
        RedirectCacheStats {
            size: self.entries.len(),
            max_entries: self.max_entries,
            ttl: self.ttl,
        }
    }
}

/// Whether an endpoint is the one of the hint that was found.
pub open spec fn endpoint_found(endpoint: Option<Endpoint>, hint: Option<HintView>) -> bool {
    match (endpoint, hint) {
        (Some(e), Some(h)) => e@ == h.endpoint,
        (None, None) => true,
        _ => false,
    }
}

/// The client endpoint that a redirect node names; nonsense (empty host, port
/// outside 1 to 65535) names none.
pub open spec fn redirect_target(node: TEndPoint) -> Option<EndpointView> {
    if node.ip@.len() > 0 && 1 <= node.port <= 65535 {
        Some(EndpointView { host: node.ip@, port: node.port as u16 })
    } else {
        None
    }
}

/// The endpoint that a status recommends.
pub open spec fn recommended(status: TSStatus) -> Option<EndpointView> {
    match status.redirect_node {
        Some(node) => redirect_target(node),
        None => None,
    }
}

/// The endpoint recommended for the `i`-th of `n` devices of an insert: a list
/// of sub-statuses that pairs with the devices speaks for each of them,
/// otherwise the status speaks for all.
pub open spec fn recommended_for(status: TSStatus, n: nat, i: int) -> Option<EndpointView> {
    match status.sub_status {
        Some(subs) => if subs@.len() == n {
            recommended(*subs@[i])
        } else {
            recommended(status)
        },
        None => recommended(status),
    }
}

/// The texts of a list of string slices.
pub open spec fn str_texts(list: Seq<&str>) -> Seq<Seq<char>> {
    list.map_values(|s: &str| s@)
}

impl RedirectCacheView {
    /// The cache after recording what `status` recommends for the first `k`
    /// devices.
    pub open spec fn after_recording(
        self,
        devices: Seq<Seq<char>>,
        status: TSStatus,
        now: int,
        k: nat,
    ) -> RedirectCacheView
        decreases k,
    {
        if k == 0 {
            self
        } else {
            let before = self.after_recording(devices, status, now, (k - 1) as nat);
            match recommended_for(status, devices.len(), k - 1) {
                Some(endpoint) => before.after_put(devices[k - 1], endpoint, now),
                None => before,
            }
        }
    }
}

/// Convert a redirect `TEndPoint` into a client [`Endpoint`], rejecting
/// nonsense (empty host, port outside `u16`).
pub fn endpoint_from_redirect(node: &TEndPoint) -> (endpoint: Option<Endpoint>)
    ensures
        match (endpoint, redirect_target(*node)) {
            (Some(e), Some(expected)) => e@ == expected,
            (None, None) => true,
            _ => false,
        },
{
    if node.ip.as_str().is_empty() || node.port < 1 || node.port > 65535 {
        return None;
    }
    Some(Endpoint::new(node.ip.as_str(), node.port as u16))
}

fn recommended_endpoint(status: &TSStatus) -> (endpoint: Option<Endpoint>)
    ensures
        match (endpoint, recommended(*status)) {
            (Some(e), Some(expected)) => e@ == expected,
            (None, None) => true,
            _ => false,
        },
{
    match &status.redirect_node {
        Some(node) => endpoint_from_redirect(node),
        None => None,
    }
}

/// Harvest redirect hints from an insert response into the cache — called
/// on the raw `TSStatus` *before* it is collapsed into a `Result`, since
/// `check_status` treats 400 as plain success and discards the node.
///
/// A top-level `redirectNode` (single-device inserts and tablet writes)
/// applies to every device in the request; a `subStatus` list that pairs
/// 1:1 with the request's devices (multi-device `insertRecords`) is
/// harvested entry-by-entry.
pub fn record_redirects(cache: &mut RedirectCache, devices: &[&str], status: &TSStatus)
    requires
        old(cache)@.wf(),
    ensures
        final(cache)@.wf(),
        exists|now: Instant|
            now.nanos <= MAX_DURATION_NANOS && final(cache)@ == #[trigger] old(cache)@.after_recording(
                str_texts(devices@),
                *status,
                now.nanos as int,
                devices@.len(),
            ),
{
    let now = cache.now();
    record_redirects_at(cache, devices, status, now)
}

/// [`record_redirects`] at an explicit moment.
pub fn record_redirects_at(
    cache: &mut RedirectCache,
    devices: &[&str],
    status: &TSStatus,
    now: Instant,
)
    requires
        old(cache)@.wf(),
    ensures
        final(cache)@.wf(),
        final(cache)@ == old(cache)@.after_recording(
            str_texts(devices@),
            *status,
            now.nanos as int,
            devices@.len(),
        ),
{
    let ghost texts = str_texts(devices@);
    let mut i: usize = 0;
    while i < devices.len()
        invariant
            i <= devices@.len(),
            texts == str_texts(devices@),
            cache@.wf(),
            cache@ == old(cache)@.after_recording(texts, *status, now.nanos as int, i as nat),
        decreases devices@.len() - i,
    {
        let endpoint = match &status.sub_status {
            Some(subs) => {
                if subs.len() == devices.len() {
                    recommended_endpoint(&subs[i])
                } else {
                    recommended_endpoint(status)
                }
            },
            None => recommended_endpoint(status),
        };
        match endpoint {
            Some(endpoint) => cache.put_at(devices[i], endpoint, now),
            None => {},
        }
        i += 1;
    }
}

/// A status without any recommendation, at the top or below, leaves the cache
/// as it is.
pub proof fn law_nothing_recommended_nothing_recorded(
    cache: RedirectCacheView,
    devices: Seq<Seq<char>>,
    status: TSStatus,
    now: int,
    k: nat,
)
    requires
        k <= devices.len(),
        forall|i: int|
            0 <= i < devices.len() ==> #[trigger] recommended_for(status, devices.len(), i)
                is None,
    ensures
        cache.after_recording(devices, status, now, k) == cache,
    decreases k,
{
    if k > 0 {
        law_nothing_recommended_nothing_recorded(cache, devices, status, now, (k - 1) as nat);
        assert(recommended_for(status, devices.len(), k - 1) is None);
    }
}

} // verus!
