//! How long redirect hints are found, which make room for others, and which
//! answers bring them.

use vstd::prelude::*;

use super::redirect::{
    endpoint_found, expired, law_cache_stays_within_capacity, law_lookup_finds_what_was_put,
    recommended_for, redirect_target, HintView, RedirectCacheView,
};
use crate::connection::{Endpoint, EndpointView};
use crate::protocol::{TEndPoint, TSStatus};

verus! {

proof fn lemma_found_at(cache: RedirectCacheView, device: Seq<char>, i: int)
    requires
        cache.wf(),
        0 <= i < cache.hints.len(),
        cache.hints[i].device == device,
    ensures
        cache.index_of(device) == Some(i),
{
    let k = choose|k: int|
        0 <= k < cache.hints.len() && (#[trigger] cache.hints[k]).device == device;
    if k < i {
        assert(cache.hints[k].device != cache.hints[i].device);
    } else if i < k {
        assert(cache.hints[i].device != cache.hints[k].device);
    }
}

/// A device's hint is found as long as no more time than the time to live has
/// passed since it was recorded, and always where that is zero. A lookup that
/// comes too late finds nothing and drops this hint and no other.
pub proof fn law_hints_are_found_while_they_live(
    cache: RedirectCacheView,
    device: Seq<char>,
    i: int,
    now: int,
)
    requires
        cache.wf(),
        cache.ttl >= 0,
        0 <= i < cache.hints.len(),
        cache.hints[i].device == device,
    ensures
        ({
            let dead = cache.ttl > 0 && now > cache.hints[i].inserted + cache.ttl;
            let after = cache.after_lookup(device, now);
            &&& !dead ==> cache.lookup(device, now) == Some(cache.hints[i]) && after == cache
            &&& dead ==> cache.lookup(device, now) is None
            &&& dead ==> after.hints.len() == cache.hints.len() - 1
            &&& dead ==> after.hints.take(i) == cache.hints.take(i)
            &&& dead ==> after.hints.skip(i) == cache.hints.skip(i + 1)
            &&& after.ttl == cache.ttl
            &&& after.max_entries == cache.max_entries
            &&& after.seq == cache.seq
        }),
{
    lemma_found_at(cache, device, i);
    let after = cache.after_lookup(device, now);
    if cache.ttl > 0 && now > cache.hints[i].inserted + cache.ttl {
        assert(after.hints.take(i) =~= cache.hints.take(i));
        assert(after.hints.skip(i) =~= cache.hints.skip(i + 1));
    }
}

/// A device without a hint is not found, whatever the time, and the cache stays
/// as it is.
pub proof fn law_unknown_devices_are_not_found(
    cache: RedirectCacheView,
    device: Seq<char>,
    now: int,
)
    requires
        forall|i: int| 0 <= i < cache.hints.len() ==> (#[trigger] cache.hints[i]).device != device,
    ensures
        cache.lookup(device, now) is None,
        cache.after_lookup(device, now) == cache,
{
}

/// Age decides: a hint outlives its time to live by any time beyond it, and a
/// time to live of zero never ends.
pub proof fn law_expiry(age: int, ttl: int)
    requires
        age >= 0,
        ttl >= 0,
    ensures
        ttl == 0 ==> !expired(age, ttl),
        ttl > 0 && age <= ttl ==> !expired(age, ttl),
        ttl > 0 && age > ttl ==> expired(age, ttl),
{
}

/// A hint is recorded as the newest: with the device, the endpoint and the
/// moment given, and the number after the last. Nothing is recorded in a cache
/// without capacity.
pub proof fn law_recorded_hint_is_the_newest(
    cache: RedirectCacheView,
    device: Seq<char>,
    endpoint: EndpointView,
    now: int,
)
    requires
        cache.wf(),
    ensures
        ({
            let after = cache.after_put(device, endpoint, now);
            &&& cache.max_entries == 0 ==> after == cache
            &&& cache.max_entries > 0 ==> {
                &&& after.hints.len() > 0
                &&& after.hints.last().device == device
                &&& after.hints.last().endpoint == endpoint
                &&& after.hints.last().inserted == now
                &&& after.hints.last().seq == after.seq
                &&& cache.seq < u64::MAX ==> after.seq == cache.seq + 1
                &&& cache.seq == u64::MAX ==> after.seq == u64::MAX
            }
            &&& after.ttl == cache.ttl
            &&& after.max_entries == cache.max_entries
        }),
{
}

/// A hint replaces that of the same device. A new device is added behind all
/// others where there is room, and otherwise in place of the oldest.
pub proof fn law_which_hints_stay(
    cache: RedirectCacheView,
    device: Seq<char>,
    endpoint: EndpointView,
    now: int,
    i: int,
)
    requires
        cache.wf(),
        cache.max_entries > 0,
    ensures
        ({
            let kept = cache.after_put(device, endpoint, now).hints.drop_last();
            let known = 0 <= i < cache.hints.len() && cache.hints[i].device == device;
            let new = forall|j: int|
                0 <= j < cache.hints.len() ==> (#[trigger] cache.hints[j]).device != device;
            &&& known ==> kept == cache.hints.take(i) + cache.hints.skip(i + 1)
            &&& new && cache.hints.len() < cache.max_entries ==> kept == cache.hints
            &&& new && cache.hints.len() == cache.max_entries ==> kept == cache.hints.skip(1)
        }),
{
    let kept = cache.after_put(device, endpoint, now).hints.drop_last();
    assert(kept =~= cache.kept(device));
    if 0 <= i < cache.hints.len() && cache.hints[i].device == device {
        lemma_found_at(cache, device, i);
        assert(kept =~= cache.hints.take(i) + cache.hints.skip(i + 1));
    }
    if forall|j: int| 0 <= j < cache.hints.len() ==> (#[trigger] cache.hints[j]).device != device {
        assert(cache.index_of(device) is None);
        if cache.hints.len() == cache.max_entries {
            assert(kept =~= cache.hints.skip(1));
        }
    }
}

/// Continuing the numbering behind `seq` raises the last number to it where it
/// is lower, and changes nothing else.
pub proof fn law_numbering_is_continued(cache: RedirectCacheView, seq: u64)
    ensures
        cache.resumed(seq).seq >= seq,
        cache.resumed(seq).seq >= cache.seq,
        cache.resumed(seq).seq == seq || cache.resumed(seq).seq == cache.seq,
        cache.resumed(seq).hints == cache.hints,
        cache.resumed(seq).ttl == cache.ttl,
        cache.resumed(seq).max_entries == cache.max_entries,
{
}

/// A redirect node names an endpoint if and only if its host is not empty and
/// its port is between 1 and 65535; the endpoint is that host and that port.
pub proof fn law_redirect_nodes(node: TEndPoint)
    ensures
        redirect_target(node) is Some <==> node.ip@.len() > 0 && node.port > 0 && node.port
            < 0x1_0000,
        redirect_target(node) matches Some(e) ==> e.host == node.ip@ && e.port == node.port,
{
}

/// What is recommended for a device: where the answer has one part per device,
/// the node of the part at its place; otherwise the node of the answer itself.
pub proof fn law_each_device_has_its_recommendation(status: TSStatus, n: nat, i: int)
    requires
        0 <= i < n,
    ensures
        status.sub_status matches Some(subs) ==> subs@.len() == n ==> recommended_for(status, n, i)
            == match subs@[i].redirect_node {
            Some(node) => redirect_target(node),
            None => None,
        },
        (status.sub_status is None || status.sub_status->0@.len() != n) ==> recommended_for(
            status,
            n,
            i,
        ) == match status.redirect_node {
            Some(node) => redirect_target(node),
            None => None,
        },
{
}

proof fn lemma_recording_stays_wf(
    cache: RedirectCacheView,
    devices: Seq<Seq<char>>,
    status: TSStatus,
    now: int,
    k: nat,
)
    requires
        cache.wf(),
    ensures
        cache.after_recording(devices, status, now, k).wf(),
        cache.after_recording(devices, status, now, k).max_entries == cache.max_entries,
        cache.after_recording(devices, status, now, k).ttl == cache.ttl,
    decreases k,
{
    if k > 0 {
        lemma_recording_stays_wf(cache, devices, status, now, (k - 1) as nat);
        let before = cache.after_recording(devices, status, now, (k - 1) as nat);
        if let Some(e) = recommended_for(status, devices.len(), k - 1) {
            law_cache_stays_within_capacity(before, devices[k - 1], e, now);
        }
    }
}

proof fn lemma_recording_ends_early(
    cache: RedirectCacheView,
    devices: Seq<Seq<char>>,
    status: TSStatus,
    now: int,
    k: nat,
    n: nat,
)
    requires
        k <= n,
        forall|j: int|
            k <= j < n ==> #[trigger] recommended_for(status, devices.len(), j) is None,
    ensures
        cache.after_recording(devices, status, now, n) == cache.after_recording(
            devices,
            status,
            now,
            k,
        ),
    decreases n,
{
    if k < n {
        assert(recommended_for(status, devices.len(), n - 1) is None);
        lemma_recording_ends_early(cache, devices, status, now, k, (n - 1) as nat);
    }
}

/// The last device of an insert for which the answer recommends a node is found
/// under just that node afterwards.
pub proof fn law_recommended_node_is_found(
    cache: RedirectCacheView,
    devices: Seq<Seq<char>>,
    status: TSStatus,
    now: int,
    i: int,
    endpoint: EndpointView,
)
    requires
        cache.wf(),
        cache.ttl >= 0,
        cache.max_entries > 0,
        0 <= i < devices.len(),
        recommended_for(status, devices.len(), i) == Some(endpoint),
        forall|j: int|
            i < j < devices.len() ==> #[trigger] recommended_for(status, devices.len(), j) is None,
    ensures
        ({
            let after = cache.after_recording(devices, status, now, devices.len());
            &&& after.lookup(devices[i], now) is Some
            &&& after.lookup(devices[i], now)->0.endpoint == endpoint
            &&& after.hints.last().device == devices[i]
            &&& after.hints.last().inserted == now
        }),
{
    let before = cache.after_recording(devices, status, now, i as nat);
    lemma_recording_stays_wf(cache, devices, status, now, i as nat);
    lemma_recording_ends_early(cache, devices, status, now, (i + 1) as nat, devices.len());
    assert(cache.after_recording(devices, status, now, (i + 1) as nat) == before.after_put(
        devices[i],
        endpoint,
        now,
    ));
    law_lookup_finds_what_was_put(before, devices[i], endpoint, now, now);
}

/// Recording goes through the devices in order: what is recorded for one more
/// device is put on top of what was recorded for those before, and a device
/// without a recommendation changes nothing.
pub proof fn law_recording_goes_in_order(
    cache: RedirectCacheView,
    devices: Seq<Seq<char>>,
    status: TSStatus,
    now: int,
    k: nat,
)
    requires
        k < devices.len(),
    ensures
        cache.after_recording(devices, status, now, 0) == cache,
        recommended_for(status, devices.len(), k as int) is None ==> cache.after_recording(
            devices,
            status,
            now,
            k + 1,
        ) == cache.after_recording(devices, status, now, k),
        recommended_for(status, devices.len(), k as int) matches Some(e) ==> cache.after_recording(
            devices,
            status,
            now,
            k + 1,
        ) == cache.after_recording(devices, status, now, k).after_put(devices[k as int], e, now),
{
}

/// The endpoint reported is that of the hint found, and there is one if and only
/// if a hint was found.
pub proof fn law_endpoint_is_reported(endpoint: Option<Endpoint>, hint: Option<HintView>)
    requires
        endpoint_found(endpoint, hint),
    ensures
        endpoint is Some <==> hint is Some,
        hint matches Some(h) ==> endpoint->0@ == h.endpoint,
{
}

} // verus!
