//! What each operation of the replay cache promises of its arguments and its
//! result.

use crate::clock::{duration_nanos, instant_nanos, is_now, lemma_moved_back, reaches_back,
    NANOS_PER_SEC};
use crate::replay::laws::{known_key_alone_is_a_replay, lemma_by_time, lemma_live_records,
    lemma_new_entries, lemma_sweep_drops_a_prefix, live_key_is_a_replay, reload_fills_the_room,
    reload_orders_by_time, time_ordered};
use crate::replay::{adopted, after_check, by_time, distinct_keys, expired, holds, live_records,
    new_entries, pair_views, reloaded, seconds_since, snapshot, stamp_views, stamps, sweep, verdict,
    ReplayCache, ReplayCheck};
use std::time::{Duration, Instant};
use vstd::prelude::*;

verus! {

/// Whether the entries from the `k`-th on are those that a check at `now`
/// leaves: all before have outlived `ttl` nanoseconds, and the `k`-th, if there
/// is one, has not.
pub open spec fn live_from(entries: Seq<(Seq<u8>, int)>, now: int, ttl: nat, k: int) -> bool {
    &&& 0 <= k <= entries.len()
    &&& forall|i: int| 0 <= i < k ==> now - (#[trigger] entries[i]).1 > ttl
    &&& k < entries.len() ==> now - entries[k].1 <= ttl
}

/// A cache reports a key as a replay exactly where it holds it among the entries
/// that have not outlived their time. A key that is fresh is held from then on
/// as the newest, and where the cache was full the oldest has given way. A cache
/// for no entries holds none.
pub proof fn a_key_is_fresh_once(
    cache: &mut ReplayCache,
    key: [u8; 16],
    now: Instant,
    r: ReplayCheck,
)
    requires
        call_ensures(ReplayCache::check_and_insert_at, (cache, key, now), r),
    ensures
        exists|k: int|
            #![trigger live_from(old(cache)@, instant_nanos(now), old(cache).ttl_nanos(), k)]
            {
                let was = old(cache)@;
                let left = was.skip(k);
                let room = old(cache).capacity();
                let t = instant_nanos(now);
                &&& live_from(was, t, old(cache).ttl_nanos(), k)
                &&& r == ReplayCheck::Replay <==> exists|i: int|
                    k <= i < was.len() && (#[trigger] was[i]).0 == key@
                &&& r == ReplayCheck::Replay || room == 0 ==> final(cache)@ == left
                &&& r == ReplayCheck::Fresh && 0 < room && left.len() < room ==> final(cache)@
                    == left.push((key@, t))
                &&& r == ReplayCheck::Fresh && 0 < room && left.len() >= room ==> final(cache)@
                    == left.skip(1).push((key@, t))
            },
        final(cache).ttl_nanos() == old(cache).ttl_nanos(),
        final(cache).capacity() == old(cache).capacity(),
{
    let was = old(cache)@;
    let t = instant_nanos(now);
    let ttl = old(cache).ttl_nanos();
    lemma_sweep_drops_a_prefix(was, t, ttl);
    let live = sweep(was, t, ttl);
    let k = was.len() - live.len();
    assert forall|i: int| 0 <= i < k implies t - (#[trigger] was[i]).1 > ttl by {
        assert(expired(was[i].1, t, ttl));
    }
    if live.len() > 0 {
        assert(live[0] == was[k]);
    }
    assert(live_from(was, t, ttl, k));
    if holds(live, key@) {
        let i = choose|i: int| 0 <= i < live.len() && (#[trigger] live[i]).0 == key@;
        assert(was[i + k].0 == key@);
    }
    if exists|i: int| k <= i < was.len() && (#[trigger] was[i]).0 == key@ {
        let i = choose|i: int| k <= i < was.len() && (#[trigger] was[i]).0 == key@;
        assert(live[i - k].0 == key@);
    }
    if live.len() > 0 {
        assert(live.drop_first() =~= was.skip(k).skip(1));
    }
}

/// A check of what is due now is a check at some reading of the clock: a key
/// that the cache does not hold is fresh, and one that is fresh is the newest
/// from then on.
pub proof fn a_key_is_checked_now(cache: &mut ReplayCache, key: [u8; 16], r: ReplayCheck)
    requires
        call_ensures(ReplayCache::check_and_insert, (cache, key), r),
    ensures
        r == ReplayCheck::Replay ==> exists|i: int|
            0 <= i < old(cache)@.len() && (#[trigger] old(cache)@[i]).0 == key@,
        r == ReplayCheck::Fresh && old(cache).capacity() > 0 ==> final(cache)@.len() > 0
            && final(cache)@.last().0 == key@ && is_now(final(cache)@.last().1),
        r == ReplayCheck::Fresh ==> exists|seen: int| #[trigger]
            is_now(seen) && forall|i: int|
                0 <= i < old(cache)@.len() && (#[trigger] old(cache)@[i]).0 == key@ ==> seen - old(
                    cache,
                )@[i].1 > old(cache).ttl_nanos(),
        final(cache).ttl_nanos() == old(cache).ttl_nanos(),
        final(cache).capacity() == old(cache).capacity(),
{
    let was = old(cache)@;
    let ttl = old(cache).ttl_nanos();
    let now = choose|now: int|
        {
            &&& is_now(now)
            &&& r == #[trigger] verdict(was, key@, now, ttl)
            &&& final(cache)@ == after_check(was, key@, now, ttl, old(cache).capacity())
        };
    assert(is_now(now));
    assert(r == verdict(was, key@, now, ttl));
    if r == ReplayCheck::Replay {
        known_key_alone_is_a_replay(was, key@, now, ttl);
    } else {
        assert forall|i: int| 0 <= i < was.len() && (#[trigger] was[i]).0 == key@ implies now
            - was[i].1 > ttl by {
            if !expired(was[i].1, now, ttl) {
                live_key_is_a_replay(was, i, now, ttl);
            }
        }
    }
}

/// A cache starts empty, with the size and the time to live that it was given,
/// and tells how much it holds.
pub proof fn a_cache_starts_empty(
    max_size: usize,
    ttl: Duration,
    fresh: ReplayCache,
    cache: &ReplayCache,
    n: usize,
    empty: bool,
)
    requires
        call_ensures(ReplayCache::new, (max_size, ttl), fresh),
        call_ensures(ReplayCache::len, (cache,), n),
        call_ensures(ReplayCache::is_empty, (cache,), empty),
    ensures
        fresh.wf(),
        fresh@.len() == 0,
        fresh.ttl_nanos() == duration_nanos(ttl),
        fresh.capacity() == max_size,
        n == cache@.len(),
        empty <==> cache@.len() == 0,
{
}

/// Whether `pairs` are the entries that have not outlived `ttl`, each with the
/// second in which it was seen: as many whole seconds before `now_unix` as it is
/// old. The `j`-th of them is the entry at `picked[j]`; none is left out, and
/// they keep their order.
pub open spec fn dated_entries(
    entries: Seq<(Seq<u8>, int)>,
    now: int,
    now_unix: u64,
    ttl: nat,
    picked: Seq<int>,
    pairs: Seq<(Seq<u8>, u64)>,
) -> bool {
    &&& picked.len() == pairs.len()
    &&& forall|j: int, l: int|
        0 <= j < l < picked.len() ==> (#[trigger] picked[j]) < (#[trigger] picked[l])
    &&& forall|j: int|
        0 <= j < picked.len() ==> {
            let at = entries[#[trigger] picked[j]].1;
            &&& 0 <= picked[j] < entries.len()
            &&& now - at <= ttl
            &&& pairs[j].0 == entries[picked[j]].0
            &&& now <= at ==> pairs[j].1 == now_unix
            &&& now > at && (now - at) / 1_000_000_000 <= now_unix ==> pairs[j].1 == now_unix - (now
                - at) / 1_000_000_000
            &&& now > at && (now - at) / 1_000_000_000 > now_unix ==> pairs[j].1 == 0
        }
    &&& forall|i: int|
        0 <= i < entries.len() && now - (#[trigger] entries[i]).1 <= ttl ==> picked.contains(i)
}

/// A snapshot is what it is said to be.
pub proof fn lemma_dated_entries(entries: Seq<(Seq<u8>, int)>, now: int, now_unix: u64, ttl: nat) -> (
    picked: Seq<int>)
    ensures
        dated_entries(
            entries,
            now,
            now_unix,
            ttl,
            picked,
            snapshot(entries, now, now_unix, ttl),
        ),
    decreases entries.len(),
{
    if entries.len() == 0 {
        Seq::empty()
    } else {
        let front = entries.drop_last();
        let before = lemma_dated_entries(front, now, now_unix, ttl);
        let pairs = snapshot(front, now, now_unix, ttl);
        let all = snapshot(entries, now, now_unix, ttl);
        let last = entries.len() - 1;
        let picked = if expired(entries.last().1, now, ttl) {
            before
        } else {
            before.push(last)
        };
        assert forall|j: int, l: int| 0 <= j < l < picked.len() implies (#[trigger] picked[j]) < (
        #[trigger] picked[l]) by {
            assert(picked[j] == before[j]);
            if l < before.len() {
                assert(picked[l] == before[l]);
            }
        }
        assert forall|j: int| 0 <= j < picked.len() implies {
            let at = entries[#[trigger] picked[j]].1;
            &&& 0 <= picked[j] < entries.len()
            &&& now - at <= ttl
            &&& all[j].0 == entries[picked[j]].0
            &&& now <= at ==> all[j].1 == now_unix
            &&& now > at && (now - at) / 1_000_000_000 <= now_unix ==> all[j].1 == now_unix - (now
                - at) / 1_000_000_000
            &&& now > at && (now - at) / 1_000_000_000 > now_unix ==> all[j].1 == 0
        } by {
            if j < before.len() {
                assert(picked[j] == before[j]);
                assert(all[j] == pairs[j]);
                assert(front[before[j]] == entries[before[j]]);
            } else {
                assert(entries[last] == entries.last());
            }
        }
        assert forall|i: int|
            0 <= i < entries.len() && now - (#[trigger] entries[i]).1 <= ttl implies picked.contains(
        i) by {
            if i < last {
                assert(front[i] == entries[i]);
                assert(before.contains(i));
                let j = choose|j: int| 0 <= j < before.len() && before[j] == i;
                assert(picked[j] == i);
            } else {
                assert(!expired(entries.last().1, now, ttl));
                assert(picked[before.len() as int] == i);
            }
        }
        picked
    }
}

/// A snapshot holds every entry that is still live, oldest first, with the
/// second in which it was seen, and nothing else.
pub proof fn a_snapshot_dates_every_live_entry(
    cache: &ReplayCache,
    now: Instant,
    now_unix: u64,
    pairs: Vec<([u8; 16], u64)>,
)
    requires
        call_ensures(ReplayCache::snapshot_at, (cache, now, now_unix), pairs),
    ensures
        exists|picked: Seq<int>| #[trigger]
            dated_entries(
                cache@,
                instant_nanos(now),
                now_unix,
                cache.ttl_nanos(),
                picked,
                pair_views(pairs@),
            ),
{
    let picked = lemma_dated_entries(cache@, instant_nanos(now), now_unix, cache.ttl_nanos());
}

/// Whether a cache that held `was` holds `held` after it adopted what it could of
/// `stamped`: it keeps what it held, and takes over keys that it does not hold,
/// each with the earliest time that is given for it. A key is left out only where
/// the cache is full, and where no other was taken over that is older. What is
/// held afterwards stands in the order of time.
pub open spec fn fills_with_the_newest(
    was: Seq<(Seq<u8>, int)>,
    stamped: Seq<(Seq<u8>, int)>,
    room: nat,
    held: Seq<(Seq<u8>, int)>,
) -> bool {
    &&& was.len() <= held.len() <= room
    &&& time_ordered(held)
    &&& distinct_keys(held)
    &&& forall|y: (Seq<u8>, int)| #[trigger] was.contains(y) ==> held.contains(y)
    &&& forall|i: int|
        0 <= i < held.len() && !was.contains(#[trigger] held[i]) ==> {
            &&& stamped.contains(held[i])
            &&& !holds(was, held[i].0)
            &&& forall|s: int|
                0 <= s < stamped.len() && (#[trigger] stamped[s]).0 == held[i].0 ==> held[i].1
                    <= stamped[s].1
        }
    &&& forall|s: int|
        0 <= s < stamped.len() && !holds(held, (#[trigger] stamped[s]).0) ==> {
            &&& held.len() == room
            &&& exists|q: int|
                {
                    &&& 0 <= q < stamped.len()
                    &&& (#[trigger] stamped[q]).0 == stamped[s].0
                    &&& forall|i: int|
                        0 <= i < held.len() && !was.contains(#[trigger] held[i]) ==> stamped[q].1
                            <= held[i].1
                }
        }
}

/// Of a key that is offered more than once, in the order of time, the earliest is
/// taken.
proof fn lemma_new_entries_are_the_earliest(
    offered: Seq<(Seq<u8>, int)>,
    known: Seq<(Seq<u8>, int)>,
)
    requires
        time_ordered(offered),
    ensures
        forall|i: int, s: int|
            0 <= i < new_entries(offered, known).len() && 0 <= s < offered.len()
                && (#[trigger] new_entries(offered, known)[i]).0 == (#[trigger] offered[s]).0
                ==> new_entries(offered, known)[i].1 <= offered[s].1,
    decreases offered.len(),
{
    if offered.len() > 0 {
        let prior = offered.drop_last();
        let front = new_entries(prior, known);
        let all = new_entries(offered, known);
        let last = offered.len() - 1;
        assert forall|i: int, j: int| 0 <= i <= j < prior.len() implies (#[trigger] prior[i]).1 <= (
        #[trigger] prior[j]).1 by {
            assert(prior[i] == offered[i] && prior[j] == offered[j]);
        }
        lemma_new_entries_are_the_earliest(prior, known);
        lemma_new_entries(prior, known);
        assert forall|i: int, s: int|
            0 <= i < all.len() && 0 <= s < offered.len() && (#[trigger] all[i]).0 == (
            #[trigger] offered[s]).0 implies all[i].1 <= offered[s].1 by {
            if i < front.len() {
                assert(all[i] == front[i]);
                if s < last {
                    assert(prior[s] == offered[s]);
                } else {
                    assert(prior.contains(front[i]));
                    let k = choose|k: int| 0 <= k < prior.len() && prior[k] == front[i];
                    assert(offered[k].1 <= offered[last].1);
                }
            } else if s < last {
                assert(prior[s] == offered[s]);
                assert(all[i] == offered[last]);
                assert(holds(known, prior[s].0) || holds(front, prior[s].0));
            }
        }
    }
}

/// A reload fills a cache with the newest.
proof fn lemma_fills_with_the_newest(
    was: Seq<(Seq<u8>, int)>,
    stamped: Seq<(Seq<u8>, int)>,
    room: nat,
)
    requires
        distinct_keys(was),
        was.len() <= room,
    ensures
        fills_with_the_newest(was, stamped, room, reloaded(was, stamped, room)),
        reloaded(was, stamped, room).len() == was.len() + adopted(was, stamped, room).len(),
{
    let held = reloaded(was, stamped, room);
    let taken = adopted(was, stamped, room);
    let sorted = by_time(stamped);
    let fresh = new_entries(sorted, was);
    let skipped = fresh.len() - taken.len();
    reload_orders_by_time(was, stamped, room);
    reload_fills_the_room(was, stamped, room);
    lemma_by_time(was + taken);
    lemma_by_time(stamped);
    lemma_new_entries(sorted, was);
    lemma_new_entries_are_the_earliest(sorted, was);
    assert forall|i: int| 0 <= i < held.len() && !was.contains(#[trigger] held[i]) implies {
        &&& stamped.contains(held[i])
        &&& !holds(was, held[i].0)
        &&& forall|s: int|
            0 <= s < stamped.len() && (#[trigger] stamped[s]).0 == held[i].0 ==> held[i].1
                <= stamped[s].1
    } by {
        assert(held.contains(held[i]));
        assert(taken.contains(held[i]));
        let a = choose|a: int| 0 <= a < taken.len() && taken[a] == held[i];
        assert(stamped.contains(taken[a]));
        assert(taken[a] == fresh[a + skipped]);
        assert forall|s: int|
            0 <= s < stamped.len() && (#[trigger] stamped[s]).0 == held[i].0 implies held[i].1
            <= stamped[s].1 by {
            assert(stamped.contains(stamped[s]));
            assert(sorted.contains(stamped[s]));
            let o = choose|o: int| 0 <= o < sorted.len() && sorted[o] == stamped[s];
            assert(fresh[a + skipped].1 <= sorted[o].1);
        }
    }
    assert forall|s: int| 0 <= s < stamped.len() && !holds(held, (#[trigger] stamped[s]).0) implies {
        &&& held.len() == room
        &&& exists|q: int|
            {
                &&& 0 <= q < stamped.len()
                &&& (#[trigger] stamped[q]).0 == stamped[s].0
                &&& forall|i: int|
                    0 <= i < held.len() && !was.contains(#[trigger] held[i]) ==> stamped[q].1
                        <= held[i].1
            }
    } by {
        let key = stamped[s].0;
        assert(stamped.contains(stamped[s]));
        assert(sorted.contains(stamped[s]));
        let o = choose|o: int| 0 <= o < sorted.len() && sorted[o] == stamped[s];
        assert(holds(was, sorted[o].0) || holds(fresh, sorted[o].0));
        if holds(was, key) {
            let w = choose|w: int| 0 <= w < was.len() && (#[trigger] was[w]).0 == key;
            assert(was.contains(was[w]));
            assert(held.contains(was[w]));
            let i = choose|i: int| 0 <= i < held.len() && held[i] == was[w];
            assert(held[i].0 == key);
        }
        let n = choose|n: int| 0 <= n < fresh.len() && (#[trigger] fresh[n]).0 == key;
        if n >= skipped {
            assert(taken[n - skipped] == fresh[n]);
            assert(taken.contains(fresh[n]));
            assert(held.contains(fresh[n]));
            let i = choose|i: int| 0 <= i < held.len() && held[i] == fresh[n];
            assert(held[i].0 == key);
        }
        assert(sorted.contains(fresh[n]));
        assert(stamped.contains(fresh[n]));
        let q = choose|q: int| 0 <= q < stamped.len() && stamped[q] == fresh[n];
        assert forall|i: int| 0 <= i < held.len() && !was.contains(#[trigger] held[i]) implies stamped[q].1
            <= held[i].1 by {
            assert(held.contains(held[i]));
            assert(taken.contains(held[i]));
            let a = choose|a: int| 0 <= a < taken.len() && taken[a] == held[i];
            assert(taken[a] == fresh[a + skipped]);
            assert(fresh[n].1 <= fresh[a + skipped].1);
        }
        assert(stamped[q].0 == stamped[s].0);
    }
}

/// A cache adopts what it can: all that is new to it, or the newest of that for
/// which it has room. It counts what it took over.
pub proof fn a_cache_adopts_the_newest(
    cache: &mut ReplayCache,
    stamped: &Vec<([u8; 16], Instant)>,
    count: usize,
)
    requires
        old(cache).wf(),
        call_ensures(ReplayCache::adopt, (cache, stamped), count),
    ensures
        fills_with_the_newest(
            old(cache)@,
            stamp_views(stamped@),
            old(cache).capacity(),
            final(cache)@,
        ),
        final(cache)@.len() == old(cache)@.len() + count,
        final(cache).ttl_nanos() == old(cache).ttl_nanos(),
        final(cache).capacity() == old(cache).capacity(),
{
    old(cache).lemma_entries_are_bounded();
    lemma_fills_with_the_newest(old(cache)@, stamp_views(stamped@), old(cache).capacity());
}

/// The age of a record in nanoseconds, by its second; a record of the future has
/// none.
pub open spec fn record_age(now_unix: u64, second: u64) -> int {
    if second <= now_unix {
        (now_unix - second) * 1_000_000_000
    } else {
        0
    }
}

/// Whether a cache that held `was` holds `held` after it was filled from records.
/// It keeps all that it held, and takes over those records that have not
/// outlived `ttl`, by their seconds, and whose keys it does not hold yet. Each
/// counts as seen as many seconds ago as its second says, as far as the clock
/// reaches back. Where there is room for all, none of them is left out; a key is
/// left out only where the cache is full, and where no other was taken over that
/// is older. What is held afterwards stands in the order of time and within the
/// size limit.
pub open spec fn takes_over(
    was: Seq<(Seq<u8>, int)>,
    records: Seq<(Seq<u8>, u64)>,
    now: Instant,
    now_unix: u64,
    ttl: nat,
    room: nat,
    held: Seq<(Seq<u8>, int)>,
) -> bool {
    let t = instant_nanos(now);
    &&& was.len() <= held.len() <= room
    &&& time_ordered(held)
    &&& distinct_keys(held)
    &&& forall|y: (Seq<u8>, int)| #[trigger] was.contains(y) ==> held.contains(y)
    &&& forall|i: int|
        0 <= i < held.len() && !was.contains(#[trigger] held[i]) ==> exists|p: int|
            {
                &&& 0 <= p < records.len()
                &&& (#[trigger] records[p]).0 == held[i].0
                &&& record_age(now_unix, records[p].1) <= ttl
                &&& held[i].1 == t - record_age(now_unix, records[p].1) || held[i].1 == t
                &&& reaches_back(now, ttl) ==> held[i].1 == t - record_age(now_unix, records[p].1)
            }
    &&& was.len() + records.len() <= room ==> forall|p: int|
        0 <= p < records.len() && record_age(now_unix, (#[trigger] records[p]).1) <= ttl ==> holds(
            held,
            records[p].0,
        )
    &&& leaves_out_the_oldest(was, records, now, now_unix, ttl, room, held)
}

/// Whether a live record's key is left out only where the cache is full, and
/// where no other was taken over that is older.
pub open spec fn leaves_out_the_oldest(
    was: Seq<(Seq<u8>, int)>,
    records: Seq<(Seq<u8>, u64)>,
    now: Instant,
    now_unix: u64,
    ttl: nat,
    room: nat,
    held: Seq<(Seq<u8>, int)>,
) -> bool {
    let t = instant_nanos(now);
    forall|p: int|
        0 <= p < records.len() && record_age(now_unix, (#[trigger] records[p]).1) <= ttl && !holds(
            held,
            records[p].0,
        ) ==> {
            &&& held.len() == room
            &&& reaches_back(now, ttl) ==> exists|q: int|
                {
                    &&& 0 <= q < records.len()
                    &&& (#[trigger] records[q]).0 == records[p].0
                    &&& record_age(now_unix, records[q].1) <= ttl
                    &&& forall|i: int|
                        0 <= i < held.len() && !was.contains(#[trigger] held[i]) ==> t - record_age(
                            now_unix,
                            records[q].1,
                        ) <= held[i].1
                }
        }
}

/// A reload leaves out the oldest.
proof fn lemma_leaves_out_the_oldest(
    was: Seq<(Seq<u8>, int)>,
    records: Seq<(Seq<u8>, u64)>,
    now: Instant,
    now_unix: u64,
    ttl: nat,
    room: nat,
    stamped: Seq<(Seq<u8>, int)>,
    held: Seq<(Seq<u8>, int)>,
)
    requires
        stamps(live_records(records, now_unix, ttl), now, now_unix, stamped),
        fills_with_the_newest(was, stamped, room, held),
    ensures
        leaves_out_the_oldest(was, records, now, now_unix, ttl, room, held),
{
    let t = instant_nanos(now);
    let live = live_records(records, now_unix, ttl);
    lemma_live_records(records, now_unix, ttl);
    lemma_live_records_are_records(records, now_unix, ttl);
    assert forall|p: int|
        0 <= p < records.len() && record_age(now_unix, (#[trigger] records[p]).1) <= ttl && !holds(
            held,
            records[p].0,
        ) implies {
        &&& held.len() == room
        &&& reaches_back(now, ttl) ==> exists|q: int|
            {
                &&& 0 <= q < records.len()
                &&& (#[trigger] records[q]).0 == records[p].0
                &&& record_age(now_unix, records[q].1) <= ttl
                &&& forall|i: int|
                    0 <= i < held.len() && !was.contains(#[trigger] held[i]) ==> t - record_age(
                        now_unix,
                        records[q].1,
                    ) <= held[i].1
            }
    } by {
        assert(live.contains(records[p]));
        let l = choose|l: int| 0 <= l < live.len() && live[l] == records[p];
        assert(stamped[l].0 == live[l].0);
        assert(!holds(held, stamped[l].0));
        let o = choose|o: int|
            {
                &&& 0 <= o < stamped.len()
                &&& (#[trigger] stamped[o]).0 == stamped[l].0
                &&& forall|i: int|
                    0 <= i < held.len() && !was.contains(#[trigger] held[i]) ==> stamped[o].1
                        <= held[i].1
            };
        assert(stamped[o].0 == live[o].0);
        assert(records.contains(live[o]));
        let q = choose|q: int| 0 <= q < records.len() && records[q] == live[o];
        lemma_moved_back(now, seconds_since(now_unix, live[o].1) * NANOS_PER_SEC as nat, stamped[o].1);
        assert(seconds_since(now_unix, live[o].1) * NANOS_PER_SEC == record_age(
            now_unix,
            records[q].1,
        ));
        assert(records[q].0 == records[p].0);
    }
}

/// A reload takes over what it should.
pub proof fn lemma_takes_over(
    was: Seq<(Seq<u8>, int)>,
    records: Seq<(Seq<u8>, u64)>,
    now: Instant,
    now_unix: u64,
    ttl: nat,
    room: nat,
    stamped: Seq<(Seq<u8>, int)>,
)
    requires
        distinct_keys(was),
        was.len() <= room,
        stamps(live_records(records, now_unix, ttl), now, now_unix, stamped),
    ensures
        takes_over(was, records, now, now_unix, ttl, room, reloaded(was, stamped, room)),
        reloaded(was, stamped, room).len() == was.len() + adopted(was, stamped, room).len(),
{
    let held = reloaded(was, stamped, room);
    let t = instant_nanos(now);
    let live = live_records(records, now_unix, ttl);
    reload_orders_by_time(was, stamped, room);
    reload_fills_the_room(was, stamped, room);
    lemma_live_records(records, now_unix, ttl);
    lemma_live_records_are_records(records, now_unix, ttl);
    let taken = adopted(was, stamped, room);
    lemma_by_time(was + taken);
    assert forall|i: int| 0 <= i < held.len() && !was.contains(#[trigger] held[i]) implies exists|
        p: int,
    |
        {
            &&& 0 <= p < records.len()
            &&& (#[trigger] records[p]).0 == held[i].0
            &&& record_age(now_unix, records[p].1) <= ttl
            &&& held[i].1 == t - record_age(now_unix, records[p].1) || held[i].1 == t
            &&& reaches_back(now, ttl) ==> held[i].1 == t - record_age(now_unix, records[p].1)
        } by {
        assert(held.contains(held[i]));
        assert(taken.contains(held[i]));
        let a = choose|a: int| 0 <= a < taken.len() && taken[a] == held[i];
        assert(stamped.contains(taken[a]));
        let l = choose|l: int| 0 <= l < stamped.len() && stamped[l] == held[i];
        assert(stamped[l].0 == live[l].0);
        assert(records.contains(live[l]));
        let p = choose|p: int| 0 <= p < records.len() && records[p] == live[l];
        lemma_moved_back(now, seconds_since(now_unix, live[l].1) * NANOS_PER_SEC as nat, stamped[l].1);
        assert(seconds_since(now_unix, live[l].1) * NANOS_PER_SEC == record_age(
            now_unix,
            records[p].1,
        ));
        assert(records[p].0 == held[i].0);
    }
    if was.len() + records.len() <= room {
        assert forall|p: int|
            0 <= p < records.len() && record_age(now_unix, (#[trigger] records[p]).1)
                <= ttl implies holds(held, records[p].0) by {
            assert(live.contains(records[p]));
            let l = choose|l: int| 0 <= l < live.len() && live[l] == records[p];
            assert(stamped[l].0 == live[l].0);
            let sorted = by_time(stamped);
            lemma_by_time(stamped);
            lemma_new_entries(sorted, was);
            assert(stamped.contains(stamped[l]));
            assert(sorted.contains(stamped[l]));
            let s = choose|s: int| 0 <= s < sorted.len() && sorted[s] == stamped[l];
            if holds(was, sorted[s].0) {
                let w = choose|w: int| 0 <= w < was.len() && (#[trigger] was[w]).0 == sorted[s].0;
                assert(was.contains(was[w]));
                assert(held.contains(was[w]));
                let i = choose|i: int| 0 <= i < held.len() && held[i] == was[w];
                assert(held[i].0 == records[p].0);
            } else {
                assert(taken == new_entries(sorted, was));
                assert(holds(taken, sorted[s].0));
                let a = choose|a: int|
                    0 <= a < taken.len() && (#[trigger] taken[a]).0 == sorted[s].0;
                assert(taken.contains(taken[a]));
                assert(held.contains(taken[a]));
                let i = choose|i: int| 0 <= i < held.len() && held[i] == taken[a];
                assert(held[i].0 == records[p].0);
            }
        }
    }
    lemma_fills_with_the_newest(was, stamped, room);
    lemma_leaves_out_the_oldest(was, records, now, now_unix, ttl, room, stamped, held);
}

/// A restore takes over what is live of the pairs that it is given, and counts
/// what it took over.
pub proof fn a_restore_takes_over_what_is_live(
    cache: &mut ReplayCache,
    pairs: &[([u8; 16], u64)],
    now: Instant,
    now_unix: u64,
    count: usize,
)
    requires
        old(cache).wf(),
        call_ensures(ReplayCache::restore_at, (cache, pairs, now, now_unix), count),
    ensures
        takes_over(
            old(cache)@,
            pair_views(pairs@),
            now,
            now_unix,
            old(cache).ttl_nanos(),
            old(cache).capacity(),
            final(cache)@,
        ),
        final(cache)@.len() == old(cache)@.len() + count,
        final(cache).ttl_nanos() == old(cache).ttl_nanos(),
        final(cache).capacity() == old(cache).capacity(),
{
    let was = old(cache)@;
    let ttl = old(cache).ttl_nanos();
    let room = old(cache).capacity();
    let records = pair_views(pairs@);
    old(cache).lemma_entries_are_bounded();
    let stamped = choose|stamped: Seq<(Seq<u8>, int)>|
        {
            &&& #[trigger] stamps(live_records(records, now_unix, ttl), now, now_unix, stamped)
            &&& final(cache)@ == reloaded(was, stamped, room)
            &&& count == adopted(was, stamped, room).len()
        };
    lemma_takes_over(was, records, now, now_unix, ttl, room, stamped);
}

/// Live records are records.
proof fn lemma_live_records_are_records(records: Seq<(Seq<u8>, u64)>, now_unix: u64, ttl: nat)
    ensures
        forall|i: int|
            0 <= i < live_records(records, now_unix, ttl).len() ==> records.contains(
                #[trigger] live_records(records, now_unix, ttl)[i],
            ),
    decreases records.len(),
{
    if records.len() > 0 {
        let front = records.drop_last();
        lemma_live_records_are_records(front, now_unix, ttl);
        let head = live_records(front, now_unix, ttl);
        let all = live_records(records, now_unix, ttl);
        assert forall|i: int| 0 <= i < all.len() implies records.contains(#[trigger] all[i]) by {
            if i < head.len() {
                assert(all[i] == head[i]);
                let j = choose|j: int| 0 <= j < front.len() && front[j] == head[i];
                assert(records[j] == all[i]);
            } else {
                assert(records[records.len() - 1] == all[i]);
            }
        }
    }
}

} // verus!
