//! What the replay cache promises over any run of checks and across a restart.

use crate::clock::{elapsed, instant_nanos, lemma_moved_back, reaches_back, NANOS_PER_SEC};
use crate::replay::{adopted, after_check, by_time, distinct_keys, expired, holds, insert_by_time,
    live_records, new_entries, reloaded, seconds_before, seconds_since, snapshot, stamps, sweep,
    verdict, ReplayCheck};
use std::time::Instant;
use vstd::prelude::*;

verus! {

/// The entries after a run of checks, each a key and the instant of its check.
pub open spec fn after_checks(
    entries: Seq<(Seq<u8>, int)>,
    checks: Seq<(Seq<u8>, int)>,
    ttl: nat,
    max_size: nat,
) -> Seq<(Seq<u8>, int)>
    decreases checks.len(),
{
    if checks.len() == 0 {
        entries
    } else {
        after_check(
            after_checks(entries, checks.drop_last(), ttl, max_size),
            checks.last().0,
            checks.last().1,
            ttl,
            max_size,
        )
    }
}

/// Whether the entries stand in the order of their times.
pub open spec fn time_ordered(entries: Seq<(Seq<u8>, int)>) -> bool {
    forall|i: int, j: int|
        0 <= i <= j < entries.len() ==> (#[trigger] entries[i]).1 <= (#[trigger] entries[j]).1
}

/// Sweeping drops a run of expired entries and stops at a live one.
pub(crate) proof fn lemma_sweep_drops_a_prefix(entries: Seq<(Seq<u8>, int)>, now: int, ttl: nat)
    ensures
        sweep(entries, now, ttl).len() <= entries.len(),
        sweep(entries, now, ttl) == entries.skip(entries.len() - sweep(entries, now, ttl).len()),
        forall|i: int|
            0 <= i < entries.len() - sweep(entries, now, ttl).len() ==> expired(
                (#[trigger] entries[i]).1,
                now,
                ttl,
            ),
        sweep(entries, now, ttl).len() > 0 ==> !expired(sweep(entries, now, ttl)[0].1, now, ttl),
    decreases entries.len(),
{
    let live = sweep(entries, now, ttl);
    if entries.len() > 0 && expired(entries[0].1, now, ttl) {
        let rest = entries.drop_first();
        lemma_sweep_drops_a_prefix(rest, now, ttl);
        assert(entries.skip(entries.len() - live.len()) =~= rest.skip(rest.len() - live.len()));
        assert forall|i: int| 0 <= i < entries.len() - live.len() implies expired(
            (#[trigger] entries[i]).1,
            now,
            ttl,
        ) by {
            if i > 0 {
                assert(rest[i - 1] == entries[i]);
            }
        }
    } else {
        assert(entries.skip(0) =~= entries);
    }
}

/// A key that was recorded and has not outlived the time to live is reported
/// as a replay.
pub proof fn live_key_is_a_replay(entries: Seq<(Seq<u8>, int)>, i: int, now: int, ttl: nat)
    requires
        0 <= i < entries.len(),
        !expired(entries[i].1, now, ttl),
    ensures
        verdict(entries, entries[i].0, now, ttl) == ReplayCheck::Replay,
{
    lemma_sweep_drops_a_prefix(entries, now, ttl);
    let live = sweep(entries, now, ttl);
    let dropped = entries.len() - live.len();
    assert(live[i - dropped] == entries[i]);
}

/// A key that the cache does not hold is reported as fresh.
pub proof fn unknown_key_is_fresh(
    entries: Seq<(Seq<u8>, int)>,
    key: Seq<u8>,
    now: int,
    ttl: nat,
)
    requires
        !holds(entries, key),
    ensures
        verdict(entries, key, now, ttl) == ReplayCheck::Fresh,
{
    lemma_sweep_drops_a_prefix(entries, now, ttl);
    let live = sweep(entries, now, ttl);
    if holds(live, key) {
        let i = choose|i: int| 0 <= i < live.len() && (#[trigger] live[i]).0 == key;
        assert(entries[i + entries.len() - live.len()].0 == key);
    }
}

/// A key is reported as a replay only where the cache holds it.
pub proof fn known_key_alone_is_a_replay(
    entries: Seq<(Seq<u8>, int)>,
    key: Seq<u8>,
    now: int,
    ttl: nat,
)
    requires
        verdict(entries, key, now, ttl) == ReplayCheck::Replay,
    ensures
        exists|i: int| 0 <= i < entries.len() && (#[trigger] entries[i]).0 == key,
{
    if !holds(entries, key) {
        unknown_key_is_fresh(entries, key, now, ttl);
    }
}

/// Checking one key does not make the cache hold another.
pub proof fn keys_are_independent(
    entries: Seq<(Seq<u8>, int)>,
    key: Seq<u8>,
    other: Seq<u8>,
    now: int,
    later: int,
    ttl: nat,
    max_size: nat,
)
    requires
        key != other,
        !holds(entries, other),
    ensures
        verdict(after_check(entries, key, now, ttl, max_size), other, later, ttl)
            == ReplayCheck::Fresh,
{
    let after = after_check(entries, key, now, ttl, max_size);
    let live = sweep(entries, now, ttl);
    unknown_key_is_fresh(entries, other, now, ttl);
    if holds(after, other) {
        let i = choose|i: int| 0 <= i < after.len() && (#[trigger] after[i]).0 == other;
        if after == live {
            assert(live[i].0 == other);
        } else if live.len() >= max_size {
            assert(i < live.len() - 1 ==> live[i + 1].0 == other);
        } else {
            assert(i < live.len() ==> live[i].0 == other);
        }
        assert(false);
    }
    unknown_key_is_fresh(after, other, later, ttl);
}

/// Whether the key recorded at `at` is among the last `depth` entries.
spec fn within(entries: Seq<(Seq<u8>, int)>, key: Seq<u8>, at: int, depth: nat) -> bool {
    exists|i: int|
        0 <= i < entries.len() && entries.len() - i <= depth && #[trigger] entries[i] == (key, at)
}

/// One check moves a live entry at most one place toward the front.
proof fn lemma_check_keeps(
    entries: Seq<(Seq<u8>, int)>,
    key: Seq<u8>,
    at: int,
    depth: nat,
    check: (Seq<u8>, int),
    ttl: nat,
    max_size: nat,
)
    requires
        within(entries, key, at, depth),
        depth < max_size,
        !expired(at, check.1, ttl),
    ensures
        within(after_check(entries, check.0, check.1, ttl, max_size), key, at, depth + 1),
{
    let i = choose|i: int|
        0 <= i < entries.len() && entries.len() - i <= depth && #[trigger] entries[i] == (key, at);
    lemma_sweep_drops_a_prefix(entries, check.1, ttl);
    let live = sweep(entries, check.1, ttl);
    let p = i - (entries.len() - live.len());
    assert(live[p] == (key, at));
    let after = after_check(entries, check.0, check.1, ttl, max_size);
    if holds(live, check.0) {
        assert(after[p] == (key, at));
    } else if live.len() >= max_size {
        assert(after[p - 1] == (key, at));
    } else {
        assert(after[p] == (key, at));
    }
}

proof fn lemma_checks_keep(
    entries: Seq<(Seq<u8>, int)>,
    key: Seq<u8>,
    at: int,
    checks: Seq<(Seq<u8>, int)>,
    ttl: nat,
    max_size: nat,
)
    requires
        within(entries, key, at, 1),
        checks.len() < max_size,
        forall|j: int| 0 <= j < checks.len() ==> !expired(at, (#[trigger] checks[j]).1, ttl),
    ensures
        within(after_checks(entries, checks, ttl, max_size), key, at, 1 + checks.len()),
    decreases checks.len(),
{
    if checks.len() > 0 {
        let front = checks.drop_last();
        assert forall|j: int| 0 <= j < front.len() implies !expired(
            at,
            (#[trigger] front[j]).1,
            ttl,
        ) by {
            assert(front[j] == checks[j]);
        }
        lemma_checks_keep(entries, key, at, front, ttl, max_size);
        assert(checks.last() == checks[checks.len() - 1]);
        lemma_check_keeps(
            after_checks(entries, front, ttl, max_size),
            key,
            at,
            checks.len(),
            checks.last(),
            ttl,
            max_size,
        );
    }
}

/// A key that was reported fresh is reported as a replay for as long as its
/// time to live lasts, whatever else is checked in between, unless as many
/// further checks as the cache has places may have displaced it.
pub proof fn fresh_key_is_remembered(
    entries: Seq<(Seq<u8>, int)>,
    key: Seq<u8>,
    at: int,
    checks: Seq<(Seq<u8>, int)>,
    now: int,
    ttl: nat,
    max_size: nat,
)
    requires
        verdict(entries, key, at, ttl) == ReplayCheck::Fresh,
        checks.len() < max_size,
        forall|j: int| 0 <= j < checks.len() ==> !expired(at, (#[trigger] checks[j]).1, ttl),
        !expired(at, now, ttl),
    ensures
        verdict(
            after_checks(after_check(entries, key, at, ttl, max_size), checks, ttl, max_size),
            key,
            now,
            ttl,
        ) == ReplayCheck::Replay,
{
    let first = after_check(entries, key, at, ttl, max_size);
    assert(first[first.len() - 1] == (key, at));
    assert(within(first, key, at, 1));
    lemma_checks_keep(first, key, at, checks, ttl, max_size);
    let all = after_checks(first, checks, ttl, max_size);
    let i = choose|i: int|
        0 <= i < all.len() && all.len() - i <= 1 + checks.len() && #[trigger] all[i] == (key, at);
    live_key_is_a_replay(all, i, now, ttl);
}

/// While the clock does not go back, checks keep the entries in the order of
/// their times.
pub proof fn checks_keep_time_order(
    entries: Seq<(Seq<u8>, int)>,
    key: Seq<u8>,
    now: int,
    ttl: nat,
    max_size: nat,
)
    requires
        time_ordered(entries),
        forall|i: int| 0 <= i < entries.len() ==> (#[trigger] entries[i]).1 <= now,
    ensures
        time_ordered(after_check(entries, key, now, ttl, max_size)),
        forall|i: int|
            0 <= i < after_check(entries, key, now, ttl, max_size).len() ==> (
            #[trigger] after_check(entries, key, now, ttl, max_size)[i]).1 <= now,
{
    lemma_sweep_drops_a_prefix(entries, now, ttl);
}

/// A key whose time to live is over is reported as fresh again.
pub proof fn expired_key_is_fresh(entries: Seq<(Seq<u8>, int)>, i: int, now: int, ttl: nat)
    requires
        time_ordered(entries),
        distinct_keys(entries),
        0 <= i < entries.len(),
        expired(entries[i].1, now, ttl),
    ensures
        verdict(entries, entries[i].0, now, ttl) == ReplayCheck::Fresh,
{
    lemma_sweep_drops_a_prefix(entries, now, ttl);
    let live = sweep(entries, now, ttl);
    let dropped = entries.len() - live.len();
    if i >= dropped {
        assert(live[0] == entries[dropped]);
        assert(entries[dropped].1 <= entries[i].1);
        assert(false);
    }
    if holds(live, entries[i].0) {
        let j = choose|j: int| 0 <= j < live.len() && (#[trigger] live[j]).0 == entries[i].0;
        assert(live[j] == entries[j + dropped]);
        assert(false);
    }
}

/// Checks keep the size limit.
pub proof fn checks_keep_the_size_limit(
    entries: Seq<(Seq<u8>, int)>,
    key: Seq<u8>,
    now: int,
    ttl: nat,
    max_size: nat,
)
    requires
        entries.len() <= max_size,
    ensures
        after_check(entries, key, now, ttl, max_size).len() <= max_size,
{
    lemma_sweep_drops_a_prefix(entries, now, ttl);
}

/// Inserting by time keeps the order and adds the one entry.
proof fn lemma_insert_by_time(s: Seq<(Seq<u8>, int)>, x: (Seq<u8>, int))
    requires
        time_ordered(s),
    ensures
        time_ordered(insert_by_time(s, x)),
        insert_by_time(s, x).len() == s.len() + 1,
        forall|y: (Seq<u8>, int)| #[trigger]
            insert_by_time(s, x).contains(y) <==> s.contains(y) || y == x,
    decreases s.len(),
{
    let r = insert_by_time(s, x);
    if s.len() > 0 && s.last().1 > x.1 {
        let front = s.drop_last();
        lemma_insert_by_time(front, x);
        let head = insert_by_time(front, x);
        assert forall|y: (Seq<u8>, int)| #[trigger] r.contains(y) <==> s.contains(y) || y == x by {
            if r.contains(y) {
                let i = choose|i: int| 0 <= i < r.len() && r[i] == y;
                if i < head.len() {
                    assert(head.contains(head[i]));
                    if front.contains(y) {
                        let j = choose|j: int| 0 <= j < front.len() && front[j] == y;
                        assert(s[j] == y);
                    }
                } else {
                    assert(s[s.len() - 1] == y);
                }
            }
            if s.contains(y) {
                let j = choose|j: int| 0 <= j < s.len() && s[j] == y;
                if j < front.len() {
                    assert(front[j] == y);
                    assert(head.contains(y));
                    let k = choose|k: int| 0 <= k < head.len() && head[k] == y;
                    assert(r[k] == y);
                } else {
                    assert(r[head.len() as int] == y);
                }
            }
            if y == x {
                assert(head.contains(y));
                let k = choose|k: int| 0 <= k < head.len() && head[k] == y;
                assert(r[k] == y);
            }
        }
        assert forall|i: int, j: int| 0 <= i <= j < r.len() implies (#[trigger] r[i]).1 <= (
        #[trigger] r[j]).1 by {
            if j < head.len() {
                assert(r[i] == head[i] && r[j] == head[j]);
            } else if i < head.len() {
                assert(head.contains(head[i]));
                if front.contains(head[i]) {
                    let k = choose|k: int| 0 <= k < front.len() && front[k] == head[i];
                    assert(s[k].1 <= s[s.len() - 1].1);
                }
            }
        }
    } else {
        assert forall|y: (Seq<u8>, int)| #[trigger] r.contains(y) <==> s.contains(y) || y == x by {
            if s.contains(y) {
                let j = choose|j: int| 0 <= j < s.len() && s[j] == y;
                assert(r[j] == y);
            }
            assert(r[s.len() as int] == x);
            if r.contains(y) && y != x {
                let j = choose|j: int| 0 <= j < r.len() && r[j] == y;
                assert(s[j] == y);
            }
        }
        assert forall|i: int, j: int| 0 <= i <= j < r.len() implies (#[trigger] r[i]).1 <= (
        #[trigger] r[j]).1 by {
            if j < s.len() {
                assert(r[i] == s[i] && r[j] == s[j]);
            } else if i < s.len() {
                assert(s[i].1 <= s[s.len() - 1].1);
            }
        }
    }
}

/// Ordering by time keeps exactly the entries.
pub proof fn lemma_by_time(entries: Seq<(Seq<u8>, int)>)
    ensures
        time_ordered(by_time(entries)),
        by_time(entries).len() == entries.len(),
        forall|y: (Seq<u8>, int)| #[trigger]
            by_time(entries).contains(y) <==> entries.contains(y),
    decreases entries.len(),
{
    if entries.len() > 0 {
        let front = entries.drop_last();
        lemma_by_time(front);
        lemma_insert_by_time(by_time(front), entries.last());
        assert forall|y: (Seq<u8>, int)| #[trigger]
            by_time(entries).contains(y) <==> entries.contains(y) by {
            if entries.contains(y) {
                let j = choose|j: int| 0 <= j < entries.len() && entries[j] == y;
                if j < front.len() {
                    assert(front[j] == y);
                    assert(by_time(front).contains(y));
                }
            }
            if by_time(entries).contains(y) {
                if by_time(front).contains(y) {
                    let j = choose|j: int| 0 <= j < front.len() && front[j] == y;
                    assert(entries[j] == y);
                } else {
                    assert(entries[entries.len() - 1] == y);
                }
            }
        }
    }
}

/// Inserting a key that is not there keeps the keys distinct.
proof fn lemma_insert_keeps_keys(s: Seq<(Seq<u8>, int)>, x: (Seq<u8>, int))
    requires
        distinct_keys(s),
        !holds(s, x.0),
    ensures
        distinct_keys(insert_by_time(s, x)),
        forall|k: Seq<u8>| #[trigger]
            holds(insert_by_time(s, x), k) <==> holds(s, k) || k == x.0,
    decreases s.len(),
{
    let r = insert_by_time(s, x);
    if s.len() > 0 && s.last().1 > x.1 {
        let front = s.drop_last();
        let head = insert_by_time(front, x);
        assert forall|k: Seq<u8>| #[trigger] holds(front, k) implies holds(s, k) by {
            let i = choose|i: int| 0 <= i < front.len() && (#[trigger] front[i]).0 == k;
            assert(s[i].0 == k);
        }
        lemma_insert_keeps_keys(front, x);
        assert(!holds(front, s.last().0));
        assert(s[s.len() - 1].0 != x.0);
        assert(!holds(head, s.last().0));
        lemma_push_key(head, s.last());
        lemma_push_key(front, s.last());
        assert(front.push(s.last()) =~= s);
    } else {
        lemma_push_key(s, x);
    }
}

/// An entry pushed at the end adds its key.
proof fn lemma_push_key(s: Seq<(Seq<u8>, int)>, x: (Seq<u8>, int))
    ensures
        forall|k: Seq<u8>| #[trigger] holds(s.push(x), k) <==> holds(s, k) || k == x.0,
        distinct_keys(s) && !holds(s, x.0) ==> distinct_keys(s.push(x)),
{
    let r = s.push(x);
    assert forall|k: Seq<u8>| #[trigger] holds(r, k) <==> holds(s, k) || k == x.0 by {
        if holds(r, k) {
            let i = choose|i: int| 0 <= i < r.len() && (#[trigger] r[i]).0 == k;
            if i < s.len() {
                assert(s[i].0 == k);
            }
        }
        if holds(s, k) {
            let i = choose|i: int| 0 <= i < s.len() && (#[trigger] s[i]).0 == k;
            assert(r[i].0 == k);
        }
        assert(r[s.len() as int].0 == x.0);
    }
    if distinct_keys(s) && !holds(s, x.0) {
        assert forall|i: int, j: int| 0 <= i < j < r.len() implies (#[trigger] r[i]).0 != (
        #[trigger] r[j]).0 by {
            assert(r[i] == s[i]);
            if j < s.len() {
                assert(r[j] == s[j]);
            }
        }
    }
}

/// Ordering by time keeps the keys distinct.
pub proof fn lemma_by_time_keeps_keys(entries: Seq<(Seq<u8>, int)>)
    requires
        distinct_keys(entries),
    ensures
        distinct_keys(by_time(entries)),
        forall|k: Seq<u8>| #[trigger] holds(by_time(entries), k) <==> holds(entries, k),
    decreases entries.len(),
{
    if entries.len() > 0 {
        let front = entries.drop_last();
        assert forall|i: int, j: int| 0 <= i < j < front.len() implies (#[trigger] front[i]).0 != (
        #[trigger] front[j]).0 by {
            assert(front[i] == entries[i] && front[j] == entries[j]);
        }
        lemma_by_time_keeps_keys(front);
        assert(!holds(front, entries.last().0)) by {
            if holds(front, entries.last().0) {
                let i = choose|i: int|
                    0 <= i < front.len() && (#[trigger] front[i]).0 == entries.last().0;
                assert(entries[i].0 == entries[entries.len() - 1].0);
            }
        }
        lemma_insert_keeps_keys(by_time(front), entries.last());
        lemma_push_key(front, entries.last());
        assert(front.push(entries.last()) =~= entries);
    }
}

/// The new entries are offered ones in their order, and together with the
/// known ones they name every offered key.
pub(crate) proof fn lemma_new_entries(offered: Seq<(Seq<u8>, int)>, known: Seq<(Seq<u8>, int)>)
    ensures
        new_entries(offered, known).len() <= offered.len(),
        forall|i: int|
            0 <= i < new_entries(offered, known).len() ==> offered.contains(
                #[trigger] new_entries(offered, known)[i],
            ),
        forall|i: int|
            0 <= i < offered.len() ==> holds(known, (#[trigger] offered[i]).0) || holds(
                new_entries(offered, known),
                offered[i].0,
            ),
        time_ordered(offered) ==> time_ordered(new_entries(offered, known)),
    decreases offered.len(),
{
    if offered.len() > 0 {
        let prior = offered.drop_last();
        lemma_new_entries(prior, known);
        let front = new_entries(prior, known);
        let all = new_entries(offered, known);
        assert forall|i: int| 0 <= i < all.len() implies offered.contains(#[trigger] all[i]) by {
            if i < front.len() {
                assert(all[i] == front[i]);
                let j = choose|j: int| 0 <= j < prior.len() && prior[j] == front[i];
                assert(offered[j] == all[i]);
            } else {
                assert(offered[offered.len() - 1] == all[i]);
            }
        }
        assert forall|i: int| 0 <= i < offered.len() implies holds(known, (#[trigger] offered[i]).0)
            || holds(all, offered[i].0) by {
            if i < prior.len() {
                assert(prior[i] == offered[i]);
            }
            if holds(front, offered[i].0) {
                let j = choose|j: int| 0 <= j < front.len() && (#[trigger] front[j]).0 == offered[i].0;
                assert(all[j] == front[j]);
            } else if i == prior.len() && !holds(known, offered[i].0) {
                assert(all[front.len() as int] == offered[i]);
            }
        }
        if time_ordered(offered) {
            assert forall|i: int, j: int| 0 <= i <= j < prior.len() implies (
            #[trigger] prior[i]).1 <= (#[trigger] prior[j]).1 by {
                assert(prior[i] == offered[i] && prior[j] == offered[j]);
            }
            assert forall|i: int, j: int| 0 <= i <= j < all.len() implies (#[trigger] all[i]).1 <= (
            #[trigger] all[j]).1 by {
                if j < front.len() {
                    assert(all[i] == front[i] && all[j] == front[j]);
                } else if i < front.len() {
                    assert(prior.contains(front[i]));
                    let k = choose|k: int| 0 <= k < prior.len() && prior[k] == front[i];
                    assert(offered[k].1 <= offered[offered.len() - 1].1);
                }
            }
        }
    }
}

/// A reload fills the room there is: it takes over every new key, or as many
/// as fit. Known and repeated keys take up none of it.
pub proof fn reload_fills_the_room(
    entries: Seq<(Seq<u8>, int)>,
    stamped: Seq<(Seq<u8>, int)>,
    max_size: nat,
)
    requires
        entries.len() <= max_size,
    ensures
        ({
            let fresh = new_entries(by_time(stamped), entries).len();
            adopted(entries, stamped, max_size).len() == if fresh <= max_size - entries.len() {
                fresh as int
            } else {
                max_size - entries.len()
            }
        }),
        distinct_keys(adopted(entries, stamped, max_size)),
        forall|i: int|
            0 <= i < adopted(entries, stamped, max_size).len() ==> {
                &&& stamped.contains(#[trigger] adopted(entries, stamped, max_size)[i])
                &&& !holds(entries, adopted(entries, stamped, max_size)[i].0)
            },
{
    let sorted = by_time(stamped);
    lemma_by_time(stamped);
    lemma_new_entries(sorted, entries);
    crate::replay::lemma_new_entries_are_new(sorted, entries);
    let fresh = new_entries(sorted, entries);
    let kept = adopted(entries, stamped, max_size);
    let skipped = fresh.len() - kept.len();
    assert forall|i: int| 0 <= i < kept.len() implies {
        &&& stamped.contains(#[trigger] kept[i])
        &&& !holds(entries, kept[i].0)
    } by {
        assert(kept[i] == fresh[i + skipped]);
        assert(sorted.contains(fresh[i + skipped]));
    }
    assert forall|i: int, j: int| 0 <= i < j < kept.len() implies (#[trigger] kept[i]).0 != (
    #[trigger] kept[j]).0 by {
        assert(kept[i] == fresh[i + skipped] && kept[j] == fresh[j + skipped]);
    }
}

/// Where a reload has no room for everything, the oldest go: no new key that
/// is left out was seen later than one that is taken over.
pub proof fn reload_keeps_the_newest(
    entries: Seq<(Seq<u8>, int)>,
    stamped: Seq<(Seq<u8>, int)>,
    max_size: nat,
    left_out: int,
    kept: int,
)
    requires
        0 <= left_out < new_entries(by_time(stamped), entries).len() - adopted(
            entries,
            stamped,
            max_size,
        ).len(),
        0 <= kept < adopted(entries, stamped, max_size).len(),
    ensures
        new_entries(by_time(stamped), entries)[left_out].1 <= adopted(
            entries,
            stamped,
            max_size,
        )[kept].1,
{
    let sorted = by_time(stamped);
    lemma_by_time(stamped);
    lemma_new_entries(sorted, entries);
    let fresh = new_entries(sorted, entries);
    let taken = adopted(entries, stamped, max_size);
    assert(taken[kept] == fresh[kept + fresh.len() - taken.len()]);
}

/// A snapshot holds the record of every live entry.
proof fn lemma_snapshot_holds(
    entries: Seq<(Seq<u8>, int)>,
    i: int,
    now: int,
    now_unix: u64,
    ttl: nat,
)
    requires
        0 <= i < entries.len(),
        !expired(entries[i].1, now, ttl),
    ensures
        snapshot(entries, now, now_unix, ttl).contains(
            (
                entries[i].0,
                seconds_before(now_unix, elapsed(now, entries[i].1) / NANOS_PER_SEC as nat),
            ),
        ),
    decreases entries.len(),
{
    let front = entries.drop_last();
    let all = snapshot(entries, now, now_unix, ttl);
    let head = snapshot(front, now, now_unix, ttl);
    if i < front.len() {
        lemma_snapshot_holds(front, i, now, now_unix, ttl);
        assert(front[i] == entries[i]);
        let want = (
            entries[i].0,
            seconds_before(now_unix, elapsed(now, entries[i].1) / NANOS_PER_SEC as nat),
        );
        let k = choose|k: int| 0 <= k < head.len() && head[k] == want;
        assert(all[k] == want);
    } else {
        assert(entries.last() == entries[i]);
        assert(all[all.len() - 1] == all.last());
    }
}

/// A snapshot is no longer than the cache, and the live part no longer than
/// the snapshot.
pub(crate) proof fn lemma_live_records(records: Seq<(Seq<u8>, u64)>, now_unix: u64, ttl: nat)
    ensures
        live_records(records, now_unix, ttl).len() <= records.len(),
        forall|i: int|
            0 <= i < records.len() && seconds_since(now_unix, (#[trigger] records[i]).1)
                * NANOS_PER_SEC <= ttl ==> live_records(records, now_unix, ttl).contains(records[i]),
        forall|i: int|
            0 <= i < live_records(records, now_unix, ttl).len() ==> seconds_since(
                now_unix,
                (#[trigger] live_records(records, now_unix, ttl)[i]).1,
            ) * NANOS_PER_SEC <= ttl,
    decreases records.len(),
{
    if records.len() > 0 {
        let front = records.drop_last();
        lemma_live_records(front, now_unix, ttl);
        let head = live_records(front, now_unix, ttl);
        let all = live_records(records, now_unix, ttl);
        assert forall|i: int|
            0 <= i < records.len() && seconds_since(now_unix, (#[trigger] records[i]).1)
                * NANOS_PER_SEC <= ttl implies all.contains(records[i]) by {
            if i < front.len() {
                assert(front[i] == records[i]);
                let k = choose|k: int| 0 <= k < head.len() && head[k] == records[i];
                assert(all[k] == records[i]);
            } else {
                assert(all[all.len() - 1] == records[i]);
            }
        }
        assert forall|i: int| 0 <= i < all.len() implies seconds_since(
            now_unix,
            (#[trigger] all[i]).1,
        ) * NANOS_PER_SEC <= ttl by {
            if i < head.len() {
                assert(all[i] == head[i]);
            }
        }
    }
}

/// A record older than the time to live does not come back: what a reload
/// stamps has an age within it.
pub proof fn expired_records_are_not_restored(
    records: Seq<(Seq<u8>, u64)>,
    now: Instant,
    now_unix: u64,
    ttl: nat,
    stamped: Seq<(Seq<u8>, int)>,
)
    requires
        stamps(live_records(records, now_unix, ttl), now, now_unix, stamped),
    ensures
        forall|i: int|
            0 <= i < live_records(records, now_unix, ttl).len() ==> seconds_since(
                now_unix,
                (#[trigger] live_records(records, now_unix, ttl)[i]).1,
            ) * NANOS_PER_SEC <= ttl,
        forall|i: int|
            0 <= i < stamped.len() ==> !expired(
                (#[trigger] stamped[i]).1,
                instant_nanos(now),
                ttl,
            ),
{
    lemma_live_records(records, now_unix, ttl);
    let live = live_records(records, now_unix, ttl);
    assert forall|i: int| 0 <= i < stamped.len() implies !expired(
        (#[trigger] stamped[i]).1,
        instant_nanos(now),
        ttl,
    ) by {
        assert(seconds_since(now_unix, live[i].1) * NANOS_PER_SEC <= ttl);
        lemma_moved_back(
            now,
            seconds_since(now_unix, live[i].1) * NANOS_PER_SEC as nat,
            stamped[i].1,
        );
    }
}

/// A restart does not forget what was seen: a key that was live when the cache
/// was stored, and whose record is still within the time to live when an empty
/// cache of sufficient size is filled from the stored records, is reported as
/// a replay.
pub proof fn a_restart_does_not_forget(
    entries: Seq<(Seq<u8>, int)>,
    i: int,
    now: int,
    now_unix: u64,
    later: Instant,
    later_unix: u64,
    stamped: Seq<(Seq<u8>, int)>,
    ttl: nat,
    max_size: nat,
)
    requires
        0 <= i < entries.len(),
        !expired(entries[i].1, now, ttl),
        seconds_since(
            later_unix,
            seconds_before(now_unix, elapsed(now, entries[i].1) / NANOS_PER_SEC as nat),
        ) * NANOS_PER_SEC <= ttl,
        snapshot(entries, now, now_unix, ttl).len() <= max_size,
        stamps(
            live_records(snapshot(entries, now, now_unix, ttl), later_unix, ttl),
            later,
            later_unix,
            stamped,
        ),
    ensures
        verdict(
            reloaded(Seq::empty(), stamped, max_size),
            entries[i].0,
            instant_nanos(later),
            ttl,
        ) == ReplayCheck::Replay,
{
    let key = entries[i].0;
    let records = snapshot(entries, now, now_unix, ttl);
    let live = live_records(records, later_unix, ttl);
    let none = Seq::<(Seq<u8>, int)>::empty();
    let back = adopted(none, stamped, max_size);
    let rec = (key, seconds_before(now_unix, elapsed(now, entries[i].1) / NANOS_PER_SEC as nat));
    lemma_snapshot_holds(entries, i, now, now_unix, ttl);
    lemma_live_records(records, later_unix, ttl);
    expired_records_are_not_restored(records, later, later_unix, ttl, stamped);
    let r = choose|r: int| 0 <= r < records.len() && records[r] == rec;
    assert(live.contains(records[r]));
    let l = choose|l: int| 0 <= l < live.len() && live[l] == rec;
    assert(stamped[l].0 == key);
    let sorted = by_time(stamped);
    lemma_by_time(stamped);
    lemma_new_entries(sorted, none);
    assert(stamped.contains(stamped[l]));
    assert(sorted.contains(stamped[l]));
    let s = choose|s: int| 0 <= s < sorted.len() && sorted[s] == stamped[l];
    assert(holds(back, sorted[s].0));
    let b = choose|b: int| 0 <= b < back.len() && (#[trigger] back[b]).0 == key;
    assert(sorted.contains(back[b]));
    assert(stamped.contains(back[b]));
    let t = choose|t: int| 0 <= t < stamped.len() && stamped[t] == back[b];
    assert(!expired(stamped[t].1, instant_nanos(later), ttl));
    let all = reloaded(none, stamped, max_size);
    assert(none + back =~= back);
    lemma_by_time(back);
    assert(back.contains(back[b]));
    assert(by_time(back).contains(back[b]));
    let a = choose|a: int| 0 <= a < all.len() && all[a] == back[b];
    live_key_is_a_replay(all, a, instant_nanos(later), ttl);
}

/// A reload leaves the entries in the order of their times, so that the cache
/// goes on giving up its oldest first, and keeps the keys and the size limit.
pub proof fn reload_orders_by_time(
    entries: Seq<(Seq<u8>, int)>,
    stamped: Seq<(Seq<u8>, int)>,
    max_size: nat,
)
    requires
        distinct_keys(entries),
        entries.len() <= max_size,
    ensures
        time_ordered(reloaded(entries, stamped, max_size)),
        distinct_keys(reloaded(entries, stamped, max_size)),
        reloaded(entries, stamped, max_size).len() <= max_size,
        forall|y: (Seq<u8>, int)| #[trigger]
            reloaded(entries, stamped, max_size).contains(y) <==> entries.contains(y) || adopted(
                entries,
                stamped,
                max_size,
            ).contains(y),
{
    let taken = adopted(entries, stamped, max_size);
    let both = entries + taken;
    reload_fills_the_room(entries, stamped, max_size);
    lemma_by_time(both);
    assert forall|i: int, j: int| 0 <= i < j < both.len() implies (#[trigger] both[i]).0 != (
    #[trigger] both[j]).0 by {
        if i < entries.len() && j >= entries.len() {
            assert(both[j] == taken[j - entries.len()]);
            assert(entries[i].0 == both[i].0);
            assert(!holds(entries, taken[j - entries.len()].0));
        } else if i >= entries.len() {
            assert(both[i] == taken[i - entries.len()] && both[j] == taken[j - entries.len()]);
        }
    }
    lemma_by_time_keeps_keys(both);
    assert forall|y: (Seq<u8>, int)| #[trigger] by_time(both).contains(y) <==> entries.contains(y)
        || taken.contains(y) by {
        if both.contains(y) {
            let i = choose|i: int| 0 <= i < both.len() && both[i] == y;
            if i < entries.len() {
                assert(entries[i] == y);
            } else {
                assert(taken[i - entries.len()] == y);
            }
        }
        if entries.contains(y) {
            let i = choose|i: int| 0 <= i < entries.len() && entries[i] == y;
            assert(both[i] == y);
        }
        if taken.contains(y) {
            let i = choose|i: int| 0 <= i < taken.len() && taken[i] == y;
            assert(both[entries.len() + i] == y);
        }
    }
}

/// Entries in the order of their times are left as they are.
proof fn lemma_by_time_of_ordered(entries: Seq<(Seq<u8>, int)>)
    requires
        time_ordered(entries),
    ensures
        by_time(entries) == entries,
    decreases entries.len(),
{
    if entries.len() > 0 {
        let front = entries.drop_last();
        assert forall|i: int, j: int| 0 <= i <= j < front.len() implies (#[trigger] front[i]).1 <= (
        #[trigger] front[j]).1 by {
            assert(front[i] == entries[i] && front[j] == entries[j]);
        }
        lemma_by_time_of_ordered(front);
        if front.len() > 0 {
            assert(front.last() == entries[entries.len() - 2]);
            assert(entries.last() == entries[entries.len() - 1]);
        }
        assert(front.push(entries.last()) =~= entries);
    } else {
        assert(by_time(entries) =~= entries);
    }
}

/// To an empty cache all entries with keys of their own are new.
proof fn lemma_all_new(offered: Seq<(Seq<u8>, int)>)
    requires
        distinct_keys(offered),
    ensures
        new_entries(offered, Seq::empty()) == offered,
    decreases offered.len(),
{
    let none = Seq::<(Seq<u8>, int)>::empty();
    if offered.len() > 0 {
        let front = offered.drop_last();
        assert forall|i: int, j: int| 0 <= i < j < front.len() implies (#[trigger] front[i]).0 != (
        #[trigger] front[j]).0 by {
            assert(front[i] == offered[i] && front[j] == offered[j]);
        }
        lemma_all_new(front);
        if holds(front, offered.last().0) {
            let i = choose|i: int|
                0 <= i < front.len() && (#[trigger] front[i]).0 == offered.last().0;
            assert(offered[i].0 == offered[offered.len() - 1].0);
        }
        assert(!holds(none, offered.last().0));
        assert(front.push(offered.last()) =~= offered);
    } else {
        assert(new_entries(offered, none) =~= offered);
    }
}

/// Whether records lie within the time to live at `now_unix`, oldest first,
/// each with a key of its own.
spec fn settled(records: Seq<(Seq<u8>, u64)>, now_unix: u64, ttl: nat) -> bool {
    &&& forall|i: int|
        0 <= i < records.len() ==> (#[trigger] records[i]).1 <= now_unix && seconds_since(
            now_unix,
            records[i].1,
        ) * NANOS_PER_SEC <= ttl
    &&& forall|i: int, j: int|
        0 <= i < j < records.len() ==> (#[trigger] records[i]).0 != (#[trigger] records[j]).0
            && records[i].1 <= records[j].1
}

/// A snapshot of entries in the order of their times is settled, names exactly
/// the live keys, and has no second after that of the latest entry.
proof fn lemma_snapshot_is_settled(
    entries: Seq<(Seq<u8>, int)>,
    now: int,
    now_unix: u64,
    ttl: nat,
)
    requires
        time_ordered(entries),
        distinct_keys(entries),
    ensures
        settled(snapshot(entries, now, now_unix, ttl), now_unix, ttl),
        forall|i: int|
            0 <= i < snapshot(entries, now, now_unix, ttl).len() ==> exists|j: int|
                {
                    &&& 0 <= j < entries.len()
                    &&& !expired((#[trigger] entries[j]).1, now, ttl)
                    &&& (#[trigger] snapshot(entries, now, now_unix, ttl)[i]).0 == entries[j].0
                },
        forall|i: int|
            0 <= i < snapshot(entries, now, now_unix, ttl).len() && entries.len() > 0 ==> (
            #[trigger] snapshot(entries, now, now_unix, ttl)[i]).1 <= seconds_before(
                now_unix,
                elapsed(now, entries.last().1) / NANOS_PER_SEC as nat,
            ),
    decreases entries.len(),
{
    if entries.len() > 0 {
        let front = entries.drop_last();
        let last = entries.last();
        let head = snapshot(front, now, now_unix, ttl);
        let all = snapshot(entries, now, now_unix, ttl);
        assert forall|i: int, j: int| 0 <= i <= j < front.len() implies (#[trigger] front[i]).1 <= (
        #[trigger] front[j]).1 by {
            assert(front[i] == entries[i] && front[j] == entries[j]);
        }
        assert forall|i: int, j: int| 0 <= i < j < front.len() implies (#[trigger] front[i]).0 != (
        #[trigger] front[j]).0 by {
            assert(front[i] == entries[i] && front[j] == entries[j]);
        }
        lemma_snapshot_is_settled(front, now, now_unix, ttl);
        let age = elapsed(now, last.1) / NANOS_PER_SEC as nat;
        let second = seconds_before(now_unix, age);
        if front.len() > 0 {
            let prior = elapsed(now, front.last().1) / NANOS_PER_SEC as nat;
            assert(front.last() == entries[entries.len() - 2]);
            assert(last == entries[entries.len() - 1]);
            assert(front.last().1 <= last.1);
            vstd::arithmetic::div_mod::lemma_div_is_ordered(
                elapsed(now, last.1) as int,
                elapsed(now, front.last().1) as int,
                NANOS_PER_SEC as int,
            );
            assert(age <= prior);
        }
        assert forall|i: int| 0 <= i < head.len() implies (#[trigger] head[i]).1 <= second by {
            assert(front.len() > 0) by {
                if front.len() == 0 {
                    assert(head.len() == 0);
                }
            }
        }
        assert forall|i: int| 0 <= i < head.len() implies (#[trigger] head[i]).0 != last.0 by {
            let j = choose|j: int|
                {
                    &&& 0 <= j < front.len()
                    &&& !expired((#[trigger] front[j]).1, now, ttl)
                    &&& head[i].0 == front[j].0
                };
            assert(front[j] == entries[j]);
            assert(entries[j].0 != entries[entries.len() - 1].0);
        }
        assert forall|i: int| 0 <= i < all.len() implies exists|j: int|
            {
                &&& 0 <= j < entries.len()
                &&& !expired((#[trigger] entries[j]).1, now, ttl)
                &&& (#[trigger] all[i]).0 == entries[j].0
            } by {
            if i < head.len() {
                assert(all[i] == head[i]);
                let j = choose|j: int|
                    {
                        &&& 0 <= j < front.len()
                        &&& !expired((#[trigger] front[j]).1, now, ttl)
                        &&& head[i].0 == front[j].0
                    };
                assert(front[j] == entries[j]);
                assert(!expired(entries[j].1, now, ttl) && all[i].0 == entries[j].0);
            } else {
                let n = entries.len() - 1;
                assert(!expired(entries[n].1, now, ttl) && all[i].0 == entries[n].0);
            }
        }
        if !expired(last.1, now, ttl) {
            vstd::arithmetic::div_mod::lemma_fundamental_div_mod(
                elapsed(now, last.1) as int,
                NANOS_PER_SEC as int,
            );
            assert(seconds_since(now_unix, second) <= age);
            assert(seconds_since(now_unix, second) * NANOS_PER_SEC <= age * NANOS_PER_SEC)
                by (nonlinear_arith)
                requires
                    seconds_since(now_unix, second) <= age,
            ;
            assert(age * NANOS_PER_SEC <= elapsed(now, last.1));
            assert forall|i: int| 0 <= i < all.len() implies (#[trigger] all[i]).1 <= now_unix
                && seconds_since(now_unix, all[i].1) * NANOS_PER_SEC <= ttl by {
                if i < head.len() {
                    assert(all[i] == head[i]);
                }
            }
            assert forall|i: int, j: int| 0 <= i < j < all.len() implies (#[trigger] all[i]).0 != (
            #[trigger] all[j]).0 && all[i].1 <= all[j].1 by {
                assert(all[i] == head[i]);
                if j < head.len() {
                    assert(all[j] == head[j]);
                }
            }
        }
    }
}

/// Settled records are all live.
proof fn lemma_settled_are_live(records: Seq<(Seq<u8>, u64)>, now_unix: u64, ttl: nat)
    requires
        settled(records, now_unix, ttl),
    ensures
        live_records(records, now_unix, ttl) == records,
    decreases records.len(),
{
    if records.len() > 0 {
        let front = records.drop_last();
        assert(settled(front, now_unix, ttl)) by {
            assert forall|i: int| 0 <= i < front.len() implies (#[trigger] front[i]).1 <= now_unix
                && seconds_since(now_unix, front[i].1) * NANOS_PER_SEC <= ttl by {
                assert(front[i] == records[i]);
            }
            assert forall|i: int, j: int| 0 <= i < j < front.len() implies (
            #[trigger] front[i]).0 != (#[trigger] front[j]).0 && front[i].1 <= front[j].1 by {
                assert(front[i] == records[i] && front[j] == records[j]);
            }
        }
        lemma_settled_are_live(front, now_unix, ttl);
        assert(records.last() == records[records.len() - 1]);
        assert(front.push(records.last()) =~= records);
    } else {
        assert(live_records(records, now_unix, ttl) =~= records);
    }
}

/// Entries stamped with the seconds of records, none of them expired, have
/// those records as their snapshot.
proof fn lemma_stamped_snapshot(
    records: Seq<(Seq<u8>, u64)>,
    stamped: Seq<(Seq<u8>, int)>,
    now: int,
    now_unix: u64,
    ttl: nat,
)
    requires
        stamped.len() == records.len(),
        forall|i: int|
            0 <= i < records.len() ==> {
                &&& (#[trigger] records[i]).1 <= now_unix
                &&& (now_unix - records[i].1) * NANOS_PER_SEC <= ttl
                &&& stamped[i] == (records[i].0, now - (now_unix - records[i].1) * NANOS_PER_SEC)
            },
    ensures
        snapshot(stamped, now, now_unix, ttl) == records,
    decreases records.len(),
{
    if records.len() > 0 {
        let n = records.len() - 1;
        let front = records.drop_last();
        let head = stamped.drop_last();
        assert forall|i: int| 0 <= i < front.len() implies {
            &&& (#[trigger] front[i]).1 <= now_unix
            &&& (now_unix - front[i].1) * NANOS_PER_SEC <= ttl
            &&& head[i] == (front[i].0, now - (now_unix - front[i].1) * NANOS_PER_SEC)
        } by {
            assert(front[i] == records[i]);
            assert(head[i] == stamped[i]);
        }
        lemma_stamped_snapshot(front, head, now, now_unix, ttl);
        let age = (now_unix - records[n].1) as nat;
        assert(stamped.last() == stamped[n]);
        assert(elapsed(now, stamped[n].1) == age * NANOS_PER_SEC);
        assert((age * NANOS_PER_SEC) / NANOS_PER_SEC as int == age) by {
            vstd::arithmetic::div_mod::lemma_div_by_multiple(age as int, NANOS_PER_SEC as int);
        }
        assert(snapshot(stamped, now, now_unix, ttl) =~= front.push(records[n]));
        assert(front.push(records[n]) =~= records);
    } else {
        assert(snapshot(stamped, now, now_unix, ttl) =~= records);
    }
}

/// A snapshot is taken over whole: reloaded, at the time it was taken, into an
/// empty cache that has room for it, every record comes back, the cache has
/// the same snapshot, and it reports of every key what the first one would.
///
/// The monotonic clock has to reach back as far as the time to live.
pub proof fn a_snapshot_is_taken_over_whole(
    entries: Seq<(Seq<u8>, int)>,
    now: Instant,
    now_unix: u64,
    ttl: nat,
    stamped: Seq<(Seq<u8>, int)>,
    max_size: nat,
)
    requires
        time_ordered(entries),
        distinct_keys(entries),
        reaches_back(now, ttl),
        snapshot(entries, instant_nanos(now), now_unix, ttl).len() <= max_size,
        stamps(
            live_records(snapshot(entries, instant_nanos(now), now_unix, ttl), now_unix, ttl),
            now,
            now_unix,
            stamped,
        ),
    ensures
        adopted(Seq::empty(), stamped, max_size).len() == snapshot(
            entries,
            instant_nanos(now),
            now_unix,
            ttl,
        ).len(),
        snapshot(
            reloaded(Seq::empty(), stamped, max_size),
            instant_nanos(now),
            now_unix,
            ttl,
        ) == snapshot(entries, instant_nanos(now), now_unix, ttl),
        forall|key: Seq<u8>| #[trigger]
            verdict(reloaded(Seq::empty(), stamped, max_size), key, instant_nanos(now), ttl)
                == verdict(entries, key, instant_nanos(now), ttl),
{
    let t = instant_nanos(now);
    let records = snapshot(entries, t, now_unix, ttl);
    let none = Seq::<(Seq<u8>, int)>::empty();
    lemma_snapshot_is_settled(entries, t, now_unix, ttl);
    lemma_settled_are_live(records, now_unix, ttl);
    assert forall|i: int| 0 <= i < records.len() implies {
        &&& (#[trigger] records[i]).1 <= now_unix
        &&& (now_unix - records[i].1) * NANOS_PER_SEC <= ttl
        &&& stamped[i] == (records[i].0, t - (now_unix - records[i].1) * NANOS_PER_SEC)
    } by {
        let age = seconds_since(now_unix, records[i].1) * NANOS_PER_SEC as nat;
        assert(stamped[i].0 == records[i].0);
        lemma_moved_back(now, age, stamped[i].1);
        assert(age <= ttl && reaches_back(now, ttl));
    }
    assert forall|i: int, j: int| 0 <= i <= j < stamped.len() implies (#[trigger] stamped[i]).1 <= (
    #[trigger] stamped[j]).1 by {
        let a = records[i];
        let b = records[j];
        assert(a.1 <= b.1);
        assert((now_unix - b.1) * NANOS_PER_SEC <= (now_unix - a.1) * NANOS_PER_SEC)
            by (nonlinear_arith)
            requires
                a.1 <= b.1,
        ;
    }
    assert forall|i: int, j: int| 0 <= i < j < stamped.len() implies (#[trigger] stamped[i]).0 != (
    #[trigger] stamped[j]).0 by {
        assert(records[i].0 != records[j].0);
    }
    lemma_by_time_of_ordered(stamped);
    lemma_all_new(stamped);
    assert(adopted(none, stamped, max_size) == stamped);
    assert(none + stamped =~= stamped);
    let back = reloaded(none, stamped, max_size);
    assert(back == stamped);
    lemma_stamped_snapshot(records, stamped, t, now_unix, ttl);
    expired_records_are_not_restored(records, now, now_unix, ttl, stamped);
    assert forall|key: Seq<u8>| #[trigger] verdict(back, key, t, ttl) == verdict(
        entries,
        key,
        t,
        ttl,
    ) by {
        if verdict(back, key, t, ttl) == ReplayCheck::Replay {
            if !holds(back, key) {
                unknown_key_is_fresh(back, key, t, ttl);
            }
            let i = choose|i: int| 0 <= i < back.len() && (#[trigger] back[i]).0 == key;
            assert(records[i].0 == key);
            let j = choose|j: int|
                {
                    &&& 0 <= j < entries.len()
                    &&& !expired((#[trigger] entries[j]).1, t, ttl)
                    &&& records[i].0 == entries[j].0
                };
            live_key_is_a_replay(entries, j, t, ttl);
        }
        if verdict(entries, key, t, ttl) == ReplayCheck::Replay {
            if !holds(entries, key) {
                unknown_key_is_fresh(entries, key, t, ttl);
            }
            let j = choose|j: int| 0 <= j < entries.len() && (#[trigger] entries[j]).0 == key;
            if expired(entries[j].1, t, ttl) {
                expired_key_is_fresh(entries, j, t, ttl);
            }
            lemma_snapshot_holds(entries, j, t, now_unix, ttl);
            let i = choose|i: int|
                0 <= i < records.len() && records[i] == (
                    entries[j].0,
                    seconds_before(now_unix, elapsed(t, entries[j].1) / NANOS_PER_SEC as nat),
                );
            assert(back[i].0 == key);
            live_key_is_a_replay(back, i, t, ttl);
        }
    }
}

} // verus!
