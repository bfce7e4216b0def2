//! Bounded replay cache with a time to live.
//!
//! Each entry is keyed by the 16-byte MAC of a packet's header. A key that is
//! already present is reported as [`ReplayCheck::Replay`]; any other is
//! recorded and reported as [`ReplayCheck::Fresh`].
//!
//! Every check first drops expired entries from the front of the queue, and a
//! full cache gives up its oldest entry to make room for a new one. A cache for
//! no entries keeps none.

use crate::bytes::{be_append, be_bytes, be_read, be_value, lemma_be_value_injective};
use crate::clock::{duration_nanos, elapsed, go_back, instant_nanos, is_now, moved_back, now_instant,
    NANOS_PER_SEC};
use std::collections::{HashMap, HashSet, VecDeque};
use std::time::{Duration, Instant};
use vstd::prelude::*;

pub mod cache_laws;
pub mod laws;
pub mod persist;

verus! {

/// Outcome of [`ReplayCache::check_and_insert`].
#[derive(Debug, Copy, Clone, PartialEq, Eq, Structural)]
pub enum ReplayCheck {
    /// The key was not in the cache. It has now been inserted, where the cache
    /// may hold anything at all.
    Fresh,
    /// The key was already in the cache: the packet is a replay and must be
    /// dropped silently.
    Replay,
}

/// Whether an entry recorded at `at` has outlived `ttl` nanoseconds by `now`.
pub open spec fn expired(at: int, now: int, ttl: nat) -> bool {
    elapsed(now, at) > ttl
}

/// `entries` without the expired ones at its front.
pub open spec fn sweep(entries: Seq<(Seq<u8>, int)>, now: int, ttl: nat) -> Seq<(Seq<u8>, int)>
    decreases entries.len(),
{
    if entries.len() > 0 && expired(entries[0].1, now, ttl) {
        sweep(entries.drop_first(), now, ttl)
    } else {
        entries
    }
}

/// Whether some entry has the key `key`.
pub open spec fn holds(entries: Seq<(Seq<u8>, int)>, key: Seq<u8>) -> bool {
    exists|i: int| 0 <= i < entries.len() && (#[trigger] entries[i]).0 == key
}

/// `entries` with a new one at the end; the oldest makes room when there are
/// `max_size` of them already. Nothing is recorded where none may be held.
pub open spec fn record(
    entries: Seq<(Seq<u8>, int)>,
    key: Seq<u8>,
    now: int,
    max_size: nat,
) -> Seq<(Seq<u8>, int)> {
    if max_size == 0 {
        entries
    } else if entries.len() >= max_size {
        entries.drop_first().push((key, now))
    } else {
        entries.push((key, now))
    }
}

/// What checking `key` at `now` reports.
pub open spec fn verdict(
    entries: Seq<(Seq<u8>, int)>,
    key: Seq<u8>,
    now: int,
    ttl: nat,
) -> ReplayCheck {
    if holds(sweep(entries, now, ttl), key) {
        ReplayCheck::Replay
    } else {
        ReplayCheck::Fresh
    }
}

/// The entries after checking `key` at `now`.
pub open spec fn after_check(
    entries: Seq<(Seq<u8>, int)>,
    key: Seq<u8>,
    now: int,
    ttl: nat,
    max_size: nat,
) -> Seq<(Seq<u8>, int)> {
    let live = sweep(entries, now, ttl);
    if holds(live, key) {
        live
    } else {
        record(live, key, now, max_size)
    }
}

/// The live entries at `now`, oldest first, each with the second of the wall
/// clock at which it was recorded. The wall clock reads `now_unix` at `now`.
pub open spec fn snapshot(
    entries: Seq<(Seq<u8>, int)>,
    now: int,
    now_unix: u64,
    ttl: nat,
) -> Seq<(Seq<u8>, u64)>
    decreases entries.len(),
{
    if entries.len() == 0 {
        Seq::empty()
    } else {
        let front = snapshot(entries.drop_last(), now, now_unix, ttl);
        let last = entries.last();
        if expired(last.1, now, ttl) {
            front
        } else {
            front.push((last.0, seconds_before(now_unix, elapsed(now, last.1) / NANOS_PER_SEC as nat)))
        }
    }
}

/// The second `age` seconds before `now_unix`, not below the epoch.
pub open spec fn seconds_before(now_unix: u64, age: nat) -> u64 {
    if age <= now_unix {
        (now_unix - age) as u64
    } else {
        0
    }
}

/// The seconds from `then` to `now_unix`; zero where `then` lies in the future.
pub open spec fn seconds_since(now_unix: u64, then: u64) -> nat {
    if then <= now_unix {
        (now_unix - then) as nat
    } else {
        0
    }
}

/// Records of a snapshot as bytes: each key, then its second as eight
/// big-endian bytes.
pub open spec fn encode_records(records: Seq<(Seq<u8>, u64)>) -> Seq<u8>
    decreases records.len(),
{
    if records.len() == 0 {
        Seq::empty()
    } else {
        encode_records(records.drop_last()) + records.last().0 + be_bytes(
            records.last().1 as nat,
            8,
        )
    }
}

/// The records that are not older than `ttl` nanoseconds at `now_unix`.
pub open spec fn live_records(records: Seq<(Seq<u8>, u64)>, now_unix: u64, ttl: nat) -> Seq<
    (Seq<u8>, u64),
>
    decreases records.len(),
{
    if records.len() == 0 {
        Seq::empty()
    } else {
        let front = live_records(records.drop_last(), now_unix, ttl);
        if seconds_since(now_unix, records.last().1) * NANOS_PER_SEC > ttl {
            front
        } else {
            front.push(records.last())
        }
    }
}

/// Whether `stamped` gives each record the instant at which it was seen: as
/// many seconds before `now` as its second lies before `now_unix`, or `now`
/// itself, which only lengthens its life, for an instant that the monotonic
/// clock cannot represent.
pub open spec fn stamps(
    records: Seq<(Seq<u8>, u64)>,
    now: Instant,
    now_unix: u64,
    stamped: Seq<(Seq<u8>, int)>,
) -> bool {
    &&& stamped.len() == records.len()
    &&& forall|i: int|
        0 <= i < records.len() ==> {
            &&& (#[trigger] stamped[i]).0 == records[i].0
            &&& moved_back(
                now,
                seconds_since(now_unix, records[i].1) * NANOS_PER_SEC as nat,
                stamped[i].1,
            )
        }
}

/// `sorted` with `entry` put behind every entry that is not later.
pub open spec fn insert_by_time(sorted: Seq<(Seq<u8>, int)>, entry: (Seq<u8>, int)) -> Seq<
    (Seq<u8>, int),
>
    decreases sorted.len(),
{
    if sorted.len() > 0 && sorted.last().1 > entry.1 {
        insert_by_time(sorted.drop_last(), entry).push(sorted.last())
    } else {
        sorted.push(entry)
    }
}

/// `entries` ordered by time; entries of one time keep their order.
pub open spec fn by_time(entries: Seq<(Seq<u8>, int)>) -> Seq<(Seq<u8>, int)>
    decreases entries.len(),
{
    if entries.len() == 0 {
        Seq::empty()
    } else {
        insert_by_time(by_time(entries.drop_last()), entries.last())
    }
}

/// Those of `offered` whose keys are not in `known`, each key once.
pub open spec fn new_entries(
    offered: Seq<(Seq<u8>, int)>,
    known: Seq<(Seq<u8>, int)>,
) -> Seq<(Seq<u8>, int)>
    decreases offered.len(),
{
    if offered.len() == 0 {
        Seq::empty()
    } else {
        let front = new_entries(offered.drop_last(), known);
        if holds(known, offered.last().0) || holds(front, offered.last().0) {
            front
        } else {
            front.push(offered.last())
        }
    }
}

/// The last `room` of `entries`, or all of them where they are fewer.
pub open spec fn newest(entries: Seq<(Seq<u8>, int)>, room: nat) -> Seq<(Seq<u8>, int)> {
    if entries.len() <= room {
        entries
    } else {
        entries.skip(entries.len() - room)
    }
}

/// What a cache of `entries` takes over from `stamped`: what it does not hold
/// yet, oldest first, and of that the newest for which it has room.
pub open spec fn adopted(
    entries: Seq<(Seq<u8>, int)>,
    stamped: Seq<(Seq<u8>, int)>,
    max_size: nat,
) -> Seq<(Seq<u8>, int)> {
    let room = if entries.len() <= max_size {
        (max_size - entries.len()) as nat
    } else {
        0
    };
    newest(new_entries(by_time(stamped), entries), room)
}

/// A cache of `entries` after it took over what it can from `stamped`, in the
/// order of time.
pub open spec fn reloaded(
    entries: Seq<(Seq<u8>, int)>,
    stamped: Seq<(Seq<u8>, int)>,
    max_size: nat,
) -> Seq<(Seq<u8>, int)> {
    by_time(entries + adopted(entries, stamped, max_size))
}

/// The pairs of a snapshot with each key as a byte string.
pub open spec fn pair_views(pairs: Seq<([u8; 16], u64)>) -> Seq<(Seq<u8>, u64)> {
    pairs.map_values(|e: ([u8; 16], u64)| (e.0@, e.1))
}

/// Stamped keys, each as a byte string with a position on the time line.
pub open spec fn stamp_views(stamped: Seq<([u8; 16], Instant)>) -> Seq<(Seq<u8>, int)> {
    stamped.map_values(|e: ([u8; 16], Instant)| (e.0@, instant_nanos(e.1)))
}

/// An entry goes to the one place in a sequence that splits it into entries
/// not later and entries later.
proof fn lemma_insert_position(s: Seq<(Seq<u8>, int)>, x: (Seq<u8>, int), p: int)
    requires
        0 <= p <= s.len(),
        p > 0 ==> s[p - 1].1 <= x.1,
        forall|j: int| p <= j < s.len() ==> (#[trigger] s[j]).1 > x.1,
    ensures
        insert_by_time(s, x) == s.insert(p, x),
    decreases s.len(),
{
    if p < s.len() {
        let front = s.drop_last();
        assert(s.last().1 > x.1);
        lemma_insert_position(front, x, p);
        assert(front.insert(p, x).push(s.last()) =~= s.insert(p, x));
    } else {
        assert(s.insert(p, x) =~= s.push(x));
    }
}

/// New entries have keys of their own, none of them known.
pub proof fn lemma_new_entries_are_new(offered: Seq<(Seq<u8>, int)>, known: Seq<(Seq<u8>, int)>)
    ensures
        distinct_keys(new_entries(offered, known)),
        forall|j: int|
            0 <= j < new_entries(offered, known).len() ==> !holds(
                known,
                (#[trigger] new_entries(offered, known)[j]).0,
            ),
    decreases offered.len(),
{
    if offered.len() > 0 {
        lemma_new_entries_are_new(offered.drop_last(), known);
        let front = new_entries(offered.drop_last(), known);
        let all = new_entries(offered, known);
        assert forall|i: int, j: int| 0 <= i < j < all.len() implies (#[trigger] all[i]).0 != (
        #[trigger] all[j]).0 by {
            assert(all[i] == front[i]);
            if j < front.len() {
                assert(all[j] == front[j]);
            }
        }
        assert forall|j: int| 0 <= j < all.len() implies !holds(known, (#[trigger] all[j]).0) by {
            if j < front.len() {
                assert(all[j] == front[j]);
            }
        }
    }
}

/// A snapshot names only keys of the cache.
pub proof fn lemma_snapshot_keys(
    entries: Seq<(Seq<u8>, int)>,
    now: int,
    now_unix: u64,
    ttl: nat,
)
    requires
        forall|i: int| 0 <= i < entries.len() ==> (#[trigger] entries[i]).0.len() == 16,
    ensures
        persist::keyed(snapshot(entries, now, now_unix, ttl)),
    decreases entries.len(),
{
    if entries.len() > 0 {
        let front = entries.drop_last();
        assert forall|i: int| 0 <= i < front.len() implies (#[trigger] front[i]).0.len() == 16 by {
            assert(front[i] == entries[i]);
        }
        lemma_snapshot_keys(front, now, now_unix, ttl);
        assert(entries.last() == entries[entries.len() - 1]);
    }
}

/// Orders stamped keys by time, oldest first; keys of one time keep their
/// order. Takes one step per key where they are in order already.
fn order_by_time(stamped: &Vec<([u8; 16], Instant)>) -> (ordered: Vec<([u8; 16], Instant)>)
    ensures
        stamp_views(ordered@) == by_time(stamp_views(stamped@)),
{
    let mut ordered: Vec<([u8; 16], Instant)> = Vec::with_capacity(stamped.len());
    let ghost all = stamp_views(stamped@);
    let mut i: usize = 0;
    assert(stamp_views(ordered@) =~= by_time(all.take(0)));
    while i < stamped.len()
        invariant
            i <= stamped@.len(),
            all == stamp_views(stamped@),
            stamp_views(ordered@) == by_time(all.take(i as int)),
        decreases stamped@.len() - i,
    {
        let entry: ([u8; 16], Instant) = stamped[i];
        let ghost sorted = stamp_views(ordered@);
        let ghost x = (entry.0@, instant_nanos(entry.1));
        assert(all.take(i + 1).drop_last() =~= all.take(i as int));
        assert(all.take(i + 1).last() == x);
        let mut p: usize = ordered.len();
        while p > 0 && ordered[p - 1].1.saturating_duration_since(entry.1).as_nanos() > 0
            invariant
                p <= ordered@.len(),
                sorted == stamp_views(ordered@),
                x == (entry.0@, instant_nanos(entry.1)),
                forall|j: int| p <= j < sorted.len() ==> (#[trigger] sorted[j]).1 > x.1,
            ensures
                p <= ordered@.len(),
                p > 0 ==> sorted[p - 1].1 <= x.1,
                forall|j: int| p <= j < sorted.len() ==> (#[trigger] sorted[j]).1 > x.1,
            decreases p,
        {
            p = p - 1;
        }
        proof {
            lemma_insert_position(sorted, x, p as int);
        }
        ordered.insert(p, entry);
        assert(stamp_views(ordered@) =~= sorted.insert(p as int, x));
        i = i + 1;
    }
    assert(all.take(i as int) =~= all);
    ordered
}

/// Bounded cache of the MACs seen lately.
pub struct ReplayCache {
    map: HashMap<u128, Instant>,
    queue: VecDeque<([u8; 16], Instant)>,
    ttl: Duration,
    max_size: usize,
}

impl View for ReplayCache {
    type V = Seq<(Seq<u8>, int)>;

    /// The entries, oldest first: each key with the instant it was recorded.
    closed spec fn view(&self) -> Seq<(Seq<u8>, int)> {
        stamp_views(self.queue@)
    }
}

/// No two entries have the same key.
pub open spec fn distinct_keys(entries: Seq<(Seq<u8>, int)>) -> bool {
    forall|i: int, j: int|
        0 <= i < j < entries.len() ==> (#[trigger] entries[i]).0 != (#[trigger] entries[j]).0
}

impl ReplayCache {
    /// How long an entry stays live, in nanoseconds.
    pub closed spec fn ttl_nanos(self) -> nat {
        duration_nanos(self.ttl)
    }

    /// How many entries the cache may hold.
    pub closed spec fn capacity(self) -> nat {
        self.max_size as nat
    }

    /// Every key is sixteen bytes long and occurs once, the lookup table names
    /// exactly the keys of the queue, and the size limit is kept.
    pub closed spec fn wf(self) -> bool {
        &&& self.lookup_matches()
        &&& distinct_keys(self@)
        &&& self@.len() <= self.max_size
    }

    spec fn lookup_matches(self) -> bool {
        &&& forall|k: u128| #[trigger]
            self.map@.contains_key(k) <==> exists|i: int|
                0 <= i < self@.len() && be_value((#[trigger] self@[i]).0) == k
        &&& self.map@.len() == self@.len()
        &&& self.map@.dom().finite()
    }

    /// No key occurs twice, and the cache holds no more than it may.
    pub proof fn lemma_entries_are_bounded(self)
        requires
            self.wf(),
        ensures
            distinct_keys(self@),
            self@.len() <= self.capacity(),
    {
    }

    /// Every key is sixteen bytes long.
    pub proof fn lemma_keys_are_sixteen_bytes(self)
        ensures
            forall|i: int| 0 <= i < self@.len() ==> (#[trigger] self@[i]).0.len() == 16,
    {
    }

    /// A cache of at most `max_size` entries that stay live for `ttl`.
    pub fn new(max_size: usize, ttl: Duration) -> (cache: ReplayCache)
        ensures
            cache.wf(),
            cache@ == Seq::<(Seq<u8>, int)>::empty(),
            cache.ttl_nanos() == duration_nanos(ttl),
            cache.capacity() == max_size,
    {
        broadcast use vstd::std_specs::hash::group_hash_axioms;

        let cache = ReplayCache {
            map: HashMap::with_capacity(max_size / 8),
            queue: VecDeque::with_capacity(max_size / 8),
            ttl,
            max_size,
        };
        assert(cache@ =~= Seq::<(Seq<u8>, int)>::empty());
        cache
    }

    /// Whether `key` is in the cache.
    fn contains(&self, key: &[u8; 16]) -> (found: bool)
        requires
            self.lookup_matches(),
        ensures
            found == holds(self@, key@),
    {
        broadcast use vstd::std_specs::hash::group_hash_axioms;

        let n: u128 = be_read(key.as_slice());
        let found = self.map.contains_key(&n);
        proof {
            if found {
                let i = choose|i: int|
                    0 <= i < self@.len() && be_value((#[trigger] self@[i]).0) == n;
                lemma_be_value_injective(self@[i].0, key@);
            }
            if holds(self@, key@) {
                let i = choose|i: int| 0 <= i < self@.len() && (#[trigger] self@[i]).0 == key@;
                assert(be_value(self@[i].0) == n);
            }
        }
        found
    }

    /// Drops the oldest entry.
    fn drop_oldest(&mut self)
        requires
            old(self).lookup_matches(),
            distinct_keys(old(self)@),
            old(self)@.len() > 0,
        ensures
            final(self)@ == old(self)@.drop_first(),
            final(self).lookup_matches(),
            distinct_keys(final(self)@),
            final(self).ttl == old(self).ttl,
            final(self).max_size == old(self).max_size,
    {
        broadcast use vstd::std_specs::hash::group_hash_axioms;

        let ghost before = self@;
        let ghost keys = self.map@;
        let popped = self.queue.pop_front();
        if let Some((key, _at)) = popped {
            let n: u128 = be_read(key.as_slice());
            self.map.remove(&n);
            assert(self@ =~= before.drop_first());
            proof {
                let after = self@;
                assert(before[0].0 == key@);
                assert(keys.contains_key(n));
                assert forall|k: u128| #[trigger] self.map@.contains_key(k) <==> exists|i: int|
                    0 <= i < after.len() && be_value((#[trigger] after[i]).0) == k by {
                    if self.map@.contains_key(k) {
                        assert(keys.contains_key(k));
                        let i = choose|i: int|
                            0 <= i < before.len() && be_value((#[trigger] before[i]).0) == k;
                        assert(i != 0);
                        assert(after[i - 1] == before[i]);
                    }
                    if exists|i: int|
                        0 <= i < after.len() && be_value((#[trigger] after[i]).0) == k {
                        let i = choose|i: int|
                            0 <= i < after.len() && be_value((#[trigger] after[i]).0) == k;
                        assert(after[i] == before[i + 1]);
                        if k == n {
                            lemma_be_value_injective(before[i + 1].0, before[0].0);
                            assert(false);
                        }
                        assert(keys.contains_key(k));
                    }
                }
                assert forall|i: int, j: int| 0 <= i < j < after.len() implies (
                #[trigger] after[i]).0 != (#[trigger] after[j]).0 by {
                    assert(after[i] == before[i + 1]);
                    assert(after[j] == before[j + 1]);
                }
            }
        }
    }

    /// Appends an entry for a key that the cache does not hold.
    fn append(&mut self, key: [u8; 16], at: Instant)
        requires
            old(self).lookup_matches(),
            distinct_keys(old(self)@),
            !holds(old(self)@, key@),
        ensures
            final(self)@ == old(self)@.push((key@, instant_nanos(at))),
            final(self).lookup_matches(),
            distinct_keys(final(self)@),
            final(self).ttl == old(self).ttl,
            final(self).max_size == old(self).max_size,
    {
        broadcast use vstd::std_specs::hash::group_hash_axioms;

        let ghost before = self@;
        let ghost keys = self.map@;
        let n: u128 = be_read(key.as_slice());
        self.map.insert(n, at);
        self.queue.push_back((key, at));
        assert(self@ =~= before.push((key@, instant_nanos(at))));
        proof {
            let after = self@;
            if keys.contains_key(n) {
                let i = choose|i: int|
                    0 <= i < before.len() && be_value((#[trigger] before[i]).0) == n;
                lemma_be_value_injective(before[i].0, key@);
                assert(false);
            }
            assert forall|k: u128| #[trigger] self.map@.contains_key(k) <==> exists|i: int|
                0 <= i < after.len() && be_value((#[trigger] after[i]).0) == k by {
                if self.map@.contains_key(k) {
                    if k == n {
                        assert(be_value(after[before.len() as int].0) == k);
                    } else {
                        assert(keys.contains_key(k));
                        let i = choose|i: int|
                            0 <= i < before.len() && be_value((#[trigger] before[i]).0) == k;
                        assert(after[i] == before[i]);
                    }
                }
                if exists|i: int| 0 <= i < after.len() && be_value((#[trigger] after[i]).0) == k {
                    let i = choose|i: int|
                        0 <= i < after.len() && be_value((#[trigger] after[i]).0) == k;
                    if i < before.len() {
                        assert(be_value(before[i].0) == k);
                        assert(keys.contains_key(k));
                    }
                }
            }
            assert forall|i: int, j: int| 0 <= i < j < after.len() implies (
            #[trigger] after[i]).0 != (#[trigger] after[j]).0 by {
                assert(after[i] == before[i]);
                if j < before.len() {
                    assert(after[j] == before[j]);
                }
            }
        }
    }

    /// Drops expired entries from the front of the queue, up to the first one
    /// that is still live.
    fn sweep_expired(&mut self, now: Instant)
        requires
            old(self).wf(),
        ensures
            final(self).wf(),
            final(self)@ == sweep(old(self)@, instant_nanos(now), old(self).ttl_nanos()),
            final(self).ttl == old(self).ttl,
            final(self).max_size == old(self).max_size,
    {
        let ghost at = instant_nanos(now);
        let ghost whole = self@;
        let ttl: u128 = self.ttl.as_nanos();
        while self.queue.len() > 0
            invariant
                self.wf(),
                sweep(self@, at, ttl as nat) == sweep(whole, at, ttl as nat),
                self.ttl == old(self).ttl,
                self.max_size == old(self).max_size,
                ttl == self.ttl_nanos(),
                at == instant_nanos(now),
            ensures
                self.wf(),
                self@ == sweep(whole, at, ttl as nat),
                self.ttl == old(self).ttl,
                self.max_size == old(self).max_size,
            decreases self@.len(),
        {
            let seen: Instant = self.queue[0].1;
            assert(instant_nanos(seen) == self@[0].1);
            if now.saturating_duration_since(seen).as_nanos() <= ttl {
                break;
            }
            self.drop_oldest();
        }
    }

    /// Checks `key` at the instant `now`: reports whether it is a replay, and
    /// records it when it is not.
    pub fn check_and_insert_at(&mut self, key: [u8; 16], now: Instant) -> (r: ReplayCheck)
        requires
            old(self).wf(),
        ensures
            final(self).wf(),
            final(self).ttl_nanos() == old(self).ttl_nanos(),
            final(self).capacity() == old(self).capacity(),
            r == verdict(old(self)@, key@, instant_nanos(now), old(self).ttl_nanos()),
            final(self)@ == after_check(
                old(self)@,
                key@,
                instant_nanos(now),
                old(self).ttl_nanos(),
                old(self).capacity(),
            ),
    {
        self.sweep_expired(now);
        if self.contains(&key) {
            return ReplayCheck::Replay;
        }
        if self.max_size == 0 {
            return ReplayCheck::Fresh;
        }
        let ghost live = self@;
        if self.queue.len() >= self.max_size {
            self.drop_oldest();
            assert(!holds(self@, key@)) by {
                if holds(self@, key@) {
                    let i = choose|i: int|
                        0 <= i < self@.len() && (#[trigger] self@[i]).0 == key@;
                    assert(self@[i] == live[i + 1]);
                }
            }
        }
        self.append(key, now);
        ReplayCheck::Fresh
    }

    /// Checks `key` now: reports whether it is a replay, and records it when it
    /// is not.
    pub fn check_and_insert(&mut self, key: [u8; 16]) -> (r: ReplayCheck)
        requires
            old(self).wf(),
        ensures
            final(self).wf(),
            final(self).ttl_nanos() == old(self).ttl_nanos(),
            final(self).capacity() == old(self).capacity(),
            exists|now: int|
                {
                    &&& is_now(now)
                    &&& r == #[trigger] verdict(old(self)@, key@, now, old(self).ttl_nanos())
                    &&& final(self)@ == after_check(
                        old(self)@,
                        key@,
                        now,
                        old(self).ttl_nanos(),
                        old(self).capacity(),
                    )
                },
    {
        self.check_and_insert_at(key, now_instant())
    }

    /// The live entries as `(key, unix seconds)` pairs, oldest first.
    ///
    /// An `Instant` means nothing to another process, so each is converted to
    /// a second of the wall clock, which reads `now_unix` at `now`.
    pub fn snapshot_at(&self, now: Instant, now_unix: u64) -> (pairs: Vec<([u8; 16], u64)>)
        ensures
            pair_views(pairs@) == snapshot(
                self@,
                instant_nanos(now),
                now_unix,
                self.ttl_nanos(),
            ),
    {
        let mut pairs: Vec<([u8; 16], u64)> = Vec::new();
        let ttl: u128 = self.ttl.as_nanos();
        let ghost at = instant_nanos(now);
        let mut i: usize = 0;
        while i < self.queue.len()
            invariant
                i <= self.queue@.len(),
                at == instant_nanos(now),
                ttl == self.ttl_nanos(),
                pair_views(pairs@) == snapshot(self@.take(i as int), at, now_unix, ttl as nat),
            decreases self.queue@.len() - i,
        {
            let entry: ([u8; 16], Instant) = self.queue[i];
            let age: Duration = now.saturating_duration_since(entry.1);
            assert(self@.take(i + 1).drop_last() =~= self@.take(i as int));
            if age.as_nanos() <= ttl {
                let ghost before = pairs@;
                pairs.push((entry.0, now_unix.saturating_sub(age.as_secs())));
                assert(pair_views(pairs@) =~= pair_views(before).push(
                    (entry.0@, pairs@.last().1),
                ));
            }
            i = i + 1;
        }
        assert(self@.take(i as int) =~= self@);
        pairs
    }

    /// The live entries in one buffer: `magic`, then for each entry, oldest
    /// first, its key and its second as eight big-endian bytes. `record` is
    /// the expected size of one entry; it only decides how much memory is set
    /// aside at first.
    pub fn encode_into(&self, now: Instant, now_unix: u64, magic: &[u8], record: usize) -> (buf:
        Vec<u8>)
        ensures
            buf@ == magic@ + encode_records(
                snapshot(self@, instant_nanos(now), now_unix, self.ttl_nanos()),
            ),
    {
        let mut buf: Vec<u8> = Vec::new();
        if let Some(body) = self.queue.len().checked_mul(record) {
            if let Some(total) = body.checked_add(magic.len()) {
                buf = Vec::with_capacity(total);
            }
        }
        buf.extend_from_slice(magic);
        let ttl: u128 = self.ttl.as_nanos();
        let ghost at = instant_nanos(now);
        assert(buf@ =~= magic@ + encode_records(
            snapshot(self@.take(0), at, now_unix, ttl as nat),
        ));
        let mut i: usize = 0;
        while i < self.queue.len()
            invariant
                i <= self.queue@.len(),
                at == instant_nanos(now),
                ttl == self.ttl_nanos(),
                buf@ == magic@ + encode_records(
                    snapshot(self@.take(i as int), at, now_unix, ttl as nat),
                ),
            decreases self.queue@.len() - i,
        {
            let entry: ([u8; 16], Instant) = self.queue[i];
            let age: Duration = now.saturating_duration_since(entry.1);
            let ghost front = snapshot(self@.take(i as int), at, now_unix, ttl as nat);
            assert(self@.take(i + 1).drop_last() =~= self@.take(i as int));
            if age.as_nanos() <= ttl {
                let second: u64 = now_unix.saturating_sub(age.as_secs());
                buf.extend_from_slice(entry.0.as_slice());
                be_append(&mut buf, second as u128, 8);
                assert(front.push((entry.0@, second)).drop_last() =~= front);
                assert(buf@ =~= magic@ + encode_records(front.push((entry.0@, second))));
            }
            i = i + 1;
        }
        assert(self@.take(i as int) =~= self@);
        buf
    }

    /// Takes over entries that another cache saw, each stamped with the
    /// instant at which it was seen. Returns how many.
    ///
    /// Where they do not all fit, the newest are kept: a replayed packet is
    /// one captured moments ago. An entry that occurs twice, or that the cache
    /// holds already, takes up no room. All entries stand in the order of time
    /// afterwards, so that the oldest is the first to go.
    pub fn adopt(&mut self, stamped: &Vec<([u8; 16], Instant)>) -> (count: usize)
        requires
            old(self).wf(),
        ensures
            final(self).wf(),
            final(self).ttl_nanos() == old(self).ttl_nanos(),
            final(self).capacity() == old(self).capacity(),
            final(self)@ == reloaded(
                old(self)@,
                stamp_views(stamped@),
                old(self).capacity(),
            ),
            count == adopted(old(self)@, stamp_views(stamped@), old(self).capacity()).len(),
    {
        let ordered: Vec<([u8; 16], Instant)> = order_by_time(stamped);
        let fresh: Vec<([u8; 16], Instant)> = self.without_known(&ordered);
        let ghost before = self@;
        let ghost found = stamp_views(fresh@);
        let room: usize = self.max_size.saturating_sub(self.queue.len());
        let skip: usize = fresh.len().saturating_sub(room);
        proof {
            lemma_new_entries_are_new(stamp_views(ordered@), before);
            assert(found.skip(skip as int) =~= adopted(
                before,
                stamp_views(stamped@),
                self.capacity(),
            ));
        }
        let mut i: usize = skip;
        assert(found.subrange(skip as int, skip as int) =~= Seq::<(Seq<u8>, int)>::empty());
        while i < fresh.len()
            invariant
                skip <= i <= fresh@.len(),
                self.lookup_matches(),
                distinct_keys(self@),
                found == stamp_views(fresh@),
                distinct_keys(found),
                forall|j: int| 0 <= j < found.len() ==> !holds(before, (#[trigger] found[j]).0),
                self@ == before + found.subrange(skip as int, i as int),
                self.ttl == old(self).ttl,
                self.max_size == old(self).max_size,
            decreases fresh@.len() - i,
        {
            let entry: ([u8; 16], Instant) = fresh[i];
            proof {
                assert(found[i as int].0 == entry.0@);
                if holds(self@, entry.0@) {
                    let j = choose|j: int|
                        0 <= j < self@.len() && (#[trigger] self@[j]).0 == entry.0@;
                    if j < before.len() {
                        assert(before[j].0 == entry.0@);
                        assert(holds(before, found[i as int].0));
                    } else {
                        assert(self@[j] == found[skip + j - before.len()]);
                    }
                    assert(false);
                }
            }
            self.append(entry.0, entry.1);
            i = i + 1;
            assert(self@ =~= before + found.subrange(skip as int, i as int));
        }
        assert(found.subrange(skip as int, i as int) =~= found.skip(skip as int));
        self.order_queue();
        proof {
            laws::lemma_by_time(before + found.skip(skip as int));
        }
        fresh.len() - skip
    }

    /// Puts the entries in the order of time.
    fn order_queue(&mut self)
        requires
            old(self).lookup_matches(),
            distinct_keys(old(self)@),
        ensures
            final(self)@ == by_time(old(self)@),
            final(self).lookup_matches(),
            distinct_keys(final(self)@),
            final(self).ttl == old(self).ttl,
            final(self).max_size == old(self).max_size,
    {
        let ghost before = self@;
        let mut all: Vec<([u8; 16], Instant)> = Vec::with_capacity(self.queue.len());
        let mut i: usize = 0;
        while i < self.queue.len()
            invariant
                i <= self.queue@.len(),
                all@ == self.queue@.take(i as int),
            decreases self.queue@.len() - i,
        {
            all.push(self.queue[i]);
            i = i + 1;
            assert(self.queue@.take(i as int) =~= self.queue@.take(i - 1).push(self.queue@[i - 1]));
        }
        assert(all@ =~= self.queue@);
        let ordered: Vec<([u8; 16], Instant)> = order_by_time(&all);
        let mut queue: VecDeque<([u8; 16], Instant)> = VecDeque::with_capacity(ordered.len());
        let mut j: usize = 0;
        while j < ordered.len()
            invariant
                j <= ordered@.len(),
                queue@ == ordered@.take(j as int),
            decreases ordered@.len() - j,
        {
            queue.push_back(ordered[j]);
            j = j + 1;
            assert(ordered@.take(j as int) =~= ordered@.take(j - 1).push(ordered@[j - 1]));
        }
        assert(queue@ =~= ordered@);
        self.queue = queue;
        proof {
            laws::lemma_by_time(before);
            laws::lemma_by_time_keeps_keys(before);
            let after = self@;
            assert forall|k: u128| #[trigger] self.map@.contains_key(k) <==> exists|i: int|
                0 <= i < after.len() && be_value((#[trigger] after[i]).0) == k by {
                if exists|i: int|
                    0 <= i < before.len() && be_value((#[trigger] before[i]).0) == k {
                    let i = choose|i: int|
                        0 <= i < before.len() && be_value((#[trigger] before[i]).0) == k;
                    assert(before.contains(before[i]));
                    assert(by_time(before).contains(before[i]));
                    let n = choose|n: int| 0 <= n < after.len() && after[n] == before[i];
                    assert(be_value(after[n].0) == k);
                }
                if exists|i: int|
                    0 <= i < after.len() && be_value((#[trigger] after[i]).0) == k {
                    let i = choose|i: int|
                        0 <= i < after.len() && be_value((#[trigger] after[i]).0) == k;
                    assert(by_time(before).contains(after[i]));
                    let n = choose|n: int| 0 <= n < before.len() && before[n] == after[i];
                    assert(be_value(before[n].0) == k);
                }
            }
        }
    }

    /// Those of `offered` whose keys the cache does not hold, each key once.
    fn without_known(&self, offered: &Vec<([u8; 16], Instant)>) -> (fresh: Vec<
        ([u8; 16], Instant),
    >)
        requires
            self.wf(),
        ensures
            stamp_views(fresh@) == new_entries(stamp_views(offered@), self@),
    {
        broadcast use vstd::std_specs::hash::group_hash_axioms;

        let mut fresh: Vec<([u8; 16], Instant)> = Vec::new();
        let mut seen: HashSet<u128> = HashSet::new();
        let ghost all = stamp_views(offered@);
        let mut i: usize = 0;
        assert(stamp_views(fresh@) =~= new_entries(all.take(0), self@));
        while i < offered.len()
            invariant
                i <= offered@.len(),
                self.wf(),
                all == stamp_views(offered@),
                stamp_views(fresh@) == new_entries(all.take(i as int), self@),
                forall|k: u128| #[trigger]
                    seen@.contains(k) <==> exists|j: int|
                        0 <= j < fresh@.len() && be_value((#[trigger] fresh@[j]).0@) == k,
            decreases offered@.len() - i,
        {
            broadcast use vstd::std_specs::hash::group_hash_axioms;

            let entry: ([u8; 16], Instant) = offered[i];
            let n: u128 = be_read(entry.0.as_slice());
            let ghost front = stamp_views(fresh@);
            let ghost kept = fresh@;
            assert(all.take(i + 1).drop_last() =~= all.take(i as int));
            assert(all.take(i + 1).last() == (entry.0@, instant_nanos(entry.1)));
            let known: bool = self.contains(&entry.0);
            let again: bool = seen.contains(&n);
            proof {
                if again {
                    let j = choose|j: int|
                        0 <= j < fresh@.len() && be_value((#[trigger] fresh@[j]).0@) == n;
                    lemma_be_value_injective(fresh@[j].0@, entry.0@);
                    assert(front[j].0 == entry.0@);
                }
                if holds(front, entry.0@) {
                    let j = choose|j: int| 0 <= j < front.len() && (#[trigger] front[j]).0 == entry.0@;
                    assert(be_value(fresh@[j].0@) == n);
                }
            }
            if !known && !again {
                seen.insert(n);
                fresh.push(entry);
                assert(stamp_views(fresh@) =~= front.push((entry.0@, instant_nanos(entry.1))));
                assert forall|k: u128| #[trigger] seen@.contains(k) <==> exists|j: int|
                    0 <= j < fresh@.len() && be_value((#[trigger] fresh@[j]).0@) == k by {
                    if k == n {
                        assert(be_value(fresh@[kept.len() as int].0@) == k);
                    }
                    if exists|j: int|
                        0 <= j < kept.len() && be_value((#[trigger] kept[j]).0@) == k {
                        let j = choose|j: int|
                            0 <= j < kept.len() && be_value((#[trigger] kept[j]).0@) == k;
                        assert(fresh@[j] == kept[j]);
                    }
                    if exists|j: int|
                        0 <= j < fresh@.len() && be_value((#[trigger] fresh@[j]).0@) == k {
                        let j = choose|j: int|
                            0 <= j < fresh@.len() && be_value((#[trigger] fresh@[j]).0@) == k;
                        if j < kept.len() {
                            assert(be_value(kept[j].0@) == k);
                        }
                    }
                }
            }
            i = i + 1;
        }
        assert(all.take(i as int) =~= all);
        fresh
    }

    /// Reloads the pairs of a snapshot, dropping those that are older than the
    /// time to live at `now_unix`. Returns how many were taken over.
    ///
    /// A pair that lies in the future, because the wall clock has gone back
    /// since, counts as seen now: it is remembered too long rather than too
    /// briefly.
    pub fn restore_at(&mut self, entries: &[([u8; 16], u64)], now: Instant, now_unix: u64) -> (count:
        usize)
        requires
            old(self).wf(),
        ensures
            final(self).wf(),
            final(self).ttl_nanos() == old(self).ttl_nanos(),
            final(self).capacity() == old(self).capacity(),
            exists|stamped: Seq<(Seq<u8>, int)>|
                {
                    &&& #[trigger] stamps(
                        live_records(pair_views(entries@), now_unix, old(self).ttl_nanos()),
                        now,
                        now_unix,
                        stamped,
                    )
                    &&& final(self)@ == reloaded(old(self)@, stamped, old(self).capacity())
                    &&& count == adopted(old(self)@, stamped, old(self).capacity()).len()
                },
    {
        let mut stamped: Vec<([u8; 16], Instant)> = Vec::new();
        let ttl: u128 = self.ttl.as_nanos();
        let ghost records = pair_views(entries@);
        let mut i: usize = 0;
        while i < entries.len()
            invariant
                i <= entries@.len(),
                ttl == self.ttl_nanos(),
                records == pair_views(entries@),
                stamps(
                    live_records(records.take(i as int), now_unix, ttl as nat),
                    now,
                    now_unix,
                    stamp_views(stamped@),
                ),
            decreases entries@.len() - i,
        {
            let pair: ([u8; 16], u64) = entries[i];
            let age: Duration = Duration::from_secs(now_unix.saturating_sub(pair.1));
            let ghost before = stamp_views(stamped@);
            let ghost front = live_records(records.take(i as int), now_unix, ttl as nat);
            assert(records.take(i + 1).drop_last() =~= records.take(i as int));
            assert(records.take(i + 1).last() == (pair.0@, pair.1));
            if age.as_nanos() <= ttl {
                let seen: Instant = go_back(now, age);
                stamped.push((pair.0, seen));
                assert(stamp_views(stamped@) =~= before.push((pair.0@, instant_nanos(seen))));
            }
            i = i + 1;
        }
        assert(records.take(i as int) =~= records);
        self.adopt(&stamped)
    }

    /// How many entries the cache holds.
    pub fn len(&self) -> (n: usize)
        requires
            self.wf(),
        ensures
            n == self@.len(),
    {
        self.map.len()
    }

    /// Whether the cache holds no entries.
    pub fn is_empty(&self) -> (empty: bool)
        requires
            self.wf(),
        ensures
            empty == (self@.len() == 0),
    {
        self.map.len() == 0
    }
}

} // verus!
