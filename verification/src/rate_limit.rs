//! Inbound rate limiting for a volunteer-operated relay.
//!
//! Two independent guards protect the operator's machine and connection:
//!
//! 1. packets per second, by a token bucket: a smooth rate with a bounded
//!    burst. It caps what a flood can cost. Zero disables it.
//! 2. a daily quota of wire bytes, over a rolling window of 24 hours. It
//!    protects metered connections. Zero disables it.
//!
//! [`RateLimiter`] is one allowance for the whole node. [`PerSourceLimiter`]
//! keeps one per source beside it, so that a flood sheds only the flooder.
//!
//! Rates are whole numbers of millionths of a packet per second, and the
//! bucket counts in units of which [`TOKEN`] make one packet, so that a
//! nanosecond of refill is a whole number of units.

use crate::addr::IpAddr;
use crate::clock::{elapsed, instant_nanos, is_now, now_instant};
use std::collections::{HashMap, VecDeque};
use std::time::Instant;
use vstd::prelude::*;

pub mod laws;

verus! {

/// Wire bytes per packet: the packet itself and the 16-byte tag of the link.
pub const WIRE_BYTES_PER_PACKET: u64 = 2064;

/// Length of the quota window: 24 hours, in nanoseconds.
pub const QUOTA_WINDOW_NANOS: u128 = 86_400_000_000_000;

/// A rate of one packet per second, in millionths.
pub const PACKET_PER_SECOND: u64 = 1_000_000;

/// What one packet takes from the bucket: a second's worth of nanoseconds at a
/// rate of one packet per second.
pub const TOKEN: u128 = 1_000_000_000_000_000;

/// How many nanoseconds of refill fill an empty bucket.
pub const BURST_NANOS: u128 = 2_000_000_000;

/// Why a packet was throttled.
#[derive(Debug, Copy, Clone, PartialEq, Eq, Structural)]
pub enum ThrottleReason {
    /// The bucket is empty: the packet rate is exceeded.
    Rate,
    /// The wire-byte budget of the window is used up.
    DailyQuota,
}

/// Result of a rate-limit check.
#[derive(Debug, Copy, Clone, PartialEq, Eq, Structural)]
pub enum RateDecision {
    /// The packet is within limits and has been accounted.
    Allow,
    /// The packet must be dropped; nothing was accounted.
    Throttled(ThrottleReason),
}

impl RateDecision {
    /// Whether the packet is allowed.
    pub fn is_allowed(&self) -> (allowed: bool)
        ensures
            allowed == (*self == RateDecision::Allow),
    {
        match self {
            RateDecision::Allow => true,
            RateDecision::Throttled(_) => false,
        }
    }
}

/// What a limiter has left to give.
pub ghost struct Allowance {
    /// Refill rate in millionths of a packet per second; zero for no limit.
    pub rate: nat,
    /// What the bucket held at `refilled`.
    pub tokens: nat,
    /// When the bucket was last refilled.
    pub refilled: int,
    /// Wire bytes allowed per window; zero for no limit.
    pub budget: nat,
    /// When each packet passed that the quota still counts, oldest first.
    pub passed: Seq<int>,
}

/// What a full bucket holds: two seconds' worth.
pub open spec fn burst(rate: nat) -> nat {
    rate * BURST_NANOS as nat
}

/// An allowance with nothing spent, made at `now`.
pub open spec fn full_allowance(rate: nat, budget: nat, now: int) -> Allowance {
    Allowance { rate, tokens: burst(rate), refilled: now, budget, passed: Seq::empty() }
}

/// What the bucket holds at `now`.
pub open spec fn tokens_at(a: Allowance, now: int) -> nat {
    let gained = a.tokens + elapsed(now, a.refilled) * a.rate;
    if gained <= burst(a.rate) {
        gained
    } else {
        burst(a.rate)
    }
}

/// Whether a packet that passed at `at` has left the window that ends at `now`.
pub open spec fn left_window(at: int, now: int) -> bool {
    elapsed(now, at) >= QUOTA_WINDOW_NANOS
}

/// `passed` without those at its front that have left the window.
pub open spec fn recent(passed: Seq<int>, now: int) -> Seq<int>
    decreases passed.len(),
{
    if passed.len() > 0 && left_window(passed[0], now) {
        recent(passed.drop_first(), now)
    } else {
        passed
    }
}

/// The wire bytes of that many packets.
pub open spec fn wire_bytes(packets: nat) -> nat {
    packets * WIRE_BYTES_PER_PACKET as nat
}

/// Whether one packet may pass at `now`.
pub open spec fn decide(a: Allowance, now: int) -> RateDecision {
    if a.budget > 0 && wire_bytes(recent(a.passed, now).len() + 1) > a.budget {
        RateDecision::Throttled(ThrottleReason::DailyQuota)
    } else if a.rate > 0 && tokens_at(a, now) < TOKEN {
        RateDecision::Throttled(ThrottleReason::Rate)
    } else {
        RateDecision::Allow
    }
}

/// What is left after one packet asked to pass at `now`: a throttled packet
/// takes nothing and changes nothing.
pub open spec fn account(a: Allowance, now: int) -> Allowance {
    if decide(a, now) == RateDecision::Allow {
        Allowance {
            rate: a.rate,
            tokens: if a.rate > 0 {
                (tokens_at(a, now) - TOKEN) as nat
            } else {
                a.tokens
            },
            refilled: if a.rate > 0 {
                now
            } else {
                a.refilled
            },
            budget: a.budget,
            passed: if a.budget > 0 {
                recent(a.passed, now).push(now)
            } else {
                a.passed
            },
        }
    } else {
        a
    }
}

/// Where each of some instants lies.
pub open spec fn instants(times: Seq<Instant>) -> Seq<int> {
    times.map_values(|t: Instant| instant_nanos(t))
}

/// Token bucket for packets per second, and a daily quota of wire bytes.
///
/// The quota keeps the time of every packet of the last 24 hours, so no more
/// of them than the budget pays for.
#[derive(Debug)]
pub struct RateLimiter {
    rate: u64,
    tokens: u128,
    last_refill: Instant,
    max_bytes_per_day: u64,
    passed: VecDeque<Instant>,
}

impl View for RateLimiter {
    type V = Allowance;

    closed spec fn view(&self) -> Allowance {
        Allowance {
            rate: self.rate as nat,
            tokens: self.tokens as nat,
            refilled: instant_nanos(self.last_refill),
            budget: self.max_bytes_per_day as nat,
            passed: instants(self.passed@),
        }
    }
}

impl RateLimiter {
    /// The bucket holds no more than a full one, and the bytes used are within
    /// the budget.
    pub open spec fn wf(self) -> bool {
        sound(self@)
    }

    /// A limiter that never throttles.
    pub fn unlimited() -> (limiter: RateLimiter)
        ensures
            limiter.wf(),
            exists|now: int| is_now(now) && limiter@ == #[trigger] full_allowance(0, 0, now),
    {
        RateLimiter::new(0, 0)
    }

    /// A limiter with a full bucket and an unused quota, now.
    ///
    /// `rate` is the sustained rate in millionths of a packet per second; the
    /// bucket holds two seconds' worth, so that short spikes are absorbed.
    /// `max_bytes_per_day` is the quota. Zero disables either.
    pub fn new(rate: u64, max_bytes_per_day: u64) -> (limiter: RateLimiter)
        ensures
            limiter.wf(),
            exists|now: int|
                is_now(now) && limiter@ == #[trigger] full_allowance(
                    rate as nat,
                    max_bytes_per_day as nat,
                    now,
                ),
    {
        RateLimiter::new_at(rate, max_bytes_per_day, now_instant())
    }

    /// A limiter with a full bucket and an unused quota, as of `now`.
    pub fn new_at(rate: u64, max_bytes_per_day: u64, now: Instant) -> (limiter: RateLimiter)
        ensures
            limiter.wf(),
            limiter@ == full_allowance(
                rate as nat,
                max_bytes_per_day as nat,
                instant_nanos(now),
            ),
    {
        let limiter = RateLimiter {
            rate,
            tokens: rate as u128 * BURST_NANOS,
            last_refill: now,
            max_bytes_per_day,
            passed: VecDeque::new(),
        };
        assert(limiter@.passed =~= Seq::<int>::empty());
        limiter
    }

    /// Whether neither guard is active, so that nothing is ever throttled.
    pub fn is_unlimited(&self) -> (r: bool)
        ensures
            r == (self@.rate == 0 && self@.budget == 0),
    {
        self.rate == 0 && self.max_bytes_per_day == 0
    }

    /// Wire bytes used in the window that ends at the packet let through last.
    pub fn bytes_used_today(&self) -> (n: u64)
        requires
            self.wf(),
        ensures
            n == wire_bytes(self@.passed.len()),
    {
        self.passed.len() as u64 * WIRE_BYTES_PER_PACKET
    }

    /// Whether the oldest packet that the quota counts has left the window
    /// that ends at `now`.
    fn oldest_left(&self, now: Instant) -> (r: bool)
        ensures
            r == (self@.passed.len() > 0 && left_window(self@.passed[0], instant_nanos(now))),
    {
        if self.passed.len() == 0 {
            return false;
        }
        now.saturating_duration_since(self.passed[0]).as_nanos() >= QUOTA_WINDOW_NANOS
    }

    /// Stops counting the packets that have left the window.
    fn forget_old(&mut self, now: Instant)
        ensures
            final(self)@ == (Allowance {
                passed: recent(old(self)@.passed, instant_nanos(now)),
                ..old(self)@
            }),
            final(self).rate == old(self).rate,
            final(self).max_bytes_per_day == old(self).max_bytes_per_day,
    {
        let ghost at = instant_nanos(now);
        let ghost a = self@;
        while self.oldest_left(now)
            invariant
                at == instant_nanos(now),
                a == old(self)@,
                self@ == (Allowance { passed: self@.passed, ..a }),
                self.rate == old(self).rate,
                self.max_bytes_per_day == old(self).max_bytes_per_day,
                recent(self@.passed, at) == recent(a.passed, at),
            decreases self.passed@.len(),
        {
            let ghost before = self@.passed;
            let oldest = self.passed.pop_front();
            assert(self@.passed =~= before.drop_first());
        }
    }

    /// Accounts one packet, now.
    pub fn check(&mut self, packet_len: usize) -> (r: RateDecision)
        requires
            old(self).wf(),
        ensures
            final(self).wf(),
            exists|now: int|
                {
                    &&& is_now(now)
                    &&& r == #[trigger] decide(old(self)@, now)
                    &&& final(self)@ == account(old(self)@, now)
                },
    {
        self.check_at(packet_len, now_instant())
    }

    /// Accounts one packet at `now`.
    ///
    /// The cost is that of a whole packet on the wire whatever `packet_len`
    /// says, so that a short frame does not understate it. A throttled packet
    /// takes neither a token nor quota, and refills nothing.
    pub fn check_at(&mut self, packet_len: usize, now: Instant) -> (r: RateDecision)
        requires
            old(self).wf(),
        ensures
            final(self).wf(),
            r == decide(old(self)@, instant_nanos(now)),
            final(self)@ == account(old(self)@, instant_nanos(now)),
    {
        let ghost a = self@;
        let ghost at = instant_nanos(now);

        proof {
            lemma_recent(a.passed, at);
        }
        if self.max_bytes_per_day > 0 {
            let with_this: u128 = (self.passed.len() as u128 + 1) * WIRE_BYTES_PER_PACKET as u128;
            if with_this > self.max_bytes_per_day as u128 && !self.oldest_left(now) {
                return RateDecision::Throttled(ThrottleReason::DailyQuota);
            }
        }
        let mut tokens: u128 = self.tokens;
        if self.rate > 0 {
            let waited: u128 = now.saturating_duration_since(self.last_refill).as_nanos();
            tokens = refill(self.tokens, self.rate, waited);
            if tokens < TOKEN {
                return RateDecision::Throttled(ThrottleReason::Rate);
            }
        }
        if self.rate > 0 {
            self.tokens = tokens - TOKEN;
            self.last_refill = now;
        }
        if self.max_bytes_per_day > 0 {
            self.forget_old(now);
            let ghost kept = self@.passed;
            self.passed.push_back(now);
            assert(self@.passed =~= kept.push(at));
        }
        assert(self@ == account(a, at));
        RateDecision::Allow
    }
}

/// A bucket that held `tokens`, after `waited` nanoseconds of refill.
fn refill(tokens: u128, rate: u64, waited: u128) -> (filled: u128)
    requires
        tokens <= burst(rate as nat),
    ensures
        filled == if tokens + waited * rate <= burst(rate as nat) {
            tokens + waited * rate
        } else {
            burst(rate as nat) as int
        },
{
    let full: u128 = rate as u128 * BURST_NANOS;
    if waited >= BURST_NANOS {
        assert(waited * rate >= BURST_NANOS * rate) by (nonlinear_arith)
            requires
                waited >= BURST_NANOS,
        ;
        return full;
    }
    assert(waited * rate <= BURST_NANOS * rate) by (nonlinear_arith)
        requires
            waited < BURST_NANOS,
    ;
    let gained: u128 = tokens + waited * rate as u128;
    if gained <= full {
        gained
    } else {
        full
    }
}

/// What has left the window is gone, from the front.
pub proof fn lemma_recent(passed: Seq<int>, now: int)
    ensures
        recent(passed, now).len() <= passed.len(),
        recent(passed, now) == passed.skip(passed.len() - recent(passed, now).len()),
        passed.len() > 0 && left_window(passed[0], now) ==> recent(passed, now).len()
            < passed.len(),
        forall|i: int|
            0 <= i < passed.len() - recent(passed, now).len() ==> left_window(
                #[trigger] passed[i],
                now,
            ),
    decreases passed.len(),
{
    let kept = recent(passed, now);
    if passed.len() > 0 && left_window(passed[0], now) {
        let rest = passed.drop_first();
        lemma_recent(rest, now);
        assert(passed.skip(passed.len() - kept.len()) =~= rest.skip(rest.len() - kept.len()));
        assert forall|i: int| 0 <= i < passed.len() - kept.len() implies left_window(
            #[trigger] passed[i],
            now,
        ) by {
            if i > 0 {
                assert(rest[i - 1] == passed[i]);
            }
        }
    } else {
        assert(passed.skip(0) =~= passed);
    }
}

/// No more in the bucket than it can hold, and no more used than the budget.
pub open spec fn sound(a: Allowance) -> bool {
    &&& a.rate <= u64::MAX
    &&& a.budget <= u64::MAX
    &&& a.tokens <= burst(a.rate)
    &&& wire_bytes(a.passed.len()) <= a.budget
}

/// One allowance per source, each with the instant it was last used.
pub type Sources = Map<IpAddr, (Allowance, int)>;

/// Whether `victim` is a source that has been idle longest; where several have
/// been idle equally long, each is one.
pub open spec fn longest_idle(sources: Sources, victim: IpAddr) -> bool {
    &&& sources.contains_key(victim)
    &&& forall|other: IpAddr| #[trigger]
        sources.contains_key(other) ==> sources[victim].1 <= sources[other].1
}

/// Whether `room` is what is left of `sources` when `src` is about to be
/// tracked: everything, unless `src` is new and the table is full, in which
/// case a source that has been idle longest is forgotten.
pub open spec fn make_room(
    sources: Sources,
    src: IpAddr,
    max_entries: nat,
    room: Sources,
) -> bool {
    if !sources.contains_key(src) && sources.len() >= max_entries {
        exists|victim: IpAddr| #[trigger]
            longest_idle(sources, victim) && room == sources.remove(victim)
    } else {
        room == sources
    }
}

/// The allowance of `src`: its own, or a full one for a source not tracked.
pub open spec fn allowance_of(
    sources: Sources,
    src: IpAddr,
    rate: nat,
    budget: nat,
    now: int,
) -> Allowance {
    if sources.contains_key(src) {
        sources[src].0
    } else {
        full_allowance(rate, budget, now)
    }
}

/// A limiter and the instant it was last used.
#[derive(Debug)]
pub struct Bucket {
    limiter: RateLimiter,
    seen: Instant,
}

impl View for Bucket {
    type V = (Allowance, int);

    closed spec fn view(&self) -> (Allowance, int) {
        (self.limiter@, instant_nanos(self.seen))
    }
}

/// Token buckets per source, in a table of bounded size.
///
/// A flood that empties one shared bucket sheds the packets of everyone else
/// and leaves the flooder's own alone in the mix. With one bucket per source a
/// flood sheds only the flooder. A source that is forgotten to make room has
/// been quiet, and forgetting it forgives only its own past use.
pub struct PerSourceLimiter {
    v4: HashMap<u32, Bucket>,
    v6: HashMap<u128, Bucket>,
    max_entries: usize,
    rate: u64,
    max_bytes_per_day: u64,
}

impl View for PerSourceLimiter {
    type V = Sources;

    /// The tracked sources.
    closed spec fn view(&self) -> Sources {
        Map::new(
            |ip: IpAddr|
                match ip {
                    IpAddr::V4(n) => self.v4@.contains_key(n),
                    IpAddr::V6(n) => self.v6@.contains_key(n),
                },
            |ip: IpAddr|
                match ip {
                    IpAddr::V4(n) => self.v4@[n]@,
                    IpAddr::V6(n) => self.v6@[n]@,
                },
        )
    }
}

/// The sources of a pair of tables are as many as the tables have entries.
proof fn lemma_source_count(v4: Set<u32>, v6: Set<u128>, all: Set<IpAddr>)
    requires
        v4.finite(),
        v6.finite(),
        forall|ip: IpAddr| #[trigger]
            all.contains(ip) <==> match ip {
                IpAddr::V4(n) => v4.contains(n),
                IpAddr::V6(n) => v6.contains(n),
            },
    ensures
        all.finite(),
        all.len() == v4.len() + v6.len(),
{
    let f4 = |n: u32| IpAddr::V4(n);
    let f6 = |n: u128| IpAddr::V6(n);
    let a = v4.map(f4);
    let b = v6.map(f6);
    assert forall|ip: IpAddr| #[trigger] all.contains(ip) <==> a.union(b).contains(ip) by {
        match ip {
            IpAddr::V4(n) => {
                if v4.contains(n) {
                    assert(a.contains(f4(n)));
                }
            },
            IpAddr::V6(n) => {
                if v6.contains(n) {
                    assert(b.contains(f6(n)));
                }
            },
        }
    }
    assert(all =~= a.union(b));
    assert(vstd::relations::injective(f4));
    assert(vstd::relations::injective(f6));
    vstd::set_lib::lemma_map_size(v4, a, f4);
    vstd::set_lib::lemma_map_size(v6, b, f6);
    assert(a.disjoint(b));
    vstd::set_lib::lemma_set_disjoint_lens(a, b);
}

/// A key of a table with an entry idle at least as long as every other, and
/// when that was last used. `None` for an empty table.
fn idlest<K: Copy>(table: &HashMap<K, Bucket>) -> (r: Option<(K, Instant)>)
    requires
        vstd::std_specs::hash::obeys_key_model::<K>(),
    ensures
        match r {
            None => forall|k: K| !(#[trigger] table@.contains_key(k)),
            Some((key, seen)) => {
                &&& table@.contains_key(key)
                &&& table@[key]@.1 == instant_nanos(seen)
                &&& forall|k: K| #[trigger]
                    table@.contains_key(k) ==> instant_nanos(seen) <= table@[k]@.1
            },
        },
{
    broadcast use vstd::std_specs::hash::group_hash_axioms;

    let mut best: Option<(K, Instant)> = None;
    for entry in it: table.iter()
        invariant
            vstd::std_specs::hash::obeys_key_model::<K>(),
            match best {
                None => it.index() == 0,
                Some((key, seen)) => {
                    &&& table@.contains_key(key)
                    &&& table@[key]@.1 == instant_nanos(seen)
                    &&& forall|j: int|
                        0 <= j < it.index() ==> instant_nanos(seen)
                            <= (#[trigger] it.seq()[j]).1@.1
                },
            },
    {
        broadcast use vstd::std_specs::hash::group_hash_axioms;

        let seen: Instant = entry.1.seen;
        let better: bool = match best {
            None => true,
            Some((_key, least)) => least.saturating_duration_since(seen).as_nanos() > 0,
        };
        if better {
            best = Some((*entry.0, seen));
        }
    }
    best
}

impl PerSourceLimiter {
    /// The rate of each source, in millionths of a packet per second.
    pub closed spec fn source_rate(self) -> nat {
        self.rate as nat
    }

    /// The quota of each source, in wire bytes.
    pub closed spec fn source_budget(self) -> nat {
        self.max_bytes_per_day as nat
    }

    /// How many sources are tracked at most.
    pub closed spec fn capacity(self) -> nat {
        self.max_entries as nat
    }

    /// The table keeps its bound and every allowance in it is sound.
    pub open spec fn wf(self) -> bool {
        &&& self@.dom().finite()
        &&& 1 <= self.capacity()
        &&& self@.len() <= self.capacity()
        &&& forall|ip: IpAddr| #[trigger] self@.contains_key(ip) ==> sound(self@[ip].0)
    }

    /// A limiter with nobody tracked: `rate` and `max_bytes_per_day` per
    /// source, and at most `max_entries` sources at once, but at least one.
    pub fn new(rate: u64, max_bytes_per_day: u64, max_entries: usize) -> (limiter: PerSourceLimiter)
        ensures
            limiter.wf(),
            limiter@ == Map::<IpAddr, (Allowance, int)>::empty(),
            limiter.source_rate() == rate,
            limiter.source_budget() == max_bytes_per_day,
            limiter.capacity() == if max_entries == 0 {
                1
            } else {
                max_entries as nat
            },
    {
        let limiter = PerSourceLimiter {
            v4: HashMap::new(),
            v6: HashMap::new(),
            max_entries: if max_entries == 0 {
                1
            } else {
                max_entries
            },
            rate,
            max_bytes_per_day,
        };
        assert(limiter@ =~= Map::<IpAddr, (Allowance, int)>::empty());
        limiter
    }

    /// How many sources are tracked.
    pub fn tracked_sources(&self) -> (n: usize)
        requires
            self.wf(),
        ensures
            n == self@.len(),
    {
        broadcast use vstd::std_specs::hash::group_hash_axioms;

        proof {
            lemma_source_count(self.v4@.dom(), self.v6@.dom(), self@.dom());
        }
        self.v4.len() + self.v6.len()
    }

    /// Takes the bucket of a source out of the table.
    fn take(&mut self, src: IpAddr) -> (r: Option<Bucket>)
        ensures
            final(self)@ == old(self)@.remove(src),
            final(self).rate == old(self).rate,
            final(self).max_bytes_per_day == old(self).max_bytes_per_day,
            final(self).max_entries == old(self).max_entries,
            match r {
                Some(bucket) => old(self)@.contains_key(src) && bucket@ == old(self)@[src],
                None => !old(self)@.contains_key(src),
            },
    {
        broadcast use vstd::std_specs::hash::group_hash_axioms;

        let r = match src {
            IpAddr::V4(n) => self.v4.remove(&n),
            IpAddr::V6(n) => self.v6.remove(&n),
        };
        assert(self@ =~= old(self)@.remove(src));
        r
    }

    /// Puts the bucket of a source into the table.
    fn put(&mut self, src: IpAddr, bucket: Bucket)
        ensures
            final(self)@ == old(self)@.insert(src, bucket@),
            final(self).rate == old(self).rate,
            final(self).max_bytes_per_day == old(self).max_bytes_per_day,
            final(self).max_entries == old(self).max_entries,
    {
        broadcast use vstd::std_specs::hash::group_hash_axioms;

        match src {
            IpAddr::V4(n) => {
                self.v4.insert(n, bucket);
            },
            IpAddr::V6(n) => {
                self.v6.insert(n, bucket);
            },
        }
        assert(self@ =~= old(self)@.insert(src, bucket@));
    }

    /// A source that has been idle longest.
    fn find_idlest(&self) -> (r: Option<IpAddr>)
        ensures
            match r {
                Some(ip) => longest_idle(self@, ip),
                None => self@ == Map::<IpAddr, (Allowance, int)>::empty(),
            },
    {
        broadcast use vstd::std_specs::hash::group_hash_axioms;

        let v4: Option<(u32, Instant)> = idlest(&self.v4);
        let v6: Option<(u128, Instant)> = idlest(&self.v6);
        match (v4, v6) {
            (None, None) => {
                assert(self@ =~= Map::<IpAddr, (Allowance, int)>::empty());
                None
            },
            (Some((n, _seen)), None) => Some(IpAddr::V4(n)),
            (None, Some((n, _seen))) => Some(IpAddr::V6(n)),
            (Some((n4, seen4)), Some((n6, seen6))) => {
                if seen4.saturating_duration_since(seen6).as_nanos() > 0 {
                    Some(IpAddr::V6(n6))
                } else {
                    Some(IpAddr::V4(n4))
                }
            },
        }
    }

    /// Accounts one packet from `src`, now.
    pub fn check(&mut self, src: IpAddr, packet_len: usize) -> (r: RateDecision)
        requires
            old(self).wf(),
        ensures
            final(self).wf(),
            final(self).source_rate() == old(self).source_rate(),
            final(self).source_budget() == old(self).source_budget(),
            final(self).capacity() == old(self).capacity(),
            exists|now: int|
                is_now(now) && #[trigger] source_checked(
                    old(self)@,
                    src,
                    now,
                    old(self).source_rate(),
                    old(self).source_budget(),
                    old(self).capacity(),
                    r,
                    final(self)@,
                ),
    {
        self.check_at(src, packet_len, now_instant())
    }

    /// Accounts one packet from `src` at `now` against the allowance of `src`
    /// alone.
    ///
    /// Room is made before the source is tracked, so that the table stays at
    /// its bound even under a churn of sources that send one packet each.
    pub fn check_at(&mut self, src: IpAddr, packet_len: usize, now: Instant) -> (r: RateDecision)
        requires
            old(self).wf(),
        ensures
            final(self).wf(),
            final(self).source_rate() == old(self).source_rate(),
            final(self).source_budget() == old(self).source_budget(),
            final(self).capacity() == old(self).capacity(),
            source_checked(
                old(self)@,
                src,
                instant_nanos(now),
                old(self).source_rate(),
                old(self).source_budget(),
                old(self).capacity(),
                r,
                final(self)@,
            ),
    {
        let ghost before = self@;
        let count: usize = self.tracked_sources();
        let own = self.take(src);
        let ghost without = self@;
        let ghost mut left = before;
        if own.is_none() && count >= self.max_entries {
            assert(without =~= before);
            let idle = self.find_idlest();
            if let Some(victim) = idle {
                let forgotten = self.take(victim);
                proof {
                    left = before.remove(victim);
                }
            }
            assert(idle is None ==> before.len() == 0);
        }
        assert(make_room(before, src, self.capacity(), left));
        let mut limiter = match own {
            Some(bucket) => bucket.limiter,
            None => RateLimiter::new_at(self.rate, self.max_bytes_per_day, now),
        };
        assert(limiter@ == allowance_of(
            left,
            src,
            self.source_rate(),
            self.source_budget(),
            instant_nanos(now),
        ));
        let r: RateDecision = limiter.check_at(packet_len, now);
        self.put(src, Bucket { limiter, seen: now });
        assert(self@ =~= left.insert(src, self@[src]));
        r
    }
}

/// Whether `r` and `after` are what a check of one packet from `src` at `now`
/// reports and leaves.
pub open spec fn source_checked(
    before: Sources,
    src: IpAddr,
    now: int,
    rate: nat,
    budget: nat,
    max_entries: nat,
    r: RateDecision,
    after: Sources,
) -> bool {
    exists|room: Sources|
        {
            let own = allowance_of(room, src, rate, budget, now);
            &&& #[trigger] make_room(before, src, max_entries, room)
            &&& r == decide(own, now)
            &&& after == room.insert(src, (account(own, now), now))
        }
}

} // verus!
