//! What the limiters promise over any run of checks.

use crate::addr::IpAddr;
use crate::clock::{elapsed, instant_nanos, is_now};
use crate::rate_limit::{account, allowance_of, burst, decide, full_allowance, left_window,
    lemma_recent, make_room, recent, sound, source_checked, tokens_at, wire_bytes, Allowance,
    PerSourceLimiter, RateDecision, RateLimiter, Sources, ThrottleReason, QUOTA_WINDOW_NANOS, TOKEN,
    WIRE_BYTES_PER_PACKET};
use std::time::Instant;
use vstd::prelude::*;

verus! {

/// What is left after a packet asked to pass at each of `times`.
pub open spec fn after_run(a: Allowance, times: Seq<int>) -> Allowance
    decreases times.len(),
{
    if times.len() == 0 {
        a
    } else {
        account(after_run(a, times.drop_last()), times.last())
    }
}

/// How many of the packets that asked to pass at `times` were allowed.
pub open spec fn allowed_in_run(a: Allowance, times: Seq<int>) -> nat
    decreases times.len(),
{
    if times.len() == 0 {
        0
    } else {
        allowed_in_run(a, times.drop_last()) + if decide(
            after_run(a, times.drop_last()),
            times.last(),
        ) == RateDecision::Allow {
            1nat
        } else {
            0nat
        }
    }
}

/// When each packet passed that the quota counted at the start of a run or let
/// through in it, oldest first.
pub open spec fn passed_in_run(a: Allowance, times: Seq<int>) -> Seq<int>
    decreases times.len(),
{
    if times.len() == 0 {
        a.passed
    } else {
        let front = passed_in_run(a, times.drop_last());
        if decide(after_run(a, times.drop_last()), times.last()) == RateDecision::Allow {
            front.push(times.last())
        } else {
            front
        }
    }
}

/// Whether `times` never go back.
pub open spec fn forward(times: Seq<int>) -> bool {
    forall|i: int, j: int| 0 <= i <= j < times.len() ==> #[trigger] times[i] <= #[trigger] times[j]
}

/// A throttled packet takes nothing and changes nothing.
pub proof fn throttled_packet_costs_nothing(a: Allowance, now: int)
    requires
        decide(a, now) != RateDecision::Allow,
    ensures
        account(a, now) == a,
{
}

/// A limiter with neither guard active allows every packet.
pub proof fn unlimited_never_throttles(a: Allowance, times: Seq<int>, now: int)
    requires
        a.rate == 0,
        a.budget == 0,
    ensures
        decide(after_run(a, times), now) == RateDecision::Allow,
{
    lemma_limits_stay(a, times);
}

/// A run changes neither the rate nor the budget.
proof fn lemma_limits_stay(a: Allowance, times: Seq<int>)
    ensures
        after_run(a, times).rate == a.rate,
        after_run(a, times).budget == a.budget,
    decreases times.len(),
{
    if times.len() > 0 {
        lemma_limits_stay(a, times.drop_last());
    }
}

/// Checks keep an allowance sound: the bucket never holds more than its burst
/// and the window never uses more than its budget.
pub proof fn runs_keep_allowances_sound(a: Allowance, times: Seq<int>)
    requires
        sound(a),
    ensures
        sound(after_run(a, times)),
    decreases times.len(),
{
    if times.len() > 0 {
        runs_keep_allowances_sound(a, times.drop_last());
    }
}

/// What a run took from the bucket, and what is left in it, was in a full
/// bucket at `from` or flowed in since.
proof fn lemma_tokens_conserved(a: Allowance, times: Seq<int>, from: int)
    requires
        a.rate > 0,
        sound(a),
        forward(times),
        times.len() > 0 ==> from <= times[0],
    ensures
        ({
            let b = after_run(a, times);
            let n = allowed_in_run(a, times);
            &&& n == 0 ==> b == a
            &&& n > 0 ==> {
                &&& from <= b.refilled <= times.last()
                &&& n * TOKEN + b.tokens <= burst(a.rate) + (b.refilled - from) * a.rate
            }
        }),
    decreases times.len(),
{
    if times.len() > 0 {
        let front = times.drop_last();
        assert forall|i: int, j: int| 0 <= i <= j < front.len() implies #[trigger] front[i]
            <= #[trigger] front[j] by {
            assert(front[i] == times[i] && front[j] == times[j]);
        }
        lemma_tokens_conserved(a, front, from);
        lemma_limits_stay(a, front);
        let mid = after_run(a, front);
        let now = times.last();
        assert(now == times[times.len() - 1]);
        assert(times[0] <= now);
        if front.len() > 0 {
            assert(front.last() == times[times.len() - 2]);
            assert(times[times.len() - 2] <= times[times.len() - 1]);
        }
        let n = allowed_in_run(a, front);
        assert((n + 1) * TOKEN == n * TOKEN + TOKEN) by (nonlinear_arith);
        if n == 0 {
            assert(0 <= (now - from) * a.rate) by (nonlinear_arith)
                requires
                    from <= now,
            ;
        } else {
            assert((mid.refilled - from) * a.rate + (now - mid.refilled) * a.rate == (now - from)
                * a.rate) by (nonlinear_arith);
            assert(elapsed(now, mid.refilled) == now - mid.refilled);
        }
    }
}

/// The rate holds over every stretch of time: of the packets that ask to pass
/// between `from` and `to`, at whatever state of the bucket, no more pass than
/// a full bucket holds and than flows in over the stretch.
pub proof fn rate_is_bounded(a: Allowance, times: Seq<int>, from: int, to: int)
    requires
        a.rate > 0,
        sound(a),
        from <= to,
        forward(times),
        times.len() > 0 ==> from <= times[0] && times.last() <= to,
    ensures
        allowed_in_run(a, times) * TOKEN <= burst(a.rate) + (to - from) * a.rate,
{
    lemma_tokens_conserved(a, times, from);
    let b = after_run(a, times);
    if allowed_in_run(a, times) == 0 {
        assert(0 <= (to - from) * a.rate) by (nonlinear_arith)
            requires
                from <= to,
        ;
    } else {
        assert((b.refilled - from) * a.rate <= (to - from) * a.rate) by (nonlinear_arith)
            requires
                b.refilled <= to,
        ;
    }
}

/// What the quota counts after a run is the end of all that passed, and all
/// before has left the window of the packet that passed last.
proof fn lemma_counted(a: Allowance, times: Seq<int>)
    requires
        a.budget > 0,
        sound(a),
        forward(a.passed + times),
    ensures
        ({
            let h = passed_in_run(a, times);
            let b = after_run(a, times);
            let k = h.len() - b.passed.len();
            &&& 0 <= k
            &&& b.passed == h.skip(k)
            &&& h.len() > 0 ==> h.last() <= (a.passed + times).last()
            &&& forall|i: int| 0 <= i < k ==> left_window(#[trigger] h[i], h.last())
            &&& forall|i: int, j: int|
                0 <= i <= j < h.len() && !left_window(h[i], h[j]) ==> wire_bytes(
                    (j - i + 1) as nat,
                ) <= a.budget
        }),
    decreases times.len(),
{
    let h = passed_in_run(a, times);
    if times.len() == 0 {
        assert(h.skip(0) =~= h);
        assert(a.passed + times =~= a.passed);
    } else {
        let prior = times.drop_last();
        let all = a.passed + times;
        let before = a.passed + prior;
        assert forall|i: int, j: int| 0 <= i <= j < before.len() implies #[trigger] before[i]
            <= #[trigger] before[j] by {
            assert(before[i] == all[i] && before[j] == all[j]);
        }
        lemma_counted(a, prior);
        lemma_limits_stay(a, prior);
        let g = passed_in_run(a, prior);
        let mid = after_run(a, prior);
        let now = times.last();
        assert(all.last() == now);
        if before.len() > 0 {
            assert(before.last() == all[all.len() - 2]);
            assert(all[all.len() - 2] <= all[all.len() - 1]);
        }
        if decide(mid, now) == RateDecision::Allow {
            lemma_recent(mid.passed, now);
            let b = after_run(a, times);
            let old = g.len() - mid.passed.len();
            let k = h.len() - b.passed.len();
            assert(b.passed =~= h.skip(k));
            assert forall|i: int| 0 <= i < k implies left_window(#[trigger] h[i], now) by {
                assert(h[i] == g[i]);
                if i >= old {
                    assert(mid.passed[i - old] == g[i]);
                }
            }
            assert forall|i: int, j: int|
                0 <= i <= j < h.len() && !left_window(h[i], h[j]) implies wire_bytes(
                (j - i + 1) as nat,
            ) <= a.budget by {
                if j < g.len() {
                    assert(h[i] == g[i] && h[j] == g[j]);
                } else {
                    assert(i >= k);
                    assert(wire_bytes((j - i + 1) as nat) <= wire_bytes(b.passed.len()))
                        by (nonlinear_arith)
                        requires
                            0 <= j - i + 1 <= b.passed.len(),
                    ;
                }
            }
        }
    }
}

/// The quota holds over every stretch of 24 hours: of all packets that passed,
/// those from any one to any other less than 24 hours later use no more wire
/// bytes than the budget.
pub proof fn quota_is_bounded(a: Allowance, times: Seq<int>, first: int, last: int)
    requires
        a.budget > 0,
        sound(a),
        forward(a.passed + times),
        0 <= first <= last < passed_in_run(a, times).len(),
        passed_in_run(a, times)[last] - passed_in_run(a, times)[first] < QUOTA_WINDOW_NANOS,
    ensures
        wire_bytes((last - first + 1) as nat) <= a.budget,
{
    lemma_counted(a, times);
    let h = passed_in_run(a, times);
    assert(!left_window(h[first], h[last]));
}

/// Quota comes back as packets leave the window: where the oldest that counts
/// has left, or none counts, a packet is allowed, and where all have left it
/// is the only one that counts.
pub proof fn quota_returns_as_packets_age(a: Allowance, now: int)
    requires
        sound(a),
        a.budget >= WIRE_BYTES_PER_PACKET,
        a.rate == 0,
        a.passed.len() > 0 ==> left_window(a.passed[0], now),
    ensures
        decide(a, now) == RateDecision::Allow,
        account(a, now).passed.last() == now,
        (forall|i: int| 0 <= i < a.passed.len() ==> left_window(#[trigger] a.passed[i], now))
            ==> account(a, now).passed == seq![now],
{
    lemma_recent(a.passed, now);
    let kept = recent(a.passed, now);
    if a.passed.len() > 0 {
        assert(wire_bytes(kept.len() + 1) <= wire_bytes(a.passed.len())) by (nonlinear_arith)
            requires
                kept.len() + 1 <= a.passed.len(),
        ;
    }
    if forall|i: int| 0 <= i < a.passed.len() ==> left_window(#[trigger] a.passed[i], now) {
        lemma_all_left(a.passed, now);
        assert(account(a, now).passed =~= seq![now]);
    }
}

/// Where all have left the window, none is left.
proof fn lemma_all_left(passed: Seq<int>, now: int)
    requires
        forall|i: int| 0 <= i < passed.len() ==> left_window(#[trigger] passed[i], now),
    ensures
        recent(passed, now).len() == 0,
    decreases passed.len(),
{
    if passed.len() > 0 {
        let rest = passed.drop_first();
        assert forall|i: int| 0 <= i < rest.len() implies left_window(#[trigger] rest[i], now) by {
            assert(rest[i] == passed[i + 1]);
        }
        lemma_all_left(rest, now);
    }
}

/// A bucket absorbs a spike: of packets that arrive at one instant, as many
/// pass as the bucket holds whole tokens, and no more.
pub proof fn burst_is_admitted(a: Allowance, now: int, n: nat)
    requires
        a.rate > 0,
        a.budget == 0,
        a.refilled == now,
        sound(a),
    ensures
        ({
            let times = Seq::new(n, |i: int| now);
            let whole = a.tokens / TOKEN as nat;
            &&& allowed_in_run(a, times) == if n <= whole {
                n
            } else {
                whole
            }
            &&& after_run(a, times).tokens == a.tokens - allowed_in_run(a, times) * TOKEN
            &&& after_run(a, times).refilled == now
        }),
    decreases n,
{
    let times = Seq::new(n, |i: int| now);
    let whole = a.tokens / TOKEN as nat;
    if n > 0 {
        let m = (n - 1) as nat;
        burst_is_admitted(a, now, m);
        let front = Seq::new(m, |i: int| now);
        assert(times.drop_last() =~= front);
        lemma_limits_stay(a, front);
        let mid = after_run(a, front);
        let k = allowed_in_run(a, front);
        assert(elapsed(now, mid.refilled) * mid.rate == 0) by (nonlinear_arith)
            requires
                elapsed(now, mid.refilled) == 0,
        ;
        assert(whole * TOKEN <= a.tokens < (whole + 1) * TOKEN) by {
            vstd::arithmetic::div_mod::lemma_fundamental_div_mod(a.tokens as int, TOKEN as int);
            vstd::arithmetic::div_mod::lemma_mod_bound(a.tokens as int, TOKEN as int);
        }
        if k < whole {
            assert((k + 1) * TOKEN <= whole * TOKEN) by (nonlinear_arith)
                requires
                    k < whole,
            ;
        }
        assert((k + 1) * TOKEN == k * TOKEN + TOKEN) by (nonlinear_arith);
    }
}

/// A source pays only for itself: a packet from one source leaves the
/// allowance of every other source that is still tracked as it was.
pub proof fn sources_are_isolated(
    before: Sources,
    src: IpAddr,
    other: IpAddr,
    now: int,
    rate: nat,
    budget: nat,
    max_entries: nat,
    r: RateDecision,
    after: Sources,
)
    requires
        source_checked(before, src, now, rate, budget, max_entries, r, after),
        other != src,
    ensures
        after.contains_key(other) ==> before.contains_key(other) && after[other]
            == before[other],
        before.contains_key(src) || before.len() < max_entries ==> (after.contains_key(other)
            <==> before.contains_key(other)),
{
}

/// A source that is not tracked starts with a full allowance, and a source
/// that is forgotten starts afresh when it comes back.
pub proof fn unknown_source_starts_full(
    before: Sources,
    src: IpAddr,
    now: int,
    rate: nat,
    budget: nat,
    max_entries: nat,
    r: RateDecision,
    after: Sources,
)
    requires
        source_checked(before, src, now, rate, budget, max_entries, r, after),
        !before.contains_key(src),
    ensures
        r == decide(full_allowance(rate, budget, now), now),
        after.contains_key(src),
        after[src] == (account(full_allowance(rate, budget, now), now), now),
{
    let room = choose|room: Sources|
        {
            let own = allowance_of(room, src, rate, budget, now);
            &&& #[trigger] make_room(before, src, max_entries, room)
            &&& r == decide(own, now)
            &&& after == room.insert(src, (account(own, now), now))
        };
    assert(!room.contains_key(src));
}

/// The table keeps its bound, and a source is forgotten only when the table
/// is full and it has been idle at least as long as every other.
pub proof fn source_table_is_bounded(
    before: Sources,
    src: IpAddr,
    now: int,
    rate: nat,
    budget: nat,
    max_entries: nat,
    r: RateDecision,
    after: Sources,
)
    requires
        source_checked(before, src, now, rate, budget, max_entries, r, after),
        before.dom().finite(),
        1 <= max_entries,
        before.len() <= max_entries,
    ensures
        after.dom().finite(),
        after.len() <= max_entries,
        forall|gone: IpAddr| #[trigger]
            before.contains_key(gone) && !after.contains_key(gone) ==> {
                &&& before.len() == max_entries
                &&& forall|other: IpAddr| #[trigger]
                    before.contains_key(other) ==> before[gone].1 <= before[other].1
            },
{
    let room = choose|room: Sources|
        {
            let own = allowance_of(room, src, rate, budget, now);
            &&& #[trigger] make_room(before, src, max_entries, room)
            &&& r == decide(own, now)
            &&& after == room.insert(src, (account(own, now), now))
        };
    assert(room.dom().finite());
    if before.contains_key(src) {
        assert(after.dom() =~= before.dom());
    }
}

/// Whether the quota counts what passed from the `k`-th on: all before have
/// left the 24 hours that end at `now`, and the `k`-th, if there is one, has
/// not.
pub open spec fn counts_from(passed: Seq<int>, now: int, k: int) -> bool {
    &&& 0 <= k <= passed.len()
    &&& forall|i: int| 0 <= i < k ==> now - (#[trigger] passed[i]) >= 86_400_000_000_000
    &&& k < passed.len() ==> now - passed[k] < 86_400_000_000_000
}

/// What a bucket holds that held `tokens` at `refilled`: what flowed in since
/// on top, at so many millionths of a packet per second, but no more than flows
/// in over two seconds. Nothing flows out while the clock goes back.
pub open spec fn bucket_holds(tokens: nat, rate: nat, refilled: int, now: int) -> int {
    let due = if now >= refilled {
        tokens + (now - refilled) * rate
    } else {
        tokens as int
    };
    if due <= rate * 2_000_000_000 {
        due
    } else {
        (rate * 2_000_000_000) as int
    }
}

/// The quota counts from the one place from which it counts.
proof fn lemma_counts_from(passed: Seq<int>, now: int) -> (k: int)
    ensures
        counts_from(passed, now, k),
        recent(passed, now) == passed.skip(k),
        recent(passed, now).len() == passed.len() - k,
    decreases passed.len(),
{
    if passed.len() > 0 && left_window(passed[0], now) {
        let rest = passed.drop_first();
        let j = lemma_counts_from(rest, now);
        assert(passed.skip(j + 1) =~= rest.skip(j));
        assert forall|i: int| 0 <= i < j + 1 implies now - (#[trigger] passed[i])
            >= 86_400_000_000_000 by {
            if i > 0 {
                assert(rest[i - 1] == passed[i]);
            }
        }
        if j + 1 < passed.len() {
            assert(rest[j] == passed[j + 1]);
        }
        j + 1
    } else {
        assert(passed.skip(0) =~= passed);
        0
    }
}

/// A check goes by two guards that know nothing of each other. The bucket has
/// to hold one packet, whatever the quota. The quota has to have room for one
/// more packet of 2064 wire bytes in the last 24 hours, whatever the bucket. A
/// packet that passes both takes one from the bucket and is counted by the
/// quota; any other changes nothing.
pub proof fn a_check_goes_by_both_guards(
    limiter: &mut RateLimiter,
    packet_len: usize,
    now: Instant,
    r: RateDecision,
)
    requires
        old(limiter).wf(),
        call_ensures(RateLimiter::check_at, (limiter, packet_len, now), r),
    ensures
        exists|k: int|
            #![trigger counts_from(old(limiter)@.passed, instant_nanos(now), k)]
            {
                let a = old(limiter)@;
                let b = final(limiter)@;
                let t = instant_nanos(now);
                let held = bucket_holds(a.tokens, a.rate, a.refilled, t);
                let rate_ok = a.rate == 0 || held >= 1_000_000_000_000_000;
                let quota_ok = a.budget == 0 || (a.passed.len() - k + 1) * 2064 <= a.budget;
                &&& counts_from(a.passed, t, k)
                &&& r == RateDecision::Allow <==> rate_ok && quota_ok
                &&& r == RateDecision::Throttled(ThrottleReason::DailyQuota) <==> !quota_ok
                &&& r == RateDecision::Throttled(ThrottleReason::Rate) <==> quota_ok && !rate_ok
                &&& r != RateDecision::Allow ==> b == a
                &&& b.rate == a.rate
                &&& b.budget == a.budget
                &&& r == RateDecision::Allow && a.rate > 0 ==> b.tokens == held
                    - 1_000_000_000_000_000 && b.refilled == t
                &&& a.rate == 0 ==> b.tokens == a.tokens && b.refilled == a.refilled
                &&& r == RateDecision::Allow && a.budget > 0 ==> b.passed == a.passed.skip(
                    k,
                ).push(t)
                &&& a.budget == 0 ==> b.passed == a.passed
            },
{
    let a = old(limiter)@;
    let t = instant_nanos(now);
    let k = lemma_counts_from(a.passed, t);
    let held = bucket_holds(a.tokens, a.rate, a.refilled, t);
    assert(elapsed(t, a.refilled) * a.rate == if t >= a.refilled {
        (t - a.refilled) * a.rate
    } else {
        0
    }) by (nonlinear_arith)
        requires
            elapsed(t, a.refilled) == if t >= a.refilled {
                t - a.refilled
            } else {
                0
            },
    ;
    assert(held == tokens_at(a, t));
    assert(wire_bytes(recent(a.passed, t).len() + 1) == (a.passed.len() - k + 1) * 2064)
        by (nonlinear_arith)
        requires
            recent(a.passed, t).len() == a.passed.len() - k,
    ;
}

/// A limiter starts with two seconds' worth in its bucket and with nothing
/// counted by its quota, and it remembers both limits as they were given.
pub proof fn a_limiter_starts_full(
    rate: u64,
    max_bytes_per_day: u64,
    now: Instant,
    limiter: RateLimiter,
)
    requires
        call_ensures(RateLimiter::new_at, (rate, max_bytes_per_day, now), limiter),
    ensures
        limiter.wf(),
        limiter@.rate == rate,
        limiter@.budget == max_bytes_per_day,
        limiter@.tokens == rate * 2_000_000_000,
        limiter@.refilled == instant_nanos(now),
        limiter@.passed.len() == 0,
{
}

/// As [`a_limiter_starts_full`], for a limiter that is made now, and for one
/// without limits.
pub proof fn a_limiter_starts_full_now(
    rate: u64,
    max_bytes_per_day: u64,
    limiter: RateLimiter,
    unlimited: RateLimiter,
)
    requires
        call_ensures(RateLimiter::new, (rate, max_bytes_per_day), limiter),
        call_ensures(RateLimiter::unlimited, (), unlimited),
    ensures
        limiter.wf(),
        limiter@.rate == rate,
        limiter@.budget == max_bytes_per_day,
        limiter@.tokens == rate * 2_000_000_000,
        is_now(limiter@.refilled),
        limiter@.passed.len() == 0,
        unlimited.wf(),
        unlimited@.rate == 0,
        unlimited@.budget == 0,
        unlimited@.passed.len() == 0,
{
}

/// What a limiter says of itself: that it has no limits exactly where both are
/// zero, and 2064 bytes for each packet that its quota counts.
pub proof fn a_limiter_tells_its_use(limiter: &RateLimiter, unlimited: bool, used: u64)
    requires
        limiter.wf(),
        call_ensures(RateLimiter::is_unlimited, (limiter,), unlimited),
        call_ensures(RateLimiter::bytes_used_today, (limiter,), used),
    ensures
        unlimited <==> limiter@.rate == 0 && limiter@.budget == 0,
        used == limiter@.passed.len() * 2064,
        limiter@.budget > 0 ==> used <= limiter@.budget,
{
}

/// A check of what is due now is a check at some reading of the clock.
pub proof fn a_check_is_made_now(limiter: &mut RateLimiter, packet_len: usize, r: RateDecision)
    requires
        call_ensures(RateLimiter::check, (limiter, packet_len), r),
    ensures
        r == RateDecision::Allow || final(limiter)@ == old(limiter)@,
        old(limiter)@.rate == 0 && old(limiter)@.budget == 0 ==> r == RateDecision::Allow,
        r == RateDecision::Throttled(ThrottleReason::Rate) ==> old(limiter)@.rate > 0,
        r == RateDecision::Throttled(ThrottleReason::DailyQuota) ==> old(limiter)@.budget > 0,
        r == RateDecision::Allow && old(limiter)@.rate > 0 ==> is_now(final(limiter)@.refilled),
        r == RateDecision::Allow && old(limiter)@.budget > 0 ==> final(limiter)@.passed.len() > 0
            && is_now(final(limiter)@.passed.last()),
{
}

/// Only [`RateDecision::Allow`] lets a packet through.
pub proof fn only_allow_is_allowed(d: &RateDecision, allowed: bool)
    requires
        call_ensures(RateDecision::is_allowed, (d,), allowed),
    ensures
        allowed <==> *d == RateDecision::Allow,
{
}

/// The rate is granted over every stretch of time, from one packet per second
/// up: of the packets of a sender that asks at least as often as the rate
/// allows, while the quota has room, at least as many pass as flow in over the
/// stretch, less what the bucket lacked of being full at its start. From a full
/// bucket that is the rate times the time, whether or not there is a quota.
pub proof fn rate_is_granted(a: Allowance, times: Seq<int>)
    requires
        a.rate > 0,
        sound(a),
        forward(times),
        times.len() > 0,
        times[0] == a.refilled,
        forall|i: int, j: int|
            0 <= i < j < times.len() && j == i + 1 ==> (#[trigger] times[j] - #[trigger] times[i])
                * a.rate <= 1_000_000_000_000_000,
        a.rate >= 1_000_000,
        a.budget == 0 || (a.passed.len() + times.len()) * 2064 <= a.budget,
    ensures
        allowed_in_run(a, times) * 1_000_000_000_000_000 >= (times.last() - times[0]) * a.rate
            + a.tokens - a.rate * 2_000_000_000,
        a.tokens == a.rate * 2_000_000_000 ==> allowed_in_run(a, times) * 1_000_000_000_000_000
            >= (times.last() - times[0]) * a.rate,
{
    lemma_rate_granted(a, times);
}

/// What a bucket held, and what flowed in, has passed or is still there.
proof fn lemma_rate_granted(a: Allowance, times: Seq<int>)
    requires
        a.rate > 0,
        sound(a),
        forward(times),
        times.len() > 0,
        times[0] == a.refilled,
        forall|i: int, j: int|
            0 <= i < j < times.len() && j == i + 1 ==> (#[trigger] times[j] - #[trigger] times[i])
                * a.rate <= TOKEN,
        a.rate >= 1_000_000,
        a.budget == 0 || (a.passed.len() + times.len()) * 2064 <= a.budget,
    ensures
        ({
            let b = after_run(a, times);
            let n = allowed_in_run(a, times);
            let v = tokens_at(b, times.last());
            &&& b.rate == a.rate
            &&& b.budget == a.budget
            &&& b.refilled <= times.last()
            &&& b.passed.len() <= a.passed.len() + times.len()
            &&& v + TOKEN <= a.rate * 2_000_000_000 || v < TOKEN
            &&& v == b.tokens + (times.last() - b.refilled) * a.rate
            &&& n * TOKEN + v == a.tokens + (times.last() - times[0]) * a.rate
        }),
    decreases times.len(),
{
    let front = times.drop_last();
    let now = times.last();
    assert(now == times[times.len() - 1]);
    let rate = a.rate as int;
    if front.len() == 0 {
        assert(after_run(a, front) == a);
        assert(times[0] == now);
        assert(elapsed(now, a.refilled) * a.rate == 0) by (nonlinear_arith)
            requires
                elapsed(now, a.refilled) == 0,
        ;
        lemma_room(a, now, 1);
        let b = after_run(a, times);
        assert((now - b.refilled) * a.rate == 0) by (nonlinear_arith)
            requires
                now - b.refilled == 0,
        ;
        assert(elapsed(now, b.refilled) * b.rate == 0) by (nonlinear_arith)
            requires
                elapsed(now, b.refilled) == 0,
        ;
        assert((times.last() - times[0]) * a.rate == 0) by (nonlinear_arith)
            requires
                times.last() - times[0] == 0,
        ;
        assert(allowed_in_run(a, front) == 0);
        assert(0 * TOKEN == 0 && 1 * TOKEN == TOKEN);
        assert(allowed_in_run(a, times) * TOKEN + tokens_at(b, now) == a.tokens);
    } else {
        assert forall|i: int, j: int| 0 <= i <= j < front.len() implies #[trigger] front[i]
            <= #[trigger] front[j] by {
            assert(front[i] == times[i] && front[j] == times[j]);
        }
        assert forall|i: int, j: int| 0 <= i < j < front.len() && j == i + 1 implies (
        #[trigger] front[j] - #[trigger] front[i]) * a.rate <= TOKEN by {
            assert(front[i] == times[i] && front[j] == times[j]);
        }
        assert(front[0] == times[0]);
        lemma_rate_granted(a, front);
        let last = front.last();
        assert(last == times[times.len() - 2]);
        assert(times[times.len() - 2] <= times[times.len() - 1]);
        let mid = after_run(a, front);
        let n = allowed_in_run(a, front);
        let v = tokens_at(mid, last);
        assert((times[times.len() - 1] - times[times.len() - 2]) * a.rate <= TOKEN);
        assert(elapsed(now, mid.refilled) * mid.rate == (last - mid.refilled) * a.rate + (now
            - last) * a.rate) by (nonlinear_arith)
            requires
                elapsed(now, mid.refilled) == now - mid.refilled,
                mid.rate == a.rate,
        ;
        assert((times.last() - times[0]) * a.rate == (last - front[0]) * a.rate + (now - last)
            * a.rate) by (nonlinear_arith)
            requires
                times.last() == now,
                times[0] == front[0],
        ;
        assert(tokens_at(mid, now) == v + (now - last) * a.rate);
        lemma_room(mid, now, 1);
        let b = after_run(a, times);
        assert((n + 1) * TOKEN == n * TOKEN + TOKEN) by (nonlinear_arith);
        if decide(mid, now) == RateDecision::Allow {
            assert(elapsed(now, b.refilled) * b.rate == 0) by (nonlinear_arith)
                requires
                    elapsed(now, b.refilled) == 0,
            ;
            assert((now - b.refilled) * a.rate == 0) by (nonlinear_arith)
                requires
                    now - b.refilled == 0,
            ;
            assert(allowed_in_run(a, times) == n + 1);
        } else {
            assert(allowed_in_run(a, times) == n);
            assert((now - mid.refilled) * a.rate == (last - mid.refilled) * a.rate + (now - last)
                * a.rate) by (nonlinear_arith);
        }
    }
    let b = after_run(a, times);
    let n = allowed_in_run(a, times);
    let v = tokens_at(b, times.last());
    assert(v == b.tokens + (times.last() - b.refilled) * a.rate);
    assert(v + TOKEN <= a.rate * 2_000_000_000 || v < TOKEN);
    assert(n * TOKEN + v == a.tokens + (times.last() - times[0]) * a.rate);
}

/// Where the quota has room for what it counted and `more`, it turns nothing
/// away.
proof fn lemma_room(a: Allowance, now: int, more: nat)
    requires
        more > 0,
        a.budget == 0 || (a.passed.len() + more) * 2064 <= a.budget,
    ensures
        decide(a, now) != RateDecision::Throttled(ThrottleReason::DailyQuota),
        account(a, now).passed.len() <= a.passed.len() + 1,
{
    lemma_recent(a.passed, now);
    assert(wire_bytes(recent(a.passed, now).len() + 1) <= (a.passed.len() + more) * 2064)
        by (nonlinear_arith)
        requires
            recent(a.passed, now).len() <= a.passed.len(),
            more > 0,
    ;
}

/// Whether a packet from `src` at `t` is charged to its source alone. The source
/// pays with its own allowance, which is full where it was not tracked, and is
/// tracked from then on. No other source's allowance changes. A source is
/// forgotten only where the table is full and `src` is new to it, and then the
/// one that was seen longest ago, and no other.
pub open spec fn charged_to_its_source(
    before: Sources,
    after: Sources,
    src: IpAddr,
    t: int,
    rate: nat,
    budget: nat,
    capacity: nat,
    r: RateDecision,
) -> bool {
    let own = if before.contains_key(src) {
        before[src].0
    } else {
        Allowance {
            rate,
            tokens: rate * 2_000_000_000,
            refilled: t,
            budget,
            passed: Seq::empty(),
        }
    };
    &&& r == decide(own, t)
    &&& after.contains_key(src)
    &&& after[src] == (account(own, t), t)
    &&& after.len() <= capacity
    &&& forall|other: IpAddr|
        other != src && #[trigger] after.contains_key(other) ==> before.contains_key(other)
            && after[other] == before[other]
    &&& before.contains_key(src) || before.len() < capacity ==> forall|other: IpAddr| #[trigger]
        before.contains_key(other) ==> after.contains_key(other)
    &&& forall|gone: IpAddr, other: IpAddr| #[trigger]
        before.contains_key(gone) && !after.contains_key(gone)
            && #[trigger] before.contains_key(other) ==> before[gone].1 <= before[other].1
    &&& forall|gone: IpAddr, other: IpAddr| #[trigger]
        before.contains_key(gone) && !after.contains_key(gone)
            && #[trigger] before.contains_key(other) && !after.contains_key(other) ==> gone == other
}

/// A checked packet is charged to its source.
pub(crate) proof fn lemma_charged_to_its_source(
    before: Sources,
    src: IpAddr,
    t: int,
    rate: nat,
    budget: nat,
    capacity: nat,
    r: RateDecision,
    after: Sources,
)
    requires
        before.dom().finite(),
        before.len() <= capacity,
        capacity > 0,
        source_checked(before, src, t, rate, budget, capacity, r, after),
    ensures
        charged_to_its_source(before, after, src, t, rate, budget, capacity, r),
{
    let room = choose|room: Sources|
        {
            let own = allowance_of(room, src, rate, budget, t);
            &&& #[trigger] make_room(before, src, capacity, room)
            &&& r == decide(own, t)
            &&& after == room.insert(src, (account(own, t), t))
        };
    assert(make_room(before, src, capacity, room));
    source_table_is_bounded(before, src, t, rate, budget, capacity, r, after);
    if !before.contains_key(src) {
        assert(!room.contains_key(src));
    }
    if before.contains_key(src) {
        assert(room == before);
    }
}

/// What a source pays with is its own: one that is known is checked against
/// what it has left, and one that is not against a full bucket and an unused
/// quota, both of the limits that every source has.
pub proof fn a_source_pays_with_its_own(
    limiter: &mut PerSourceLimiter,
    src: IpAddr,
    packet_len: usize,
    now: Instant,
    r: RateDecision,
)
    requires
        old(limiter).wf(),
        call_ensures(PerSourceLimiter::check_at, (limiter, src, packet_len, now), r),
    ensures
        charged_to_its_source(
            old(limiter)@,
            final(limiter)@,
            src,
            instant_nanos(now),
            old(limiter).source_rate(),
            old(limiter).source_budget(),
            old(limiter).capacity(),
            r,
        ),
        final(limiter).source_rate() == old(limiter).source_rate(),
        final(limiter).source_budget() == old(limiter).source_budget(),
        final(limiter).capacity() == old(limiter).capacity(),
{
    lemma_charged_to_its_source(
        old(limiter)@,
        src,
        instant_nanos(now),
        old(limiter).source_rate(),
        old(limiter).source_budget(),
        old(limiter).capacity(),
        r,
        final(limiter)@,
    );
}

/// As [`a_source_pays_with_its_own`], of a packet that comes in now.
pub proof fn a_source_pays_now(
    limiter: &mut PerSourceLimiter,
    src: IpAddr,
    packet_len: usize,
    r: RateDecision,
)
    requires
        old(limiter).wf(),
        call_ensures(PerSourceLimiter::check, (limiter, src, packet_len), r),
    ensures
        exists|t: int| #[trigger]
            is_now(t) && charged_to_its_source(
                old(limiter)@,
                final(limiter)@,
                src,
                t,
                old(limiter).source_rate(),
                old(limiter).source_budget(),
                old(limiter).capacity(),
                r,
            ),
        final(limiter).source_rate() == old(limiter).source_rate(),
        final(limiter).source_budget() == old(limiter).source_budget(),
        final(limiter).capacity() == old(limiter).capacity(),
{
    let rate = old(limiter).source_rate();
    let budget = old(limiter).source_budget();
    let capacity = old(limiter).capacity();
    let t = choose|now: int|
        is_now(now) && #[trigger] source_checked(
            old(limiter)@,
            src,
            now,
            rate,
            budget,
            capacity,
            r,
            final(limiter)@,
        );
    lemma_charged_to_its_source(old(limiter)@, src, t, rate, budget, capacity, r, final(limiter)@);
}

/// A limiter of sources starts with nobody tracked, and remembers its limits as
/// they were given, but tracks at least one source.
pub proof fn a_source_limiter_starts_empty(
    rate: u64,
    max_bytes_per_day: u64,
    max_entries: usize,
    limiter: PerSourceLimiter,
    tracked_now: usize,
)
    requires
        call_ensures(PerSourceLimiter::new, (rate, max_bytes_per_day, max_entries), limiter),
        call_ensures(PerSourceLimiter::tracked_sources, (&limiter,), tracked_now),
    ensures
        limiter.wf(),
        tracked_now == 0,
        forall|src: IpAddr| !limiter@.contains_key(src),
        limiter.source_rate() == rate,
        limiter.source_budget() == max_bytes_per_day,
        max_entries > 0 ==> limiter.capacity() == max_entries,
        max_entries == 0 ==> limiter.capacity() == 1,
{
}

} // verus!
