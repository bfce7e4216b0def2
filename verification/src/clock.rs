//! Readings of the monotonic and the wall clock, and lengths of time, as
//! integers.
//!
//! `std::time` values are opaque to the proofs. Each is given the one number
//! that the rest of the library reasons about: a [`Duration`] is a count of
//! nanoseconds, an [`Instant`] is a position in nanoseconds on the time line of
//! the process, and a [`SystemTime`] is a position in nanoseconds relative to
//! the Unix epoch.

use std::time::{Duration, Instant, SystemTime};
use vstd::prelude::*;

verus! {

/// Nanoseconds in one second.
pub const NANOS_PER_SEC: u128 = 1_000_000_000;

#[verifier::external_type_specification]
#[verifier::external_body]
pub struct ExInstant(Instant);

#[verifier::external_type_specification]
#[verifier::external_body]
pub struct ExSystemTime(SystemTime);

/// How many nanoseconds a [`Duration`] lasts.
pub uninterp spec fn duration_nanos(d: Duration) -> nat;

/// Where an [`Instant`] lies on the monotonic time line, in nanoseconds from
/// an origin that is fixed for the process.
pub uninterp spec fn instant_nanos(t: Instant) -> int;

/// Where a [`SystemTime`] lies relative to the Unix epoch, in nanoseconds.
pub uninterp spec fn unix_nanos(t: SystemTime) -> int;

/// `Duration::as_nanos` returns the length in nanoseconds. The longest
/// `Duration` is `u64::MAX` seconds and 999 999 999 nanoseconds.
pub assume_specification[ Duration::as_nanos ](d: &Duration) -> (nanos: u128)
    ensures
        nanos == duration_nanos(*d),
        nanos < 18_446_744_073_709_551_616 * NANOS_PER_SEC,
;

/// `Duration::as_secs` returns the whole seconds of the length.
pub assume_specification[ Duration::as_secs ](d: &Duration) -> (secs: u64)
    ensures
        secs == duration_nanos(*d) / NANOS_PER_SEC as nat,
;

/// `Duration::from_secs` makes a length of that many whole seconds.
pub assume_specification[ Duration::from_secs ](secs: u64) -> (d: Duration)
    ensures
        duration_nanos(d) == secs * NANOS_PER_SEC,
;

/// `Duration::new` makes a length of `secs` seconds and `nanos` nanoseconds.
/// It can panic where the nanoseconds carry over into the seconds.
pub assume_specification[ Duration::new ](secs: u64, nanos: u32) -> (d: Duration)
    requires
        nanos < 1_000_000_000,
    ensures
        duration_nanos(d) == secs * NANOS_PER_SEC + nanos,
;

/// `Duration::from_micros` makes a length of that many whole microseconds.
pub assume_specification[ Duration::from_micros ](micros: u64) -> (d: Duration)
    ensures
        duration_nanos(d) == micros * 1_000,
;

/// `Instant::now` reads the monotonic clock. What it reads is left open.
pub assume_specification[ Instant::now ]() -> (t: Instant)
;

/// `Instant::saturating_duration_since` returns the time elapsed from
/// `earlier` to `t`, or zero when `earlier` is the later of the two.
pub assume_specification[ Instant::saturating_duration_since ](
    t: &Instant,
    earlier: Instant,
) -> (d: Duration)
    ensures
        duration_nanos(d) == elapsed(instant_nanos(*t), instant_nanos(earlier)),
;

/// `Instant::checked_sub` moves back by `d`, or returns `None` where the
/// platform cannot represent the resulting instant. Which instants those are
/// is left open.
pub assume_specification[ Instant::checked_sub ](t: &Instant, d: Duration) -> (r: Option<Instant>)
    ensures
        r matches Some(back) ==> instant_nanos(back) == instant_nanos(*t) - duration_nanos(d),
;

/// `SystemTime::now` reads the wall clock. What it reads is left open.
pub assume_specification[ SystemTime::now ]() -> (t: SystemTime)
;

/// `SystemTime::duration_since` against `UNIX_EPOCH`: the time from the epoch
/// to `t`, or `None` when `t` lies before the epoch.
#[verifier::external_body]
fn since_epoch(t: SystemTime) -> (r: Option<Duration>)
    ensures
        match r {
            Some(d) => unix_nanos(t) == duration_nanos(d),
            None => unix_nanos(t) < 0,
        },
{
    t.duration_since(std::time::UNIX_EPOCH).ok()
}

/// The nanoseconds from `earlier` to `now`, and zero where `earlier` is later.
pub open spec fn elapsed(now: int, earlier: int) -> nat {
    if now >= earlier {
        (now - earlier) as nat
    } else {
        0
    }
}

/// Whole seconds since the Unix epoch at `t`; zero for a clock set before it.
pub open spec fn unix_secs(t: SystemTime) -> nat {
    if unix_nanos(t) < 0 {
        0
    } else {
        unix_nanos(t) as nat / NANOS_PER_SEC as nat
    }
}

/// Whole seconds since the Unix epoch at `t`, and `early` for a clock set
/// before it.
pub fn unix_secs_at(t: SystemTime, early: u64) -> (secs: u64)
    ensures
        unix_nanos(t) >= 0 ==> secs == unix_secs(t),
        unix_nanos(t) < 0 ==> secs == early,
{
    match since_epoch(t) {
        Some(d) => d.as_secs(),
        None => early,
    }
}

/// Whether `t` is what a reading of the monotonic clock can give.
pub open spec fn instant_read(t: Instant) -> bool {
    call_ensures(Instant::now, (), t)
}

/// Whether `t` is what a reading of the wall clock can give.
pub open spec fn wall_read(t: SystemTime) -> bool {
    call_ensures(SystemTime::now, (), t)
}

/// Whether a reading of the monotonic clock lies at `nanos`.
pub open spec fn is_now(nanos: int) -> bool {
    exists|t: Instant| #[trigger] instant_read(t) && instant_nanos(t) == nanos
}

/// Whether a reading of the wall clock lies in the second `secs`.
pub open spec fn is_unix_now(secs: u64) -> bool {
    exists|t: SystemTime| #[trigger] wall_read(t) && unix_secs(t) == secs
}

/// Where an instant `age` nanoseconds before `now` lies, as
/// `Instant::checked_sub` gives it; `now` itself where that finds none.
pub open spec fn moved_back(now: Instant, age: nat, at: int) -> bool {
    exists|d: Duration, r: Option<Instant>|
        {
            &&& #[trigger] call_ensures(Instant::checked_sub, (&now, d), r)
            &&& duration_nanos(d) == age
            &&& at == match r {
                Some(back) => instant_nanos(back),
                None => instant_nanos(now),
            }
        }
}

/// Whether every instant up to `age` nanoseconds before `now` is found.
pub open spec fn reaches_back(now: Instant, age: nat) -> bool {
    forall|d: Duration, r: Option<Instant>|
        duration_nanos(d) <= age && #[trigger] call_ensures(Instant::checked_sub, (&now, d), r)
            ==> r is Some
}

/// What `clock` reads.
fn read<T, F: FnOnce() -> T>(clock: F) -> (t: T)
    requires
        call_requires(clock, ()),
    ensures
        call_ensures(clock, (), t),
{
    clock()
}

/// What `step` makes of `t` and `d`.
fn shift<F: FnOnce(&Instant, Duration) -> Option<Instant>>(step: F, t: &Instant, d: Duration) -> (r:
    Option<Instant>)
    requires
        call_requires(step, (t, d)),
    ensures
        call_ensures(step, (t, d), r),
{
    step(t, d)
}

/// Reads the monotonic clock.
pub fn now_instant() -> (t: Instant)
    ensures
        instant_read(t),
        is_now(instant_nanos(t)),
{
    read(Instant::now)
}

/// The instant `age` before `now`, and `now` itself where the monotonic clock
/// cannot represent it.
pub fn go_back(now: Instant, age: Duration) -> (at: Instant)
    ensures
        moved_back(now, duration_nanos(age), instant_nanos(at)),
{
    match shift(Instant::checked_sub, &now, age) {
        Some(back) => back,
        None => now,
    }
}

/// Reads the wall clock.
pub fn now_wall() -> (t: SystemTime)
    ensures
        wall_read(t),
{
    read(SystemTime::now)
}

/// The wall clock in whole seconds since the Unix epoch.
pub fn now_unix() -> (secs: u64)
    ensures
        is_unix_now(secs),
{
    let t: SystemTime = now_wall();
    let secs: u64 = unix_secs_at(t, 0);
    assert(wall_read(t) && unix_secs(t) == secs);
    secs
}

/// How far an instant was moved back: by its age, or not at all.
pub proof fn lemma_moved_back(now: Instant, age: nat, at: int)
    requires
        moved_back(now, age, at),
    ensures
        at == instant_nanos(now) - age || at == instant_nanos(now),
        forall|reach: nat| age <= reach && #[trigger] reaches_back(now, reach) ==> at
            == instant_nanos(now) - age,
{
}

/// The second of a wall clock is the one that has begun and is not over; a clock
/// before the epoch has the one that was given for it.
pub proof fn a_second_is_the_one_that_runs(t: SystemTime, early: u64, secs: u64)
    requires
        call_ensures(unix_secs_at, (t, early), secs),
    ensures
        unix_nanos(t) >= 0 ==> secs * 1_000_000_000 <= unix_nanos(t) < (secs + 1) * 1_000_000_000,
        unix_nanos(t) < 0 ==> secs == early,
{
}

/// The readings of the clocks are theirs: of the monotonic clock, of the wall
/// clock, and of the second that runs on the wall clock, which is the first where
/// it stands before the epoch.
pub proof fn clocks_are_read(at: Instant, wall: SystemTime, secs: u64)
    requires
        call_ensures(now_instant, (), at),
        call_ensures(now_wall, (), wall),
        call_ensures(now_unix, (), secs),
    ensures
        call_ensures(Instant::now, (), at),
        call_ensures(SystemTime::now, (), wall),
        exists|t: SystemTime|
            {
                &&& #[trigger] call_ensures(SystemTime::now, (), t)
                &&& unix_nanos(t) >= 0 ==> secs * 1_000_000_000 <= unix_nanos(t) < (secs + 1)
                    * 1_000_000_000
                &&& unix_nanos(t) < 0 ==> secs == 0
            },
{
    let t = choose|t: SystemTime| #[trigger] wall_read(t) && unix_secs(t) == secs;
    assert(call_ensures(SystemTime::now, (), t));
}

/// An instant is moved back by just the age, wherever the clock reaches that far.
pub proof fn an_instant_goes_back_by_its_age(now: Instant, age: Duration, at: Instant)
    requires
        call_ensures(go_back, (now, age), at),
    ensures
        instant_nanos(at) == instant_nanos(now) - duration_nanos(age) || instant_nanos(at)
            == instant_nanos(now),
        reaches_back(now, duration_nanos(age)) ==> instant_nanos(at) == instant_nanos(now)
            - duration_nanos(age),
{
    lemma_moved_back(now, duration_nanos(age), instant_nanos(at));
}

} // verus!
