use crypto_gotham_relay::addr::IpAddr;
use crypto_gotham_relay::rate_limit::{
    PerSourceLimiter, PACKET_PER_SECOND, QUOTA_WINDOW_NANOS, WIRE_BYTES_PER_PACKET,
};
use crypto_gotham_relay::{RateDecision, RateLimiter, ThrottleReason};
use std::time::{Duration, Instant};

fn quota_window() -> Duration {
    Duration::from_nanos(QUOTA_WINDOW_NANOS as u64)
}

#[test]
fn unlimited_never_throttles() {
    let mut rl = RateLimiter::unlimited();
    assert!(rl.is_unlimited());
    let now = Instant::now();
    for _ in 0..1_000_000 {
        assert_eq!(rl.check_at(2048, now), RateDecision::Allow);
    }
}

#[test]
fn rate_bucket_blocks_after_burst_then_refills() {
    let mut rl = RateLimiter::new(10 * PACKET_PER_SECOND, 0);
    let t0 = Instant::now();
    for i in 0..20 {
        assert_eq!(
            rl.check_at(2048, t0),
            RateDecision::Allow,
            "burst packet {i}"
        );
    }
    assert_eq!(
        rl.check_at(2048, t0),
        RateDecision::Throttled(ThrottleReason::Rate)
    );
    let t1 = t0 + Duration::from_secs(1);
    assert_eq!(rl.check_at(2048, t1), RateDecision::Allow);
}

#[test]
fn a_second_refills_exactly_the_rate() {
    let t0 = Instant::now();
    let mut rl = RateLimiter::new_at(10 * PACKET_PER_SECOND, 0, t0);
    for _ in 0..20 {
        assert!(rl.check_at(2048, t0).is_allowed());
    }
    let t1 = t0 + Duration::from_secs(1);
    for _ in 0..10 {
        assert!(rl.check_at(2048, t1).is_allowed());
    }
    assert!(!rl.check_at(2048, t1).is_allowed());
    // One token takes a tenth of a second, to the nanosecond.
    let early = t1 + Duration::from_nanos(99_999_999);
    assert!(!rl.check_at(2048, early).is_allowed());
    let due = t1 + Duration::from_nanos(100_000_000);
    assert!(rl.check_at(2048, due).is_allowed());
    // However long it is idle, it holds two seconds' worth.
    let idle = due + Duration::from_secs(86_400 * 365);
    for _ in 0..20 {
        assert!(rl.check_at(2048, idle).is_allowed());
    }
    assert!(!rl.check_at(2048, idle).is_allowed());
}

#[test]
fn a_fraction_of_a_packet_per_second_is_a_rate() {
    let t0 = Instant::now();
    let mut rl = RateLimiter::new_at(PACKET_PER_SECOND / 2, 0, t0);
    assert!(rl.check_at(2048, t0).is_allowed());
    assert!(!rl.check_at(2048, t0 + Duration::from_millis(1999)).is_allowed());
    assert!(rl.check_at(2048, t0 + Duration::from_secs(2)).is_allowed());
}

#[test]
fn rate_throttle_consumes_nothing() {
    let mut rl = RateLimiter::new(PACKET_PER_SECOND, 0);
    let t0 = Instant::now();
    assert!(rl.check_at(2048, t0).is_allowed());
    assert!(rl.check_at(2048, t0).is_allowed());
    for _ in 0..100 {
        assert_eq!(
            rl.check_at(2048, t0),
            RateDecision::Throttled(ThrottleReason::Rate)
        );
    }
}

#[test]
fn daily_quota_blocks_then_resets_after_window() {
    let budget = WIRE_BYTES_PER_PACKET * 3;
    let mut rl = RateLimiter::new(0, budget);
    let t0 = Instant::now();
    for i in 0..3 {
        assert_eq!(
            rl.check_at(2048, t0),
            RateDecision::Allow,
            "quota packet {i}"
        );
    }
    assert_eq!(
        rl.check_at(2048, t0),
        RateDecision::Throttled(ThrottleReason::DailyQuota)
    );
    assert_eq!(rl.bytes_used_today(), budget);
    let almost = t0 + quota_window() - Duration::from_secs(1);
    assert_eq!(
        rl.check_at(2048, almost),
        RateDecision::Throttled(ThrottleReason::DailyQuota)
    );
    let next_day = t0 + quota_window();
    assert_eq!(rl.check_at(2048, next_day), RateDecision::Allow);
    assert_eq!(rl.bytes_used_today(), WIRE_BYTES_PER_PACKET);
}

#[test]
fn the_quota_window_rolls() {
    let t0 = Instant::now();
    let mut rl = RateLimiter::new_at(0, WIRE_BYTES_PER_PACKET, t0);
    let late = t0 + Duration::from_secs(23 * 3600);
    assert_eq!(rl.check_at(2048, late), RateDecision::Allow);
    // A day after the limiter was made is an hour after the packet.
    assert_eq!(
        rl.check_at(2048, t0 + quota_window()),
        RateDecision::Throttled(ThrottleReason::DailyQuota)
    );
    assert_eq!(
        rl.check_at(2048, late + quota_window() - Duration::from_nanos(1)),
        RateDecision::Throttled(ThrottleReason::DailyQuota)
    );
    assert_eq!(rl.check_at(2048, late + quota_window()), RateDecision::Allow);
    assert_eq!(rl.bytes_used_today(), WIRE_BYTES_PER_PACKET);
}

#[test]
fn quota_returns_packet_by_packet() {
    let t0 = Instant::now();
    let hour = Duration::from_secs(3600);
    let mut rl = RateLimiter::new_at(0, 3 * WIRE_BYTES_PER_PACKET + 5, t0);
    for i in 0..3u32 {
        assert!(rl.check_at(2048, t0 + hour * i).is_allowed());
    }
    assert!(!rl.check_at(2048, t0 + hour * 3).is_allowed());
    assert_eq!(rl.bytes_used_today(), 3 * WIRE_BYTES_PER_PACKET);
    // The first has left the window, the other two have not.
    assert!(rl.check_at(2048, t0 + quota_window()).is_allowed());
    assert!(!rl.check_at(2048, t0 + quota_window()).is_allowed());
    assert!(rl.check_at(2048, t0 + quota_window() + hour).is_allowed());
    assert_eq!(rl.bytes_used_today(), 3 * WIRE_BYTES_PER_PACKET);
}

#[test]
fn a_budget_below_one_packet_lets_none_through() {
    let t0 = Instant::now();
    let mut rl = RateLimiter::new_at(0, WIRE_BYTES_PER_PACKET - 1, t0);
    for day in 0..3u32 {
        assert_eq!(
            rl.check_at(2048, t0 + quota_window() * day),
            RateDecision::Throttled(ThrottleReason::DailyQuota)
        );
    }
    assert_eq!(rl.bytes_used_today(), 0);
}

#[test]
fn the_rate_holds_over_a_stretch_that_begins_anywhere() {
    let t0 = Instant::now();
    let mut rl = RateLimiter::new_at(10 * PACKET_PER_SECOND, 0, t0);
    // Idle for an hour, and asked every millisecond over three seconds.
    let from = t0 + Duration::from_secs(3600);
    let mut allowed = 0;
    for ms in 0..=3000u64 {
        if rl.check_at(2048, from + Duration::from_millis(ms)).is_allowed() {
            allowed += 1;
        }
    }
    // The burst of twenty, and ten for each of the three seconds.
    assert_eq!(allowed, 50);
}

#[test]
fn quota_accounts_wire_bytes_not_packet_len() {
    let budget = WIRE_BYTES_PER_PACKET;
    let mut rl = RateLimiter::new(0, budget);
    let t0 = Instant::now();
    assert_eq!(rl.check_at(1, t0), RateDecision::Allow);
    assert_eq!(
        rl.check_at(1, t0),
        RateDecision::Throttled(ThrottleReason::DailyQuota)
    );
}

#[test]
fn both_guards_active_either_can_throttle() {
    let mut rl = RateLimiter::new(1000 * PACKET_PER_SECOND, WIRE_BYTES_PER_PACKET * 2);
    let t0 = Instant::now();
    assert!(rl.check_at(2048, t0).is_allowed());
    assert!(rl.check_at(2048, t0).is_allowed());
    assert_eq!(
        rl.check_at(2048, t0),
        RateDecision::Throttled(ThrottleReason::DailyQuota)
    );
    let mut rl2 = RateLimiter::new(2 * PACKET_PER_SECOND, u64::MAX);
    assert!(rl2.check_at(2048, t0).is_allowed());
    assert!(rl2.check_at(2048, t0).is_allowed());
    assert!(rl2.check_at(2048, t0).is_allowed());
    assert!(rl2.check_at(2048, t0).is_allowed());
    assert_eq!(
        rl2.check_at(2048, t0),
        RateDecision::Throttled(ThrottleReason::Rate)
    );
}

#[test]
fn a_flood_from_one_source_does_not_shed_another() {
    let mut lim = PerSourceLimiter::new(10 * PACKET_PER_SECOND, 0, 64);
    let t0 = Instant::now();
    let flooder = IpAddr::v4(203, 0, 113, 9);
    let victim = IpAddr::v4(198, 51, 100, 4);

    let mut throttled = 0;
    for _ in 0..200 {
        if !lim.check_at(flooder, 2048, t0).is_allowed() {
            throttled += 1;
        }
    }
    assert!(throttled > 0, "the flooder must hit its own limit");
    assert_eq!(throttled, 180);

    for _ in 0..10 {
        assert!(
            lim.check_at(victim, 2048, t0).is_allowed(),
            "a second source must not pay for the first one's flood"
        );
    }
}

#[test]
fn the_source_table_is_bounded_and_evicts_the_longest_idle() {
    let mut lim = PerSourceLimiter::new(10 * PACKET_PER_SECOND, 0, 4);
    let t0 = Instant::now();

    for i in 0..5u8 {
        lim.check_at(
            IpAddr::v4(203, 0, 113, i),
            2048,
            t0 + Duration::from_millis(u64::from(i)),
        );
    }
    assert_eq!(lim.tracked_sources(), 4, "the table must stay at its bound");

    let oldest = IpAddr::v4(203, 0, 113, 0);
    assert!(
        lim.check_at(oldest, 2048, t0 + Duration::from_millis(10))
            .is_allowed(),
        "an evicted source starts fresh, which only forgives a quiet one"
    );
    assert_eq!(lim.tracked_sources(), 4);
}

#[test]
fn a_source_that_is_not_idle_keeps_its_bucket() {
    let mut lim = PerSourceLimiter::new(PACKET_PER_SECOND, 0, 2);
    let t0 = Instant::now();
    let busy = IpAddr::V6(1);
    let quiet = IpAddr::V4(1);
    let third = IpAddr::v4(10, 0, 0, 1);
    assert!(lim.check_at(busy, 2048, t0).is_allowed());
    assert!(lim.check_at(quiet, 2048, t0).is_allowed());
    let t1 = t0 + Duration::from_nanos(1);
    assert!(lim.check_at(busy, 2048, t1).is_allowed());
    assert!(!lim.check_at(busy, 2048, t1).is_allowed());
    // The third takes the place of the quiet one.
    assert!(lim.check_at(third, 2048, t1).is_allowed());
    assert!(!lim.check_at(busy, 2048, t1).is_allowed());
    assert_eq!(lim.tracked_sources(), 2);
}

#[test]
fn a_table_holds_at_least_one_source() {
    let mut lim = PerSourceLimiter::new(0, 0, 0);
    assert!(lim.check(IpAddr::v4(1, 2, 3, 4), 2048).is_allowed());
    assert!(lim.check(IpAddr::v4(1, 2, 3, 5), 2048).is_allowed());
    assert_eq!(lim.tracked_sources(), 1);
}
