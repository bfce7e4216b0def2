use crypto_gotham_relay::client::{sender_hop_delay_micros, SENDER_MEAN_DELAY_MICROS};
use crypto_gotham_relay::PoissonScheduler;
use rand::{Rng, SeedableRng};
use rand_chacha::ChaCha20Rng;
use std::time::Duration;

/// One draw from the exponential distribution with this mean.
fn draw(rng: &mut ChaCha20Rng, mean_micros: u64) -> Duration {
    let mut u: f64 = rng.gen();
    if u == 0.0 {
        u = f64::MIN_POSITIVE;
    }
    Duration::try_from_secs_f64(-u.ln() * mean_micros as f64 / 1_000_000.0).unwrap_or(Duration::MAX)
}

#[test]
fn zero_lambda_yields_zero_delay() {
    let s = PoissonScheduler::new(0);
    let mut rng = ChaCha20Rng::seed_from_u64(42);
    for _ in 0..100 {
        assert_eq!(s.next_delay(draw(&mut rng, 20_000)), Duration::ZERO);
    }
}

#[test]
fn sample_mean_close_to_configured() {
    let mean_micros = 20_000u64;
    let s = PoissonScheduler::new(mean_micros);
    let mut rng = ChaCha20Rng::seed_from_u64(0xC0FFEE);
    let n = 10_000;
    let mut total = 0.0f64;
    for _ in 0..n {
        let d = s.next_delay(draw(&mut rng, s.mean_delay_micros()));
        total += d.as_secs_f64() * 1_000_000.0;
    }
    let observed_mean = total / n as f64;
    let pct_err = ((observed_mean - mean_micros as f64).abs() / mean_micros as f64) * 100.0;
    assert!(pct_err < 5.0, "{observed_mean:.0}µs differs by {pct_err:.2}%");
}

#[test]
fn delays_are_nonnegative() {
    let s = PoissonScheduler::new(10_000);
    let mut rng = ChaCha20Rng::seed_from_u64(7);
    for _ in 0..1_000 {
        let d = s.next_delay(draw(&mut rng, 10_000));
        assert!(d >= Duration::ZERO);
    }
}

#[test]
fn outliers_are_clamped() {
    let mean = 1_000u64;
    let s = PoissonScheduler::new(mean);
    let mut rng = ChaCha20Rng::seed_from_u64(1);
    for _ in 0..100_000 {
        let d = s.next_delay(draw(&mut rng, mean));
        assert!(
            d.as_secs_f64() <= 100.0 * mean as f64 / 1_000_000.0 + 1e-6,
            "delay exceeds 100× mean"
        );
    }
}

#[test]
fn a_draw_is_cut_off_at_a_hundred_means() {
    let s = PoissonScheduler::new(1_000);
    assert_eq!(s.next_delay(Duration::MAX), Duration::from_millis(100));
    assert_eq!(
        s.next_delay(Duration::from_millis(100)),
        Duration::from_millis(100)
    );
    assert_eq!(
        s.next_delay(Duration::from_nanos(99_999_999)),
        Duration::from_nanos(99_999_999)
    );
    let long = PoissonScheduler::new(u64::MAX);
    assert_eq!(
        long.next_delay(Duration::MAX),
        Duration::new(1_844_674_407_370_955, 161_500_000)
    );
}

#[test]
fn sender_hop_delays_are_exponentially_distributed() {
    let sched = PoissonScheduler::new(SENDER_MEAN_DELAY_MICROS);
    let mut rng = ChaCha20Rng::seed_from_u64(0x0090_1550);
    let n = 50_000usize;
    let (mut sum, mut sum_sq) = (0.0f64, 0.0f64);
    let mut min_seen = u32::MAX;
    for _ in 0..n {
        let micros = sender_hop_delay_micros(&sched, draw(&mut rng, SENDER_MEAN_DELAY_MICROS));
        min_seen = min_seen.min(micros);
        let x = f64::from(micros);
        sum += x;
        sum_sq += x * x;
    }
    let mean = sum / n as f64;
    let var = (sum_sq / n as f64) - mean * mean;
    let cv = var.sqrt() / mean;

    let mean_err =
        (mean - SENDER_MEAN_DELAY_MICROS as f64).abs() / SENDER_MEAN_DELAY_MICROS as f64;
    assert!(mean_err < 0.05, "sample mean {mean:.0}µs");
    assert!(
        (0.9..=1.1).contains(&cv),
        "coefficient of variation {cv:.3} is not ~1 — delays are not exponential"
    );
    assert!(
        min_seen >= 1,
        "0 is reserved for 'unset'; sender must emit ≥1µs"
    );
}

#[test]
fn sender_delays_stay_within_the_field() {
    let sched = PoissonScheduler::new(SENDER_MEAN_DELAY_MICROS);
    assert_eq!(sender_hop_delay_micros(&sched, Duration::ZERO), 1);
    assert_eq!(sender_hop_delay_micros(&sched, Duration::from_nanos(999)), 1);
    assert_eq!(
        sender_hop_delay_micros(&sched, Duration::from_nanos(12_345_678)),
        12_345
    );
    assert_eq!(
        sender_hop_delay_micros(&sched, Duration::from_secs(3600)),
        2_000_000
    );
    let slow = PoissonScheduler::new(u64::MAX);
    assert_eq!(
        sender_hop_delay_micros(&slow, Duration::from_secs(86_400)),
        u32::MAX
    );
}
