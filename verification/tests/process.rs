use crypto_gotham_relay::addr::SocketAddrV4;
use crypto_gotham_relay::process::{
    HopRecord, OpenFailure, OpenedHeader, ParsedHeader, HEADER_LEN, PACKET_SIZE,
};
use crypto_gotham_relay::rate_limit::PACKET_PER_SECOND;
use crypto_gotham_relay::{DropReason, ProcessOutcome, Relay};
use rand::{RngCore, SeedableRng};
use rand_chacha::ChaCha20Rng;
use std::cell::Cell;
use std::time::Duration;
use x25519_dalek::{x25519, PublicKey, StaticSecret};

// A small onion codec with the layout of the real one: version at 0, the
// sender's key at 4, five record slots of 64 bytes at 36, the MAC at 356, and a
// trailer at 372. Streams come from ChaCha20 and the MAC is a polynomial.

const VERSION: u8 = 3;
const LAST_HOP: u8 = 1;
const VIA_RENDEZVOUS: u8 = 2;

fn stream(shared: &[u8; 32], label: u8, data: &mut [u8]) {
    let mut seed = *shared;
    seed[0] ^= label;
    let mut mask = vec![0u8; data.len()];
    ChaCha20Rng::from_seed(seed).fill_bytes(&mut mask);
    for (d, m) in data.iter_mut().zip(mask) {
        *d ^= m;
    }
}

fn mac(shared: &[u8; 32], header: &[u8]) -> [u8; 16] {
    let mut key = [0u8; 16];
    stream(shared, 7, &mut key);
    let factor = u128::from_be_bytes(key) | 1;
    let mut sum = 0u128;
    let authenticated = header[..100].iter().chain(header[372..384].iter());
    for b in authenticated {
        sum = sum.wrapping_add(u128::from(*b) + 1).wrapping_mul(factor);
    }
    sum.to_be_bytes()
}

struct Record {
    next_ipv4: [u8; 4],
    next_port: u16,
    next_node_id: [u8; 32],
    next_gamma: [u8; 16],
    delay_micros: u32,
    flag: u8,
}

fn encode_record(r: &Record) -> [u8; 64] {
    let mut out = [0u8; 64];
    out[..4].copy_from_slice(&r.next_ipv4);
    out[4..6].copy_from_slice(&r.next_port.to_be_bytes());
    out[6..38].copy_from_slice(&r.next_node_id);
    out[38..54].copy_from_slice(&r.next_gamma);
    out[54..58].copy_from_slice(&r.delay_micros.to_be_bytes());
    out[58] = r.flag;
    out
}

fn parse(header: [u8; 384]) -> Option<ParsedHeader<[u8; 384]>> {
    if header[0] != VERSION && header[0] != 2 {
        return None;
    }
    Some(ParsedHeader {
        version: header[0],
        alpha: header[4..36].try_into().unwrap(),
        gamma: header[356..372].try_into().unwrap(),
        header,
    })
}

fn open(
    header: [u8; 384],
    shared: [u8; 32],
) -> Result<OpenedHeader<[u8; 32]>, OpenFailure> {
    if mac(&shared, &header) != header[356..372] {
        return Err(OpenFailure::BadMac);
    }
    let mut slot: [u8; 64] = header[36..100].try_into().unwrap();
    stream(&shared, 1, &mut slot);
    let mut next = header;
    next[36..292].copy_from_slice(&header[100..356]);
    next[292..356].fill(0);
    next[356..372].copy_from_slice(&slot[38..54]);
    Ok(OpenedHeader {
        record: HopRecord {
            next_ipv4: slot[..4].try_into().unwrap(),
            next_port: u16::from_be_bytes(slot[4..6].try_into().unwrap()),
            next_node_id: slot[6..38].try_into().unwrap(),
            delay_micros: u32::from_be_bytes(slot[54..58].try_into().unwrap()),
            last_hop: slot[58] & LAST_HOP != 0,
            via_rendezvous: slot[58] & VIA_RENDEZVOUS != 0,
        },
        next_header: next,
        payload_key: shared,
    })
}

fn peel(key: [u8; 32], mut region: Vec<u8>) -> Vec<u8> {
    stream(&key, 2, &mut region);
    region
}

fn run(relay: &mut Relay, packet: &[u8]) -> ProcessOutcome {
    relay.process(packet, parse, open, || Duration::ZERO, peel)
}

fn rng() -> ChaCha20Rng {
    ChaCha20Rng::seed_from_u64(0xFEED_FACE)
}

fn public(sk: [u8; 32]) -> [u8; 32] {
    PublicKey::from(&StaticSecret::from(sk)).to_bytes()
}

fn build_packet(
    rng: &mut ChaCha20Rng,
    relay_sks: &[[u8; 32]],
    mut records: Vec<Record>,
    version: u8,
) -> Vec<u8> {
    let mut ephemeral = [0u8; 32];
    rng.fill_bytes(&mut ephemeral);
    let alpha = public(ephemeral);
    let shared: Vec<[u8; 32]> = relay_sks
        .iter()
        .map(|sk| x25519(ephemeral, public(*sk)))
        .collect();
    let mut header = vec![0u8; HEADER_LEN];
    header[0] = version;
    header[4..36].copy_from_slice(&alpha);
    rng.fill_bytes(&mut header[372..384]);
    let mut beta = vec![0u8; 320];
    let mut gamma = [0u8; 16];
    for i in (0..relay_sks.len()).rev() {
        records[i].next_gamma = gamma;
        let mut slot = encode_record(&records[i]);
        stream(&shared[i], 1, &mut slot);
        beta.copy_within(0..256, 64);
        beta[..64].copy_from_slice(&slot);
        header[36..356].copy_from_slice(&beta);
        gamma = mac(&shared[i], &header);
    }
    header[356..372].copy_from_slice(&gamma);
    let mut region = expected_payload();
    for s in shared.iter().rev() {
        stream(s, 2, &mut region);
    }
    header.extend_from_slice(&region);
    header
}

fn build_packet_for_relays(
    rng: &mut ChaCha20Rng,
    relay_sks: &[[u8; 32]],
) -> (Vec<u8>, Vec<[u8; 32]>) {
    let n = relay_sks.len();
    let pks: Vec<[u8; 32]> = relay_sks.iter().map(|sk| public(*sk)).collect();
    let records = (0..n)
        .map(|i| Record {
            next_ipv4: [10, 0, 0, i as u8 + 1],
            next_port: 9000 + i as u16,
            next_node_id: if i + 1 < n { pks[i + 1] } else { [0xEE; 32] },
            next_gamma: [0; 16],
            delay_micros: 0,
            flag: if i + 1 == n { LAST_HOP } else { 0 },
        })
        .collect();
    (build_packet(rng, relay_sks, records, VERSION), pks)
}

fn expected_payload() -> Vec<u8> {
    (0..PACKET_SIZE - HEADER_LEN)
        .map(|i| (i % 256) as u8)
        .collect()
}

fn outcome_kind(o: &ProcessOutcome) -> &'static str {
    match o {
        ProcessOutcome::Drop(_) => "Drop",
        ProcessOutcome::Forward { .. } => "Forward",
        ProcessOutcome::DeliverLocal { .. } => "DeliverLocal",
    }
}

#[test]
fn forwards_a_packet_through_three_hops() {
    let mut rng = rng();
    let sks: Vec<[u8; 32]> = (0..3).map(|i| [i as u8 + 1; 32]).collect();
    let (mut packet, _pks) = build_packet_for_relays(&mut rng, &sks);

    let mut relay0 = Relay::new(sks[0], 1000, Duration::from_secs(60), 0);
    packet = match run(&mut relay0, &packet) {
        ProcessOutcome::Forward { packet, .. } => packet,
        other => panic!("hop 0: expected Forward, got {:?}", outcome_kind(&other)),
    };

    let mut relay1 = Relay::new(sks[1], 1000, Duration::from_secs(60), 0);
    packet = match run(&mut relay1, &packet) {
        ProcessOutcome::Forward { packet, .. } => packet,
        other => panic!("hop 1: expected Forward, got {:?}", outcome_kind(&other)),
    };

    let mut relay2 = Relay::new(sks[2], 1000, Duration::from_secs(60), 0);
    match run(&mut relay2, &packet) {
        ProcessOutcome::DeliverLocal { payload, .. } => {
            assert_eq!(payload.len(), PACKET_SIZE - HEADER_LEN);
            assert_eq!(
                payload,
                expected_payload(),
                "exit did not recover the original payload"
            );
        }
        other => panic!(
            "hop 2: expected DeliverLocal, got {:?}",
            outcome_kind(&other)
        ),
    }
}

#[test]
fn rendezvous_flag_yields_via_rendezvous_forward() {
    let mut rng = rng();
    let sks: Vec<[u8; 32]> = (0..2).map(|i| [i as u8 + 40; 32]).collect();
    let pks: Vec<[u8; 32]> = sks.iter().map(|sk| public(*sk)).collect();
    let records = vec![
        Record {
            next_ipv4: [0, 0, 0, 0],
            next_port: 0,
            next_node_id: pks[1],
            next_gamma: [0; 16],
            delay_micros: 0,
            flag: VIA_RENDEZVOUS,
        },
        Record {
            next_ipv4: [10, 0, 0, 9],
            next_port: 9000,
            next_node_id: [0xEE; 32],
            next_gamma: [0; 16],
            delay_micros: 0,
            flag: LAST_HOP,
        },
    ];
    let packet = build_packet(&mut rng, &sks, records, VERSION);

    let mut r = Relay::new(sks[0], 1000, Duration::from_secs(60), 0);
    match run(&mut r, &packet) {
        ProcessOutcome::Forward {
            via_rendezvous,
            next_node_id,
            next_addr,
            ..
        } => {
            assert!(
                via_rendezvous,
                "VIA_RENDEZVOUS flag must set via_rendezvous"
            );
            assert_eq!(
                next_node_id, pks[1],
                "must address the hosted relay by identity"
            );
            assert_eq!(
                next_addr,
                SocketAddrV4 {
                    ip: [0, 0, 0, 0],
                    port: 0
                },
                "rendezvous record must carry the zero sentinel address"
            );
        }
        other => panic!("expected Forward, got {:?}", outcome_kind(&other)),
    }
}

#[test]
fn a_hop_that_is_addressed_by_identity_has_no_address() {
    let relay = Relay::new([7; 32], 10, Duration::from_secs(60), 0);
    let record = |via_rendezvous| HopRecord {
        next_ipv4: [10, 0, 0, 1],
        next_port: 9000,
        next_node_id: [8; 32],
        delay_micros: 0,
        last_hop: false,
        via_rendezvous,
    };
    let addr_of = |via| {
        match relay.dispose(record(via), &[1; 384], Duration::ZERO, vec![2; 1664]) {
            ProcessOutcome::Forward { next_addr, .. } => next_addr,
            other => panic!("expected Forward, got {:?}", outcome_kind(&other)),
        }
    };
    assert_eq!(
        addr_of(true),
        SocketAddrV4 {
            ip: [0; 4],
            port: 0
        }
    );
    assert_eq!(
        addr_of(false),
        SocketAddrV4 {
            ip: [10, 0, 0, 1],
            port: 9000
        }
    );
}

#[test]
fn ordinary_forward_is_not_via_rendezvous() {
    let mut rng = rng();
    let sks: Vec<[u8; 32]> = (0..3).map(|i| [i as u8 + 1; 32]).collect();
    let (packet, pks) = build_packet_for_relays(&mut rng, &sks);
    let mut r = Relay::new(sks[0], 1000, Duration::from_secs(60), 0);
    match run(&mut r, &packet) {
        ProcessOutcome::Forward {
            via_rendezvous,
            next_addr,
            next_node_id,
            packet,
            ..
        } => {
            assert!(!via_rendezvous, "a normal hop must not be via_rendezvous");
            assert_eq!(
                next_addr,
                SocketAddrV4 {
                    ip: [10, 0, 0, 1],
                    port: 9000
                }
            );
            assert_eq!(next_node_id, pks[1]);
            assert_eq!(packet.len(), PACKET_SIZE);
        }
        other => panic!("expected Forward, got {:?}", outcome_kind(&other)),
    }
}

#[test]
fn payload_bytes_differ_at_every_hop() {
    let mut rng = rng();
    let sks: Vec<[u8; 32]> = (0..3).map(|i| [i as u8 + 1; 32]).collect();
    let (packet, _pks) = build_packet_for_relays(&mut rng, &sks);
    let on_wire_entry = packet[HEADER_LEN..].to_vec();

    let mut relay0 = Relay::new(sks[0], 1000, Duration::from_secs(60), 0);
    let p1 = match run(&mut relay0, &packet) {
        ProcessOutcome::Forward { packet, .. } => packet,
        _ => panic!("hop 0 should forward"),
    };
    let on_wire_mid = p1[HEADER_LEN..].to_vec();

    let mut relay1 = Relay::new(sks[1], 1000, Duration::from_secs(60), 0);
    let p2 = match run(&mut relay1, &p1) {
        ProcessOutcome::Forward { packet, .. } => packet,
        _ => panic!("hop 1 should forward"),
    };
    let on_wire_pre_exit = p2[HEADER_LEN..].to_vec();

    assert_ne!(on_wire_entry, on_wire_mid);
    assert_ne!(on_wire_mid, on_wire_pre_exit);
    assert_ne!(on_wire_entry, on_wire_pre_exit);
    assert_ne!(on_wire_entry, expected_payload());
    assert_ne!(on_wire_pre_exit, expected_payload());

    let mut relay2 = Relay::new(sks[2], 1000, Duration::from_secs(60), 0);
    match run(&mut relay2, &p2) {
        ProcessOutcome::DeliverLocal { payload, .. } => {
            assert_eq!(payload, expected_payload());
        }
        _ => panic!("hop 2 should deliver"),
    }
}

#[test]
fn replayed_packet_is_dropped() {
    let mut rng = rng();
    let sks: Vec<[u8; 32]> = (0..2).map(|i| [(i + 1) as u8; 32]).collect();
    let (packet, _) = build_packet_for_relays(&mut rng, &sks);

    let mut relay = Relay::new(sks[0], 1000, Duration::from_secs(60), 0);
    let r1 = run(&mut relay, &packet);
    assert!(!r1.is_drop(), "first delivery should succeed");

    let r2 = run(&mut relay, &packet);
    assert!(matches!(r2, ProcessOutcome::Drop(DropReason::Replay)));
}

#[test]
fn a_forged_packet_cannot_poison_the_replay_cache() {
    let mut rng = rng();
    let sks: Vec<[u8; 32]> = (0..2).map(|i| [(i + 1) as u8; 32]).collect();
    let (packet, _) = build_packet_for_relays(&mut rng, &sks);

    let mut forged = packet.clone();
    forged[50] ^= 0xff;

    let mut relay = Relay::new(sks[0], 1000, Duration::from_secs(60), 0);
    let bad = run(&mut relay, &forged);
    assert!(bad.is_drop(), "the forgery must be dropped");
    assert_eq!(
        relay.replay_cache_len(),
        0,
        "a packet that failed authentication must not consume a cache slot",
    );

    let good = run(&mut relay, &packet);
    assert!(
        !good.is_drop(),
        "the genuine packet must survive a forgery that reused its γ",
    );
}

#[test]
fn malformed_size_dropped() {
    let mut relay = Relay::new([7u8; 32], 100, Duration::from_secs(60), 0);
    let short = vec![0u8; 1024];
    assert!(matches!(
        run(&mut relay, &short),
        ProcessOutcome::Drop(DropReason::Malformed)
    ));
}

#[test]
fn tampered_mac_dropped() {
    let mut rng = rng();
    let sks: Vec<[u8; 32]> = (0..2).map(|i| [(i + 1) as u8; 32]).collect();
    let (mut packet, _) = build_packet_for_relays(&mut rng, &sks);
    packet[360] ^= 0x02;
    let mut relay = Relay::new(sks[0], 100, Duration::from_secs(60), 0);
    assert!(matches!(
        run(&mut relay, &packet),
        ProcessOutcome::Drop(DropReason::BadMac)
    ));
}

#[test]
fn replay_cache_len_observable() {
    let mut rng = rng();
    let sks: Vec<[u8; 32]> = (0..2).map(|i| [(i + 1) as u8; 32]).collect();
    let mut relay = Relay::new(sks[0], 100, Duration::from_secs(60), 0);
    assert_eq!(relay.replay_cache_len(), 0);
    let (packet, _) = build_packet_for_relays(&mut rng, &sks);
    let _ = run(&mut relay, &packet);
    assert_eq!(relay.replay_cache_len(), 1);
}

#[test]
fn rate_limit_sheds_a_flood_before_crypto() {
    let mut rng = rng();
    let sks: Vec<[u8; 32]> = (0..2).map(|i| [(i + 1) as u8; 32]).collect();
    let (packet, _) = build_packet_for_relays(&mut rng, &sks);

    let mut relay = Relay::new(sks[0], 100_000, Duration::from_secs(60), 0)
        .with_rate_limit(5 * PACKET_PER_SECOND, 0);
    let mut rate_limited = 0usize;
    let parsed = Cell::new(0usize);
    for _ in 0..200 {
        let outcome = relay.process(
            &packet,
            |header| {
                parsed.set(parsed.get() + 1);
                parse(header)
            },
            open,
            || Duration::ZERO,
            peel,
        );
        if matches!(outcome, ProcessOutcome::Drop(DropReason::RateLimited)) {
            rate_limited += 1;
        }
    }
    assert!(
        rate_limited > 150,
        "expected the bulk of a 200-packet flood to be rate-limited, got {rate_limited}"
    );
    assert_eq!(parsed.get() + rate_limited, 200);
}

#[test]
fn unlimited_relay_never_rate_limits() {
    let mut rng = rng();
    let sks: Vec<[u8; 32]> = (0..2).map(|i| [(i + 1) as u8; 32]).collect();
    let (packet, _) = build_packet_for_relays(&mut rng, &sks);
    let mut relay = Relay::new(sks[0], 100_000, Duration::from_secs(60), 0);
    for _ in 0..500 {
        assert!(!matches!(
            run(&mut relay, &packet),
            ProcessOutcome::Drop(DropReason::RateLimited)
        ));
    }
}

fn one_hop(rng: &mut ChaCha20Rng, sk: [u8; 32], delay_micros: u32, flag: u8, next: [u8; 32]) -> Vec<u8> {
    let record = Record {
        next_ipv4: [192, 0, 2, 1],
        next_port: 443,
        next_node_id: next,
        next_gamma: [0; 16],
        delay_micros,
        flag,
    };
    build_packet(rng, &[sk], vec![record], VERSION)
}

#[test]
fn the_sender_chooses_the_hold_up_to_thirty_seconds() {
    let mut rng = rng();
    let sk = [9u8; 32];
    for (asked, held) in [
        (1u32, Duration::from_micros(1)),
        (1_500_000, Duration::from_micros(1_500_000)),
        (30_000_000, Duration::from_secs(30)),
        (u32::MAX, Duration::from_secs(30)),
    ] {
        let mut relay = Relay::new(sk, 100, Duration::from_secs(60), 500_000);
        let packet = one_hop(&mut rng, sk, asked, LAST_HOP, [0; 32]);
        match relay.process(&packet, parse, open, || panic!("no draw is due"), peel) {
            ProcessOutcome::DeliverLocal { delay, .. } => assert_eq!(delay, held),
            other => panic!("got {}", outcome_kind(&other)),
        }
    }
}

#[test]
fn a_hold_left_unset_is_the_relays_own_draw() {
    let mut rng = rng();
    let sk = [9u8; 32];
    for (drawn, held) in [
        (Duration::from_millis(3), Duration::from_millis(3)),
        (Duration::from_secs(10), Duration::from_millis(100)),
    ] {
        let mut relay = Relay::new(sk, 100, Duration::from_secs(60), 1_000);
        assert_eq!(relay.scheduler().mean_delay_micros(), 1_000);
        let packet = one_hop(&mut rng, sk, 0, LAST_HOP, [0; 32]);
        match relay.process(&packet, parse, open, || drawn, peel) {
            ProcessOutcome::DeliverLocal { delay, .. } => assert_eq!(delay, held),
            other => panic!("got {}", outcome_kind(&other)),
        }
    }
}

#[test]
fn a_packet_to_the_relay_itself_is_denied_and_remembered() {
    let mut rng = rng();
    let sk = [9u8; 32];
    let mut relay = Relay::new(sk, 100, Duration::from_secs(60), 0);
    assert_eq!(relay.identity_public_key(), public(sk));
    let packet = one_hop(&mut rng, sk, 1, 0, public(sk));
    assert!(matches!(
        run(&mut relay, &packet),
        ProcessOutcome::Drop(DropReason::PolicyDenied)
    ));
    assert_eq!(relay.replay_cache_len(), 1);
}

#[test]
fn legacy_headers_are_counted_or_refused() {
    let mut rng = rng();
    let sk = [9u8; 32];
    let record = || Record {
        next_ipv4: [0; 4],
        next_port: 0,
        next_node_id: [0; 32],
        next_gamma: [0; 16],
        delay_micros: 1,
        flag: LAST_HOP,
    };
    let packet = build_packet(&mut rng, &[sk], vec![record()], 2);
    let mut lenient = Relay::new(sk, 100, Duration::from_secs(60), 0);
    assert!(!lenient.legacy_notice_due());
    assert!(!run(&mut lenient, &packet).is_drop());
    assert_eq!(lenient.legacy_accepted(), 1);
    assert!(lenient.legacy_notice_due());
    let again = build_packet(&mut rng, &[sk], vec![record()], 2);
    assert!(!run(&mut lenient, &again).is_drop());
    assert_eq!(lenient.legacy_accepted(), 2);
    assert!(!lenient.legacy_notice_due());

    let mut strict = Relay::new(sk, 100, Duration::from_secs(60), 0).strict_header_v3();
    assert!(matches!(
        run(&mut strict, &packet),
        ProcessOutcome::Drop(DropReason::Malformed)
    ));
    assert_eq!(strict.legacy_accepted(), 0);
    assert_eq!(strict.replay_cache_len(), 0);
}

#[test]
fn a_header_that_does_not_parse_or_open_is_malformed() {
    let mut rng = rng();
    let sk = [9u8; 32];
    let packet = one_hop(&mut rng, sk, 1, LAST_HOP, [0; 32]);
    let mut relay = Relay::new(sk, 100, Duration::from_secs(60), 0);
    let mut unknown = packet.clone();
    unknown[0] = 9;
    assert!(matches!(
        run(&mut relay, &unknown),
        ProcessOutcome::Drop(DropReason::Malformed)
    ));
    let outcome = relay.process(
        &packet,
        parse,
        |_: [u8; 384], _| Err::<OpenedHeader<[u8; 32]>, _>(OpenFailure::Malformed),
        || Duration::ZERO,
        peel,
    );
    assert!(matches!(
        outcome,
        ProcessOutcome::Drop(DropReason::Malformed)
    ));
    assert_eq!(relay.replay_cache_len(), 0);
}

#[test]
fn a_relay_keeps_its_cache_across_a_restart() {
    let mut rng = rng();
    let sk = [9u8; 32];
    let packet = one_hop(&mut rng, sk, 1, LAST_HOP, [0; 32]);
    let (mut relay, restored) = Relay::new(sk, 100, Duration::from_secs(60), 0)
        .with_replay_persistence("/var/lib/replay.bin".to_string(), None);
    assert_eq!(restored, Ok(0));
    assert!(relay.persists_replay());
    assert!(!run(&mut relay, &packet).is_drop());
    let (stored, n, path) = relay.persist_replay().unwrap();
    assert_eq!((n, path.as_str()), (1, "/var/lib/replay.bin"));
    assert_eq!(relay.encode_replay().unwrap().0.len(), stored.len());

    let (mut again, restored) = Relay::new(sk, 100, Duration::from_secs(60), 0)
        .with_replay_persistence(path, Some(&stored));
    assert_eq!(restored, Ok(1));
    assert!(matches!(
        run(&mut again, &packet),
        ProcessOutcome::Drop(DropReason::Replay)
    ));

    let forgetful = Relay::new(sk, 100, Duration::from_secs(60), 0);
    assert!(!forgetful.persists_replay());
    assert!(forgetful.encode_replay().is_none());
    assert!(forgetful.persist_replay().is_none());
}
