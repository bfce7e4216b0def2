use crypto_gotham_relay::enroll_client::{
    attach_pop_proof, base_enrollment, first_wait, now_unix, parse_tier, pop_url, EnrollConfig,
    EnrollLoop, EnrollReply, RelayEnrollment, RelayTier,
};
use crypto_gotham_relay::keyfile::encode_hex;
use std::time::Duration;
use x25519_dalek::{x25519, PublicKey, StaticSecret};

#[test]
fn parse_tier_maps_known_values() {
    assert_eq!(parse_tier("entry").unwrap(), RelayTier::Entry);
    assert_eq!(parse_tier("MIX").unwrap(), RelayTier::Mix);
    assert_eq!(parse_tier("").unwrap(), RelayTier::Mix);
    assert_eq!(parse_tier(" exit ").unwrap(), RelayTier::Exit);
    assert!(parse_tier("all").is_err());
    assert_eq!(
        parse_tier(" Relay ").unwrap_err(),
        "unknown tier `relay` — use entry|mix|exit"
    );
}

fn cfg_for(kem_hex: String, extra: Vec<String>) -> EnrollConfig {
    EnrollConfig {
        authority_url: "http://a1:8443".into(),
        extra_authority_urls: extra,
        advertise_addr: "203.0.113.7:443".into(),
        kem_pubkey_hex: kem_hex,
        tier: RelayTier::Mix,
        token: None,
        country: None,
        operator: Some("op".into()),
        heartbeat: Duration::from_secs(60),
        rendezvous: None,
        rendezvous_capable: false,
        mailbox: false,
        relay_sk: [9u8; 32],
        authority_pop_pk: None,
    }
}

/// Stands for the tag: the shared secret and the number.
fn tag(shared: &[u8; 32], e: &RelayEnrollment) -> Vec<u8> {
    let mut t = shared.to_vec();
    t.push(e.seq as u8);
    t
}

#[test]
fn base_enrollment_carries_the_shared_admission_epoch() {
    let kem = encode_hex(&[3u8; 32]);
    let cfg = cfg_for(
        kem.clone(),
        vec!["http://a2:8443".into(), "http://a3:8443".into()],
    );
    let e = base_enrollment(&cfg, 42, 1_700_000_000);
    assert_eq!(
        e.attest_epoch,
        Some(1_700_000_000),
        "epoch is threaded onto the enrollment"
    );
    assert_eq!(e.seq, 42);
    assert_eq!(e.operator.as_deref(), Some("op"));
    assert!(e.pop_proof.is_none());
    assert_eq!(e.kem_pubkey_hex, kem);
    assert_eq!(e.addr, "203.0.113.7:443");
    assert!(!e.rendezvous_capable && !e.mailbox && e.rendezvous.is_none());
}

#[test]
fn a_relay_behind_a_rendezvous_point_advertises_no_address() {
    let mut cfg = cfg_for(encode_hex(&[3u8; 32]), vec![]);
    assert_eq!(first_wait(&cfg), Duration::ZERO);
    cfg.rendezvous = Some("aa".repeat(32));
    cfg.mailbox = true;
    cfg.rendezvous_capable = true;
    let e = base_enrollment(&cfg, 1, 2);
    assert_eq!(e.addr, "");
    assert_eq!(e.rendezvous, Some("aa".repeat(32)));
    assert!(e.mailbox && e.rendezvous_capable);
    assert_eq!(first_wait(&cfg), Duration::from_secs(3));
}

#[test]
fn pop_proof_is_authority_specific_but_epoch_is_shared() {
    let public = |sk: [u8; 32]| PublicKey::from(&StaticSecret::from(sk)).to_bytes();
    let kem = encode_hex(&public([9u8; 32]));
    let cfg = cfg_for(kem, vec![]);
    let pk_a = public([1u8; 32]);
    let pk_b = public([2u8; 32]);
    let ea = attach_pop_proof(base_enrollment(&cfg, 7, 1_700_000_000), &cfg, pk_a, tag);
    let eb = attach_pop_proof(base_enrollment(&cfg, 7, 1_700_000_000), &cfg, pk_b, tag);
    assert!(ea.pop_proof.is_some() && eb.pop_proof.is_some());
    assert_ne!(
        ea.pop_proof, eb.pop_proof,
        "different authorities → different proofs"
    );
    assert_eq!(
        ea.attest_epoch, eb.attest_epoch,
        "same admission epoch to both"
    );
    let mut expected = x25519([1u8; 32], public([9u8; 32])).to_vec();
    expected.push(7);
    assert_eq!(ea.pop_proof, Some(encode_hex(&expected)));
}

#[test]
fn a_malformed_own_key_proves_nothing() {
    for bad in ["zz".repeat(32), "aa".repeat(31), String::new()] {
        let cfg = cfg_for(bad, vec![]);
        let e = attach_pop_proof(base_enrollment(&cfg, 7, 1), &cfg, [1; 32], |_, _| {
            panic!("no proof is made")
        });
        assert!(e.pop_proof.is_none());
    }
}

#[test]
fn every_authority_is_a_target() {
    let mut cfg = cfg_for(
        encode_hex(&[3u8; 32]),
        vec!["http://a2:8443//".into(), "http://a3".into()],
    );
    cfg.authority_url = "http://a1:8443/".into();
    cfg.authority_pop_pk = Some([5; 32]);
    let enroll = EnrollLoop::new(&cfg, 100);
    assert_eq!(enroll.authorities(), 3);
    assert_eq!(enroll.seq(), 100);
    let first = enroll.authority(0);
    assert_eq!(first.base_url, "http://a1:8443");
    assert_eq!(first.enroll_url, "http://a1:8443/enroll");
    assert_eq!(first.pop_pk, Some([5; 32]));
    assert!(first.pinned);
    let second = enroll.authority(1);
    assert_eq!(second.enroll_url, "http://a2:8443/enroll");
    assert!(!second.pinned && second.pop_pk.is_none());
    assert!(!enroll.needs_pop_key(0) && enroll.needs_pop_key(1));
    assert_eq!(pop_url("http://a3/"), "http://a3/pop");
}

#[test]
fn a_refused_proof_forgets_a_fetched_key_and_keeps_a_pinned_one() {
    let mut cfg = cfg_for(encode_hex(&[3u8; 32]), vec!["http://a2".into()]);
    cfg.authority_pop_pk = Some([5; 32]);
    let mut enroll = EnrollLoop::new(&cfg, 1);
    enroll.fetched_pop_key(1, Some([6; 32]));
    let refusal = || EnrollReply::Rejected("bad possession proof for kem".to_string());
    enroll.on_reply(0, refusal());
    enroll.on_reply(1, EnrollReply::Rejected("token missing".to_string()));
    assert!(!enroll.needs_pop_key(0) && !enroll.needs_pop_key(1));
    enroll.on_reply(1, EnrollReply::Failed);
    assert!(!enroll.needs_pop_key(1));
    enroll.on_reply(1, refusal());
    assert!(!enroll.needs_pop_key(0) && enroll.needs_pop_key(1));
    enroll.fetched_pop_key(1, None);
    assert!(enroll.needs_pop_key(1));
}

#[test]
fn enrollments_differ_in_their_proof_alone() {
    let cfg = cfg_for(encode_hex(&[3u8; 32]), vec!["http://a2".into()]);
    let mut enroll = EnrollLoop::new(&cfg, 50);
    enroll.fetched_pop_key(0, Some([6; 32]));
    let base = base_enrollment(&cfg, enroll.seq(), 9);
    let proven = enroll.enrollment_for(0, &cfg, &base, tag);
    let bare = enroll.enrollment_for(1, &cfg, &base, tag);
    assert!(proven.pop_proof.is_some());
    assert!(bare.pop_proof.is_none());
    assert_eq!(proven.seq, 50);
    assert_eq!(bare.seq, 50);
    assert_eq!(proven.attest_epoch, bare.attest_epoch);
    assert_eq!(proven.operator, bare.operator);
}

#[test]
fn waits_double_until_listed_and_then_settle() {
    let cfg = cfg_for(encode_hex(&[3u8; 32]), vec![]);
    let mut enroll = EnrollLoop::new(&cfg, 1);
    for (i, secs) in [5u64, 10, 20, 40, 60, 60, 60].iter().enumerate() {
        enroll.on_reply(0, EnrollReply::Failed);
        assert_eq!(enroll.end_round(&cfg), Duration::from_secs(*secs));
        assert_eq!(enroll.seq(), i as u64 + 2);
    }
    enroll.on_reply(0, EnrollReply::Accepted);
    assert_eq!(enroll.end_round(&cfg), Duration::from_secs(60));
    enroll.on_reply(0, EnrollReply::Failed);
    assert_eq!(enroll.end_round(&cfg), cfg.heartbeat);
}

#[test]
fn numbers_do_not_outrun_the_clock() {
    let mut cfg = cfg_for(encode_hex(&[3u8; 32]), vec![]);
    cfg.heartbeat = Duration::from_secs(1);
    let mut enroll = EnrollLoop::new(&cfg, 1_000);
    let mut clock = Duration::from_secs(1_000);
    for round in 0..20 {
        let last_used = enroll.seq();
        enroll.on_reply(0, if round < 3 { EnrollReply::Failed } else { EnrollReply::Accepted });
        clock += enroll.end_round(&cfg);
        let anew = EnrollLoop::new(&cfg, clock.as_secs());
        assert!(anew.seq() > last_used);
    }
}

#[test]
fn numbers_stop_at_the_top_and_start_with_the_clock() {
    let cfg = cfg_for(encode_hex(&[3u8; 32]), vec![]);
    let mut enroll = EnrollLoop::new(&cfg, u64::MAX);
    enroll.end_round(&cfg);
    assert_eq!(enroll.seq(), u64::MAX);
    assert!(now_unix() > 1_600_000_000);
}
