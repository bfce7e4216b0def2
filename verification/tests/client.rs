use crypto_gotham_relay::client::{
    clamp_scalar, hop_count_for_mode, Mode, PathHop, Shipment,
};
use crypto_gotham_relay::cover_loop::{
    build_cover_payload, cover_body_len, failure_text, has_real, next_emission, CoverIntent,
    Emission, COVER_BODY_MAX, COVER_BODY_MIN, DUMMY_PAYLOAD_SIZE,
};
use crypto_gotham_relay::process::{HopRecord, HEADER_LEN, PACKET_SIZE};
use crypto_gotham_relay::transport::delivery::{frame_envelope, unframe_envelope};
use crypto_gotham_relay::{
    ClientError, GothamClient, QueuedMessage, QueuedPacket, TransportError, MAX_PAYLOAD_SIZE,
};
use rand::{RngCore, SeedableRng};
use rand_chacha::ChaCha20Rng;
use std::collections::{HashSet, VecDeque};
use std::time::Duration;

fn hop(i: u8) -> PathHop<String> {
    PathHop {
        kem_pubkey: Some([i; 32]),
        ipv4: Some([10, 0, 0, i]),
        port: Some(9000 + u16::from(i)),
        dial: Some(format!("10.0.0.{i}:{}", 9000 + u16::from(i))),
    }
}

fn path(n: usize) -> Option<Vec<PathHop<String>>> {
    Some((1..=n).map(|i| hop(i as u8)).collect())
}

/// Stands for one hop's layer: adds a number of its own to every byte.
fn layer(secrets: &Vec<u8>, i: usize, mut region: Vec<u8>) -> Vec<u8> {
    for (j, b) in region.iter_mut().enumerate() {
        *b = b.wrapping_add(secrets[i]).rotate_left(1 + (j % 3) as u32);
    }
    region
}

fn unlayer(secret: u8, region: &mut [u8]) {
    for (j, b) in region.iter_mut().enumerate() {
        *b = b.rotate_right(1 + (j % 3) as u32).wrapping_sub(secret);
    }
}

fn derive(keys: &Vec<[u8; 32]>) -> Option<Vec<u8>> {
    Some(keys.iter().map(|k| k[0].wrapping_mul(37)).collect())
}

fn client() -> GothamClient {
    GothamClient::new([0xff; 32])
}

fn send_with(
    found: Option<Vec<PathHop<String>>>,
    hop_count: usize,
    payload: &[u8],
) -> Result<Shipment<String>, ClientError> {
    client().send(
        hop_count,
        payload,
        |_| found,
        derive,
        |_| Duration::from_millis(7),
        |_: &Vec<u8>, _: &Vec<HopRecord>| Some([0xAA; HEADER_LEN]),
        layer,
    )
}

#[test]
fn hop_count_for_mode_table() {
    assert_eq!(hop_count_for_mode(Some(Mode::LowLatency)), Some(3));
    assert_eq!(hop_count_for_mode(Some(Mode::Balanced)), Some(4));
    assert_eq!(hop_count_for_mode(Some(Mode::Paranoid)), Some(5));
    assert_eq!(hop_count_for_mode(None), None);
}

#[test]
fn client_sends_through_3_hop_path() {
    let payload = b"hello from gotham client v0.1";
    let shipment = client()
        .send(
            3,
            payload,
            |n| {
                assert_eq!(n, 3);
                path(n)
            },
            |keys: &Vec<[u8; 32]>| {
                assert_eq!(keys, &vec![[1; 32], [2; 32], [3; 32]]);
                derive(keys)
            },
            |i| Duration::from_millis(7 + i as u64),
            |_: &Vec<u8>, records: &Vec<HopRecord>| {
                assert_eq!(records.len(), 3);
                for (i, r) in records.iter().enumerate() {
                    assert_eq!(r.delay_micros, 7_000 + 1_000 * i as u32);
                    assert!(!r.via_rendezvous);
                    assert_eq!(r.last_hop, i == 2);
                }
                assert_eq!(records[0].next_ipv4, [10, 0, 0, 2]);
                assert_eq!(records[0].next_port, 9002);
                assert_eq!(records[0].next_node_id, [2; 32]);
                assert_eq!(records[1].next_node_id, [3; 32]);
                assert_eq!(records[2].next_node_id, [0; 32]);
                assert_eq!(records[2].next_ipv4, [0; 4]);
                assert_eq!(records[2].next_port, 0);
                Some([0xAA; HEADER_LEN])
            },
            layer,
        )
        .ok()
        .expect("send");
    assert_eq!(shipment.entry, "10.0.0.1:9001");
    assert_eq!(shipment.entry_pk, [1; 32]);
    assert_eq!(shipment.packet.len(), PACKET_SIZE);
    assert_eq!(&shipment.packet[..HEADER_LEN], &[0xAA; HEADER_LEN]);

    // Each hop removes its layer in turn, and the last finds the payload.
    let mut region = shipment.packet[HEADER_LEN..].to_vec();
    let secrets = derive(&vec![[1; 32], [2; 32], [3; 32]]).unwrap();
    for (i, s) in secrets.iter().enumerate() {
        assert_ne!(&region[..payload.len()], payload, "hop {i} sees a layer");
        unlayer(*s, &mut region);
    }
    assert_eq!(&region[..payload.len()], payload);
    assert!(region[payload.len()..].iter().all(|b| *b == 0));
}

#[test]
fn client_rejects_oversized_payload() {
    let oversized = vec![0u8; MAX_PAYLOAD_SIZE + 1];
    let err = send_with(None, 3, &oversized).err().unwrap();
    assert!(matches!(err, ClientError::PayloadTooLarge));
    assert!(send_with(path(3), 3, &oversized[1..]).is_ok());
}

#[test]
fn client_rejects_bad_hop_count() {
    let err = send_with(None, 2, b"x").err().unwrap();
    assert!(matches!(err, ClientError::BadHopCount));
    let err = send_with(None, 6, b"x").err().unwrap();
    assert!(matches!(err, ClientError::BadHopCount));
    assert!(send_with(path(5), 5, b"x").is_ok());
}

#[test]
fn client_rejects_empty_directory() {
    let err = send_with(None, 3, b"x").err().unwrap();
    assert!(matches!(err, ClientError::PathSelection));
    let err = send_with(path(0), 3, b"x").err().unwrap();
    assert!(matches!(err, ClientError::PathSelection));
}

#[test]
fn a_path_of_another_length_is_taken_as_it_is() {
    let shipment = client()
        .send(
            3,
            b"two hops will do",
            |_| path(2),
            |keys: &Vec<[u8; 32]>| {
                assert_eq!(keys, &vec![[1; 32], [2; 32]]);
                derive(keys)
            },
            |_| Duration::ZERO,
            |_: &Vec<u8>, records: &Vec<HopRecord>| {
                assert_eq!(records.len(), 2);
                assert!(!records[0].last_hop && records[1].last_hop);
                Some([0xAA; HEADER_LEN])
            },
            layer,
        )
        .ok()
        .expect("send");
    let mut region = shipment.packet[HEADER_LEN..].to_vec();
    for s in derive(&vec![[1; 32], [2; 32]]).unwrap() {
        unlayer(s, &mut region);
    }
    assert_eq!(&region[..16], b"two hops will do");
}

#[test]
fn a_directory_that_lists_a_relay_wrongly_is_named() {
    let broken = |i: usize, f: fn(&mut PathHop<String>)| {
        let mut hops = path(3).unwrap();
        f(&mut hops[i]);
        match send_with(Some(hops), 3, b"x") {
            Err(e @ ClientError::BadDirectory(_)) => e.message(),
            _ => panic!("expected a fault of the directory"),
        }
    };
    assert_eq!(
        broken(2, |h| h.kem_pubkey = None),
        "directory: relay kem pubkey malformed"
    );
    assert_eq!(broken(1, |h| h.ipv4 = None), "directory: non-ipv4 next addr");
    assert_eq!(broken(2, |h| h.port = None), "directory: bad next port");
    assert_eq!(broken(0, |h| h.dial = None), "directory: entry addr parse");
    // The entry's own octets are told to nobody.
    let mut hops = path(3).unwrap();
    hops[0].ipv4 = None;
    hops[0].port = None;
    assert!(send_with(Some(hops), 3, b"x").is_ok());
}

#[test]
fn failing_cryptography_is_reported() {
    let no_secrets = client().send(
        3,
        b"x",
        path,
        |_: &Vec<[u8; 32]>| None::<Vec<u8>>,
        |_| Duration::ZERO,
        |_: &Vec<u8>, _: &Vec<HopRecord>| panic!("no header without secrets"),
        layer,
    );
    assert!(matches!(no_secrets, Err(ClientError::Crypto)));
    let no_header = client().send(
        3,
        b"x",
        path,
        derive,
        |_| Duration::ZERO,
        |_: &Vec<u8>, records: &Vec<HopRecord>| {
            assert!(records.iter().all(|r| r.delay_micros == 1));
            None
        },
        layer,
    );
    assert!(matches!(no_header, Err(ClientError::Crypto)));
}

#[test]
fn sealed_send_round_trips_through_3_hop_path() {
    let body = b"sealed end-to-end through 3 hops".to_vec();
    let recipient_pk = [8u8; 32];
    let sender_pk = [9u8; 32];
    let shipment = client()
        .send_sealed(
            3,
            &recipient_pk,
            &sender_pk,
            &body,
            |to: &[u8; 32], from: &[u8; 32], body: &[u8]| {
                let mut envelope = to[..12].to_vec();
                envelope.extend_from_slice(from);
                envelope.extend_from_slice(body);
                envelope.extend_from_slice(&[0x77; 16]);
                Some(envelope)
            },
            path,
            derive,
            |_| Duration::from_millis(1),
            |_: &Vec<u8>, _: &Vec<HopRecord>| Some([0; HEADER_LEN]),
            layer,
        )
        .ok()
        .expect("send_sealed");
    let mut region = shipment.packet[HEADER_LEN..].to_vec();
    for s in derive(&vec![[1; 32], [2; 32], [3; 32]]).unwrap() {
        unlayer(s, &mut region);
    }
    let envelope = unframe_envelope(&region).expect("an envelope");
    assert_eq!(&envelope[12..44], &sender_pk);
    assert_eq!(&envelope[44..44 + body.len()], &body[..]);
    assert_eq!(envelope.len(), body.len() + 60);
}

#[test]
fn sealing_fails_or_outgrows_the_packet() {
    let seal_to = |envelope: Option<Vec<u8>>| {
        client().send_sealed(
            3,
            &[0; 32],
            &[0; 32],
            b"body",
            |_: &[u8; 32], _: &[u8; 32], _: &[u8]| envelope,
            path,
            derive,
            |_| Duration::ZERO,
            |_: &Vec<u8>, _: &Vec<HopRecord>| Some([0; HEADER_LEN]),
            layer,
        )
    };
    assert!(matches!(seal_to(None), Err(ClientError::Crypto)));
    assert!(matches!(
        seal_to(Some(vec![0; MAX_PAYLOAD_SIZE - 3])),
        Err(ClientError::PayloadTooLarge)
    ));
    assert!(seal_to(Some(vec![0; MAX_PAYLOAD_SIZE - 4])).is_ok());
}

#[test]
fn client_errors_have_words() {
    assert_eq!(
        ClientError::PayloadTooLarge.message(),
        "payload exceeds 1664 bytes"
    );
    assert_eq!(
        ClientError::BadHopCount.message(),
        "hop_count must be in 3..=5"
    );
    assert_eq!(
        ClientError::PathSelection.message(),
        "path selection failed (insufficient diversity in directory)"
    );
    assert_eq!(ClientError::Crypto.message(), "crypto operation failed");
    assert_eq!(
        ClientError::Transport(TransportError::BadHandshake).message(),
        "transport: malformed handshake message"
    );
}

#[test]
fn scalars_are_clamped() {
    let sk = clamp_scalar([0xff; 32]);
    assert_eq!(sk[0], 248);
    assert_eq!(sk[31], 127);
    assert!(sk[1..31].iter().all(|b| *b == 0xff));
    let sk = clamp_scalar([0; 32]);
    assert_eq!(sk[0], 0);
    assert_eq!(sk[31], 64);
    assert_eq!(client().secret_key()[0], 248);
}

// ── Cover traffic ──────────────────────────────────────────────────────────

fn cover(rng: &mut ChaCha20Rng) -> Vec<u8> {
    let mut recipient = [0u8; 32];
    rng.fill_bytes(&mut recipient);
    let mut sender = [0u8; 32];
    rng.fill_bytes(&mut sender);
    let mut pick = [0u8; 2];
    rng.fill_bytes(&mut pick);
    let mut random = [0u8; COVER_BODY_MAX];
    rng.fill_bytes(&mut random);
    build_cover_payload(&recipient, &sender, pick, &random, [0; 32], seal)
}

/// Stands for sealing: sixty bytes more than the body.
fn seal(recipient: &[u8; 32], sender: &[u8; 32], body: &[u8]) -> Option<Vec<u8>> {
    assert_ne!(recipient, sender);
    let mut envelope = vec![0x55; 60];
    envelope.extend_from_slice(body);
    Some(envelope)
}

fn real_payload(body_len: usize) -> Vec<u8> {
    frame_envelope(&seal(&[1; 32], &[2; 32], &vec![7; body_len]).unwrap()).unwrap()
}

fn looks_well_framed(p: &[u8]) -> bool {
    if p.len() < 4 {
        return false;
    }
    let declared = u32::from_be_bytes([p[0], p[1], p[2], p[3]]) as usize;
    declared == p.len() - 4
}

#[test]
fn a_cover_packet_is_framed_exactly_like_a_real_one() {
    let mut rng = ChaCha20Rng::seed_from_u64(0xC0FF_EE00);

    let mut legacy = vec![0u8; DUMMY_PAYLOAD_SIZE];
    rng.fill_bytes(&mut legacy);
    assert!(!looks_well_framed(&legacy));

    for _ in 0..256 {
        assert!(
            looks_well_framed(&cover(&mut rng)),
            "a decoy must carry a valid length prefix, like a real packet",
        );
    }
    for _ in 0..256 {
        assert!(looks_well_framed(&real_payload(200)));
    }
}

#[test]
fn cover_lengths_overlap_real_lengths_and_are_not_constant() {
    let mut rng = ChaCha20Rng::seed_from_u64(0xBEEF_0042);

    let cover: Vec<usize> = (0..512).map(|_| cover(&mut rng).len()).collect();
    let distinct = cover.iter().collect::<HashSet<_>>().len();
    assert!(
        distinct > 100,
        "decoy lengths are effectively constant ({distinct} distinct)",
    );

    let real_small = real_payload(COVER_BODY_MIN).len();
    let real_large = real_payload(COVER_BODY_MAX - 1).len();
    assert!(
        cover.iter().all(|l| *l >= real_small && *l <= real_large),
        "decoy lengths fall outside the real range",
    );
}

#[test]
fn a_decoy_that_cannot_be_sealed_is_replaced() {
    let random = [7u8; COVER_BODY_MAX];
    let payload = build_cover_payload(
        &[1; 32],
        &[2; 32],
        [0, 0],
        &random,
        [0x99; 32],
        |_, _, _| None,
    );
    assert_eq!(payload, vec![0x99; DUMMY_PAYLOAD_SIZE]);
    let payload = build_cover_payload(
        &[1; 32],
        &[2; 32],
        [0, 0],
        &random,
        [0x99; 32],
        |_, _, _| Some(vec![0; 1661]),
    );
    assert_eq!(payload, vec![0x99; DUMMY_PAYLOAD_SIZE]);
}

#[test]
fn a_decoy_holds_as_many_random_bytes_as_were_picked() {
    let mut random = [0u8; COVER_BODY_MAX];
    for (i, byte) in random.iter_mut().enumerate() {
        *byte = (i % 251) as u8;
    }
    let picks = [([0, 0], 64), ([0, 1], 65), ([3, 191], 1023)];
    for (pick, len) in picks {
        let payload = build_cover_payload(&[1; 32], &[2; 32], pick, &random, [0; 32], seal);
        assert_eq!(payload.len(), 4 + 60 + len);
        assert_eq!(&payload[64..], &random[..len]);
    }
}

#[test]
fn body_lengths_cover_the_range() {
    assert_eq!(cover_body_len([0, 0]), 64);
    assert_eq!(cover_body_len([0, 1]), 65);
    assert_eq!(cover_body_len([3, 191]), 1023);
    assert_eq!(cover_body_len([3, 192]), 64);
    assert_eq!(cover_body_len([0xff, 0xff]), 64 + 65535 % 960);
}

#[test]
fn a_queued_packet_carries_its_forced_exit() {
    let message: QueuedMessage<()> = (vec![1, 2, 3], Some(4), None);
    let plain: QueuedPacket<&str, ()> = message.into();
    assert!(
        plain.exit.is_none(),
        "an ordinary message must not force an exit"
    );
    assert_eq!(plain.hops, Some(4));
    assert_eq!(plain.payload, vec![1, 2, 3]);

    let deposit: QueuedPacket<&str, ()> = QueuedPacket {
        payload: vec![9; 64],
        hops: Some(3),
        exit: Some("203.0.113.7:443"),
        done: None,
    };
    assert_eq!(deposit.exit, Some("203.0.113.7:443"));
}

#[test]
fn ticks_send_messages_in_order_and_decoys_otherwise() {
    let mut queue: VecDeque<QueuedPacket<(), u32>> = VecDeque::new();
    assert!(!has_real(&queue));
    for i in 0..3u32 {
        queue.push_back(QueuedPacket {
            payload: vec![i as u8],
            hops: if i == 1 { Some(5) } else { None },
            exit: None,
            done: Some(i),
        });
    }
    assert!(has_real(&queue));
    for (expected, hops) in [(0u32, 3usize), (1, 5)] {
        match next_emission(&mut queue, CoverIntent::Real, 3) {
            Emission::Real { packet, hops: n } => {
                assert_eq!(packet.done, Some(expected));
                assert_eq!(n, hops);
            }
            _ => panic!("expected a message"),
        }
        for intent in [CoverIntent::Drop, CoverIntent::Loop] {
            assert!(matches!(
                next_emission(&mut queue, intent, 3),
                Emission::Decoy { hops: 3 }
            ));
        }
    }
    assert_eq!(queue.len(), 1);
    assert!(matches!(
        next_emission(&mut queue, CoverIntent::Real, 3),
        Emission::Real { .. }
    ));
    assert!(matches!(
        next_emission(&mut queue, CoverIntent::Real, 4),
        Emission::Decoy { hops: 4 }
    ));
    assert_eq!(failure_text(true, "e"), "cover loop deposit send: e");
    assert_eq!(failure_text(false, "e"), "cover loop real send: e");
}
