use crypto_gotham_relay::addr::IpAddr;
use crypto_gotham_relay::process::{OpenFailure, OpenedHeader, ParsedHeader};
use crypto_gotham_relay::transport::delivery::{frame_envelope, open_delivery, unframe_envelope};
use crypto_gotham_relay::transport::dispatch::{
    act_on, answer_says_hosted, check_querier, choose_handler, hosting_answer, per_source_limiter,
    queried_identity, receive_packet, server_protocols, ConnectionGate, Handler, PacketAction,
    GOSSIP_ALPN, MAILBOX_ALPN, MAX_INFLIGHT_CONNS, MIXNET_ALPN, RENDEZVOUS_ALPN,
    RENDEZVOUS_QUERY_ALPN,
};
use crypto_gotham_relay::transport::framing::{
    read_chunk_len, read_handshake_len, read_noise_blob, read_noise_blob_capped, read_noise_frame,
    read_one_noise_msg, write_handshake_msg, write_noise_blob, write_noise_frame,
    write_one_noise_msg, BlobReader,
};
use crypto_gotham_relay::transport::noise::{
    noise_ik_initiator_handshake, noise_ik_responder_handshake, noise_initiator_handshake,
    noise_responder_handshake, Established, HandshakeStep, NoiseHandshake, NoiseLink,
};
use crypto_gotham_relay::transport::{within, FRAME_LEN, MAX_MAILBOX_FRAME, NOISE_CHUNK};
use crypto_gotham_relay::{DropReason, ProcessOutcome, Relay, TransportError};
use rand::{RngCore, SeedableRng};
use rand_chacha::ChaCha20Rng;
use std::time::Duration;
use x25519_dalek::{PublicKey, StaticSecret};

fn public(sk: [u8; 32]) -> [u8; 32] {
    PublicKey::from(&StaticSecret::from(sk)).to_bytes()
}

fn random_bytes(seed: u64, n: usize) -> Vec<u8> {
    let mut out = vec![0u8; n];
    ChaCha20Rng::seed_from_u64(seed).fill_bytes(&mut out);
    out
}

/// Runs a handshake over a wire that loses nothing.
fn shake(mut a: NoiseHandshake, mut b: NoiseHandshake) -> (Established, Established) {
    loop {
        let (writer, reader) = match (a.next_step(), b.next_step()) {
            (HandshakeStep::Write, HandshakeStep::Read) => (&mut a, &mut b),
            (HandshakeStep::Read, HandshakeStep::Write) => (&mut b, &mut a),
            (HandshakeStep::Finish, HandshakeStep::Finish) => break,
            steps => panic!("out of step: {steps:?}"),
        };
        let wire = writer.write_message().ok().expect("write");
        let n = read_handshake_len(&[wire[0], wire[1]]).ok().expect("length");
        assert_eq!(n, wire.len() - 2);
        reader.read_message(&wire[2..]).ok().expect("read");
    }
    (a.finish().ok().unwrap(), b.finish().ok().unwrap())
}

fn links() -> (NoiseLink, NoiseLink) {
    let (client_sk, relay_sk) = ([3u8; 32], [4u8; 32]);
    let a = noise_initiator_handshake(&client_sk, &public(relay_sk)).ok().unwrap();
    let b = noise_responder_handshake(&relay_sk).ok().unwrap();
    let (a, b) = shake(a, b);
    (a.link, b.link)
}

#[test]
fn noise_handshake_roundtrip() {
    let (client_sk, relay_sk) = ([3u8; 32], [4u8; 32]);
    let a = noise_initiator_handshake(&client_sk, &public(relay_sk)).ok().unwrap();
    let b = noise_responder_handshake(&relay_sk).ok().unwrap();
    let (mut a, mut b) = shake(a, b);
    assert_eq!(a.binding, b.binding, "both sides are bound to one hash");
    assert_eq!(a.binding.len(), 32);
    assert!(a.initiator_key.is_none() && b.initiator_key.is_none());

    let packet: Vec<u8> = (0..2048).map(|i| ((i * 31) % 256) as u8).collect();
    let frame = write_noise_frame(&mut a.link, &packet).ok().unwrap();
    assert_eq!(frame.len(), FRAME_LEN);
    assert_ne!(&frame[..2048], &packet[..]);
    let received = read_noise_frame(&mut b.link, &frame).ok().unwrap();
    assert_eq!(received, packet);

    // The relay echoes the packet.
    let echo = write_noise_frame(&mut b.link, &received).ok().unwrap();
    assert_ne!(echo, frame, "each direction has its own key");
    assert_eq!(read_noise_frame(&mut a.link, &echo).ok().unwrap(), packet);
}

#[test]
fn the_ik_responder_learns_the_initiators_key() {
    let (n_sk, r_sk) = ([5u8; 32], [6u8; 32]);
    let a = noise_ik_initiator_handshake(&n_sk, &public(r_sk)).ok().unwrap();
    let b = noise_ik_responder_handshake(&r_sk).ok().unwrap();
    let (mut a, mut b) = shake(a, b);
    assert_eq!(b.initiator_key, Some(public(n_sk)));
    assert!(a.initiator_key.is_none());
    assert_eq!(a.binding, b.binding);
    let sealed = b.link.seal(b"down").ok().unwrap();
    assert_eq!(a.link.open(&sealed).ok().unwrap(), b"down");
    let sealed = a.link.seal(b"up").ok().unwrap();
    assert_eq!(b.link.open(&sealed).ok().unwrap(), b"up");
}

#[test]
fn two_handshakes_of_one_pair_have_nothing_in_common() {
    let (client_sk, relay_sk) = ([3u8; 32], [4u8; 32]);
    let run = || {
        let a = noise_initiator_handshake(&client_sk, &public(relay_sk)).ok().unwrap();
        let b = noise_responder_handshake(&relay_sk).ok().unwrap();
        shake(a, b)
    };
    let (mut a, _) = run();
    let (_, mut d) = run();
    assert_ne!(a.binding, d.binding);
    let sealed = a.link.seal(b"secret").ok().unwrap();
    assert!(matches!(d.link.open(&sealed), Err(TransportError::Noise(_))));
}

#[test]
fn a_message_that_was_tampered_with_is_not_accepted() {
    let relay_sk = [4u8; 32];
    let mut a = noise_initiator_handshake(&[3u8; 32], &public(relay_sk)).ok().unwrap();
    let mut b = noise_responder_handshake(&relay_sk).ok().unwrap();
    let mut wire = a.write_message().ok().unwrap();
    let last = wire.len() - 1;
    wire[last] ^= 1;
    assert!(matches!(
        b.read_message(&wire[2..]),
        Err(TransportError::Noise(_))
    ));
    assert_eq!(b.next_step(), HandshakeStep::Read);
}

#[test]
fn a_relay_that_does_not_hold_the_key_cannot_answer() {
    let mut a = noise_initiator_handshake(&[3u8; 32], &public([4u8; 32])).ok().unwrap();
    let mut b = noise_responder_handshake(&[99u8; 32]).ok().unwrap();
    let wire = a.write_message().ok().unwrap();
    assert!(matches!(
        b.read_message(&wire[2..]),
        Err(TransportError::Noise(_))
    ));
}

#[test]
fn a_handshake_out_of_turn_fails() {
    let mut b = noise_responder_handshake(&[4u8; 32]).ok().unwrap();
    assert_eq!(b.next_step(), HandshakeStep::Read);
    assert!(matches!(b.write_message(), Err(TransportError::Noise(_))));
    assert!(matches!(b.finish(), Err(TransportError::Noise(_))));
    let mut a = noise_initiator_handshake(&[3u8; 32], &public([4u8; 32])).ok().unwrap();
    assert_eq!(a.next_step(), HandshakeStep::Write);
    assert!(a.read_message(&[0u8; 48]).is_err());
}

#[test]
fn handshake_messages_have_a_longest_length() {
    let wire = write_handshake_msg(&[7u8; 1024]).ok().unwrap();
    assert_eq!(&wire[..2], &[4, 0]);
    assert_eq!(wire.len(), 1026);
    assert!(matches!(
        write_handshake_msg(&[7u8; 1025]),
        Err(TransportError::BadHandshake)
    ));
    assert!(matches!(read_handshake_len(&[4, 0]), Ok(1024)));
    assert!(matches!(
        read_handshake_len(&[4, 1]),
        Err(TransportError::BadHandshake)
    ));
}

#[test]
fn only_whole_packets_are_framed() {
    let (mut a, mut b) = links();
    assert!(matches!(
        write_noise_frame(&mut a, &[0u8; 2047]),
        Err(TransportError::BadHandshake)
    ));
    let mut frame = write_noise_frame(&mut a, &[1u8; 2048]).ok().unwrap();
    frame[5] ^= 1;
    assert!(matches!(
        read_noise_frame(&mut b, &frame),
        Err(TransportError::Noise(_))
    ));
    frame[5] ^= 1;
    assert_eq!(read_noise_frame(&mut b, &frame).ok().unwrap(), vec![1u8; 2048]);
    assert!(
        read_noise_frame(&mut b, &frame).is_err(),
        "a frame is read once"
    );
}

fn read_all(mut reader: BlobReader, link: &mut NoiseLink, wire: &[u8]) -> Result<(Vec<u8>, usize), TransportError> {
    let mut at = 0;
    while !reader.is_whole() {
        let n = reader.due();
        reader.feed(link, &wire[at..at + n])?;
        at += n;
    }
    Ok((reader.into_blob(), at))
}

#[test]
fn blobs_of_every_shape_read_back() {
    let (mut a, mut b) = links();
    for n in [0, 1, 4, NOISE_CHUNK - 1, NOISE_CHUNK, NOISE_CHUNK + 1, 3 * NOISE_CHUNK + 17] {
        let blob = random_bytes(n as u64, n);
        let mut wire = write_noise_blob(&mut a, &blob).ok().unwrap();
        let len = wire.len();
        assert_eq!(
            len,
            22 + n + 18 * n.div_ceil(NOISE_CHUNK),
            "a header message, and a length and a tag for every chunk"
        );
        wire.extend_from_slice(b"what follows");
        let (back, taken) = read_all(read_noise_blob(), &mut b, &wire).ok().unwrap();
        assert_eq!(back, blob);
        assert_eq!(taken, len);
    }
}

#[test]
fn an_overlong_blob_is_refused_by_both_sides() {
    let (mut a, mut b) = links();
    let blob = vec![0u8; MAX_MAILBOX_FRAME + 1];
    assert!(matches!(
        write_noise_blob(&mut a, &blob),
        Err(TransportError::BadHandshake)
    ));
    let wire = write_noise_blob(&mut a, &blob[..101]).ok().unwrap();
    assert!(matches!(
        read_all(read_noise_blob_capped(100), &mut b, &wire),
        Err(TransportError::BadHandshake)
    ));
}

#[test]
fn a_message_that_brings_nothing_is_refused() {
    assert!(matches!(read_chunk_len(&[0, 16]), Err(TransportError::BadHandshake)));
    assert!(matches!(read_chunk_len(&[0, 17]), Ok(17)));
    assert!(matches!(read_chunk_len(&[0x80, 0x10]), Ok(32784)));
    assert!(matches!(read_chunk_len(&[0x80, 0x11]), Err(TransportError::BadHandshake)));
}

#[test]
fn a_reader_keeps_its_place_where_bytes_are_refused() {
    let (mut a, mut b) = links();
    let mut wire = write_noise_blob(&mut a, b"hello").ok().unwrap();
    let mut reader = read_noise_blob();
    assert!(reader.feed(&mut b, &wire[..2]).is_ok());
    let due = reader.due();
    assert_eq!(due, 20);
    wire[2] ^= 1;
    assert!(matches!(
        reader.feed(&mut b, &wire[2..22]),
        Err(TransportError::Noise(_))
    ));
    assert_eq!(reader.due(), due);
    // The bytes as they were sent are still accepted.
    wire[2] ^= 1;
    assert!(reader.feed(&mut b, &wire[2..22]).is_ok());
    assert!(reader.feed(&mut b, &wire[22..24]).is_ok());
    assert!(reader.feed(&mut b, &wire[24..]).is_ok());
    assert!(reader.is_whole());
    assert_eq!(reader.into_blob(), b"hello");
}

#[test]
fn a_blob_that_overruns_its_length_is_refused() {
    let (mut a, mut b) = links();
    let mut wire = Vec::new();
    write_one_noise_msg(&mut a, &3u32.to_be_bytes(), &mut wire).ok().unwrap();
    write_one_noise_msg(&mut a, b"four", &mut wire).ok().unwrap();
    assert!(matches!(
        read_all(read_noise_blob(), &mut b, &wire),
        Err(TransportError::BadHandshake)
    ));
    let (mut a, mut b) = links();
    let mut wire = Vec::new();
    write_one_noise_msg(&mut a, b"12345", &mut wire).ok().unwrap();
    assert!(matches!(
        read_all(read_noise_blob(), &mut b, &wire),
        Err(TransportError::BadHandshake)
    ));
}

#[test]
fn a_question_about_a_tunnel_is_answered() {
    let (mut a, mut b) = links();
    let mut wire = Vec::new();
    write_one_noise_msg(&mut a, &[8u8; 32], &mut wire).ok().unwrap();
    let mut question = Vec::new();
    let n = read_chunk_len(&wire[..2]).ok().unwrap();
    assert_eq!(n, 48);
    assert!(matches!(read_one_noise_msg(&mut b, &wire[2..], &mut question), Ok(32)));
    assert_eq!(queried_identity(&question).ok().unwrap(), [8u8; 32]);
    assert!(queried_identity(&question[..31]).is_err());

    assert!(answer_says_hosted(&[hosting_answer(true)]));
    assert!(!answer_says_hosted(&[hosting_answer(false)]));
    assert!(!answer_says_hosted(&[]));
    assert!(!answer_says_hosted(&[2]));
}

#[test]
fn rdvq_presence_query_requires_authority_auth() {
    let authority = [1u8; 32];
    assert!(check_querier(Some(authority), &authority).is_ok());
    assert!(matches!(
        check_querier(Some(authority), &[2u8; 32]),
        Err(TransportError::BadHandshake)
    ));
    assert!(matches!(
        check_querier(None, &authority),
        Err(TransportError::BadHandshake)
    ));
}

#[test]
fn an_unreachable_relay_says_so_instead_of_blaming_the_handshake() {
    let timeout = Duration::from_millis(300);
    let err = within(None::<Result<(), TransportError>>, timeout)
        .err()
        .expect("nothing answered");
    assert!(matches!(err, TransportError::Unreachable(d) if d == timeout));
    let msg = err.message();
    assert!(
        msg.contains("firewall"),
        "must point at the firewall: {msg}"
    );
    assert!(
        !msg.contains("handshake"),
        "must not send the operator hunting for a protocol bug: {msg}",
    );
    assert_eq!(
        msg,
        "no response within 300ms — nothing is reachable at that address. \
         Check that the UDP port is open in your provider's firewall \
         (cloud security list / security group), not only on the host itself."
    );

    // What did answer is passed on as it is.
    assert!(matches!(within(Some(Ok(7)), timeout), Ok(7)));
    let refused = within(Some(Err::<(), _>(TransportError::BadHandshake)), timeout);
    assert!(matches!(refused, Err(TransportError::BadHandshake)));
}

#[test]
fn errors_say_where_they_come_from() {
    assert_eq!(TransportError::Io("x".into()).message(), "io: x");
    assert_eq!(TransportError::Connect("x".into()).message(), "quic connect: x");
    assert_eq!(TransportError::Connection("x".into()).message(), "quic connection: x");
    assert_eq!(TransportError::Write("x".into()).message(), "quic write: x");
    assert_eq!(TransportError::Read("x".into()).message(), "quic read: x");
    assert_eq!(TransportError::Rustls("x".into()).message(), "rustls: x");
    assert_eq!(TransportError::Rcgen("x".into()).message(), "rcgen: x");
    assert_eq!(
        TransportError::Noise(snow::Error::Decrypt).message(),
        format!("noise: {}", snow::Error::Decrypt)
    );
    assert_eq!(
        TransportError::BadHandshake.message(),
        "malformed handshake message"
    );
    assert!(TransportError::Read(String::new()).ends_stream());
    assert!(TransportError::Io(String::new()).ends_stream());
    assert!(!TransportError::BadHandshake.ends_stream());
}

#[test]
fn connections_go_to_the_handler_of_their_protocol() {
    assert_eq!(&MIXNET_ALPN, b"gotham/1");
    assert_eq!(&MAILBOX_ALPN, b"gotham-mbx/1");
    assert_eq!(&GOSSIP_ALPN, b"gotham-dir/1");
    assert_eq!(&RENDEZVOUS_ALPN, b"gotham-rdv/1");
    assert_eq!(&RENDEZVOUS_QUERY_ALPN, b"gotham-rdvq/1");
    assert_eq!(server_protocols().len(), 5);
    assert_eq!(server_protocols()[4], b"gotham-rdvq/1");

    assert_eq!(choose_handler(Some(b"gotham-mbx/1"), true, false), Handler::Mailbox);
    let closed = choose_handler(Some(b"gotham-mbx/1"), false, true);
    assert_eq!(closed, Handler::CloseNoMailbox);
    assert_eq!(closed.close_reason(), Some("no mailbox here"));
    assert_eq!(choose_handler(Some(b"gotham-dir/1"), false, true), Handler::Gossip);
    let closed = choose_handler(Some(b"gotham-dir/1"), true, false);
    assert_eq!(closed, Handler::CloseNoGossip);
    assert_eq!(closed.close_reason(), Some("no gossip here"));
    assert_eq!(choose_handler(Some(b"gotham-rdv/1"), false, false), Handler::Tunnel);
    assert_eq!(choose_handler(Some(b"gotham-rdvq/1"), false, false), Handler::TunnelQuery);
    assert_eq!(choose_handler(Some(b"gotham/1"), true, true), Handler::Mixnet);
    assert_eq!(choose_handler(Some(b"h3"), true, true), Handler::Mixnet);
    assert_eq!(choose_handler(None, true, true), Handler::Mixnet);
    assert_eq!(Handler::Mixnet.close_reason(), None);
}

#[test]
fn the_gate_sheds_at_its_limit() {
    let mut gate = ConnectionGate::new();
    for _ in 0..MAX_INFLIGHT_CONNS {
        assert!(gate.enter());
    }
    assert!(!gate.enter());
    gate.leave();
    assert!(gate.enter());
    assert!(!gate.enter());
}

#[test]
fn outcomes_become_actions() {
    let payload = vec![1u8, 2, 3];
    let delay = Duration::from_millis(5);
    let deliver = |has| {
        act_on(
            ProcessOutcome::DeliverLocal {
                delay,
                payload: payload.clone(),
            },
            has,
        )
    };
    assert!(matches!(deliver(true), PacketAction::Deliver { payload: p, .. } if p == payload));
    assert!(matches!(deliver(false), PacketAction::Discard));
    let forward = |via_rendezvous| {
        act_on(
            ProcessOutcome::Forward {
                next_addr: crypto_gotham_relay::addr::SocketAddrV4 {
                    ip: [10, 0, 0, 1],
                    port: 443,
                },
                next_node_id: [7; 32],
                delay,
                via_rendezvous,
                packet: vec![9; 2048],
            },
            false,
        )
    };
    assert!(matches!(forward(true), PacketAction::Push { next_node_id, .. } if next_node_id == [7; 32]));
    assert!(matches!(forward(false), PacketAction::Dial { next_addr, .. } if next_addr.port == 443));
    assert!(matches!(
        act_on(ProcessOutcome::Drop(DropReason::BadMac), true),
        PacketAction::Drop(DropReason::BadMac)
    ));
}

#[test]
fn a_flooding_source_is_shed_before_the_relay_is_asked() {
    let mut limiter = per_source_limiter();
    let mut relay = Relay::new([1; 32], 10, Duration::from_secs(60), 0);
    let mut ask = |src, n: usize| {
        let mut shed = 0;
        for _ in 0..n {
            let action = receive_packet(
                &mut limiter,
                &mut relay,
                src,
                &[0u8; 100],
                true,
                |_| None::<ParsedHeader<()>>,
                |(), _| Err::<OpenedHeader<()>, _>(OpenFailure::BadMac),
                || Duration::ZERO,
                |(), region| region,
            );
            match action {
                PacketAction::Shed => shed += 1,
                PacketAction::Drop(why) => assert_eq!(why, DropReason::Malformed),
                _ => panic!("a short packet goes nowhere"),
            }
        }
        shed
    };
    assert!(ask(IpAddr::v4(203, 0, 113, 9), 5_000) > 0);
    assert_eq!(ask(IpAddr::v4(198, 51, 100, 4), 100), 0);
}

#[test]
fn an_envelope_is_found_in_a_padded_payload() {
    let envelope = random_bytes(1, 500);
    let mut payload = frame_envelope(&envelope).unwrap();
    assert_eq!(&payload[..4], &500u32.to_be_bytes());
    payload.resize(1664, 0);
    assert_eq!(unframe_envelope(&payload), Some(envelope.clone()));

    assert!(frame_envelope(&[0; 1660]).is_some());
    assert!(frame_envelope(&[0; 1661]).is_none());
    assert_eq!(unframe_envelope(&[0, 0, 0]), None);
    assert_eq!(unframe_envelope(&[0, 0, 0, 1]), None);
    assert_eq!(unframe_envelope(&[0, 0, 0, 0]), Some(vec![]));
    assert_eq!(unframe_envelope(&[0xff, 0xff, 0xff, 0xff, 1]), None);

    let opened = open_delivery(&payload, |inside| {
        assert_eq!(inside, envelope);
        Some(([5; 32], b"body".to_vec()))
    });
    assert_eq!(opened, Some(([5; 32], b"body".to_vec())));
    assert_eq!(open_delivery(&payload, |_| None), None);
    assert_eq!(open_delivery(&[1], |_| panic!("nothing to unseal")), None);
}
