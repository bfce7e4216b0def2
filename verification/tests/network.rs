use crypto_gotham_relay::addr::{IpAddr, SocketAddrV4};
use crypto_gotham_relay::client::{clamp_scalar, PathHop};
use crypto_gotham_relay::cover_loop::{has_real, next_emission, CoverIntent, Emission};
use crypto_gotham_relay::process::{
    HopRecord, OpenFailure, OpenedHeader, ParsedHeader, HEADER_LEN, PACKET_SIZE,
};
use crypto_gotham_relay::rate_limit::PerSourceLimiter;
use crypto_gotham_relay::settings::{describe_relays, RelayEntry};
use crypto_gotham_relay::transport::delivery::open_delivery;
use crypto_gotham_relay::transport::dispatch::{
    per_source_limiter, receive_packet, PacketAction,
};
use crypto_gotham_relay::transport::framing::{read_noise_frame, write_noise_frame};
use crypto_gotham_relay::transport::noise::{
    noise_initiator_handshake, noise_responder_handshake, HandshakeStep, NoiseLink,
};
use crypto_gotham_relay::{GothamClient, QueuedPacket, Relay};
use rand::{RngCore, SeedableRng};
use rand_chacha::ChaCha20Rng;
use std::collections::VecDeque;
use std::time::Duration;
use x25519_dalek::{x25519, PublicKey, StaticSecret};

// A small onion codec: version at 0, the sender's key at 4, five record slots
// of 64 bytes at 36, the MAC at 356. Streams come from ChaCha20 and the MAC is
// a polynomial over the first slot.

fn rng() -> ChaCha20Rng {
    ChaCha20Rng::seed_from_u64(0xABCD_1234)
}

fn public(sk: [u8; 32]) -> [u8; 32] {
    PublicKey::from(&StaticSecret::from(sk)).to_bytes()
}

fn clamped_sk(rng: &mut ChaCha20Rng) -> [u8; 32] {
    let mut sk = [0u8; 32];
    rng.fill_bytes(&mut sk);
    clamp_scalar(sk)
}

fn stream(shared: &[u8; 32], label: u8, data: &mut [u8]) {
    let mut seed = *shared;
    seed[0] ^= label;
    let mut mask = vec![0u8; data.len()];
    ChaCha20Rng::from_seed(seed).fill_bytes(&mut mask);
    for (d, m) in data.iter_mut().zip(mask) {
        *d ^= m;
    }
}

fn mac(shared: &[u8; 32], header: &[u8]) -> [u8; 16] {
    let mut key = [0u8; 16];
    stream(shared, 7, &mut key);
    let factor = u128::from_be_bytes(key) | 1;
    let mut sum = 0u128;
    for b in &header[..100] {
        sum = sum.wrapping_add(u128::from(*b) + 1).wrapping_mul(factor);
    }
    sum.to_be_bytes()
}

fn parse(header: [u8; 384]) -> Option<ParsedHeader<[u8; 384]>> {
    Some(ParsedHeader {
        version: header[0],
        alpha: header[4..36].try_into().unwrap(),
        gamma: header[356..372].try_into().unwrap(),
        header,
    })
}

fn open(header: [u8; 384], shared: [u8; 32]) -> Result<OpenedHeader<[u8; 32]>, OpenFailure> {
    if mac(&shared, &header) != header[356..372] {
        return Err(OpenFailure::BadMac);
    }
    let mut slot: [u8; 64] = header[36..100].try_into().unwrap();
    stream(&shared, 1, &mut slot);
    let mut next_header = header;
    next_header[36..292].copy_from_slice(&header[100..356]);
    next_header[292..356].fill(0);
    next_header[356..372].copy_from_slice(&slot[38..54]);
    Ok(OpenedHeader {
        record: HopRecord {
            next_ipv4: slot[..4].try_into().unwrap(),
            next_port: u16::from_be_bytes(slot[4..6].try_into().unwrap()),
            next_node_id: slot[6..38].try_into().unwrap(),
            delay_micros: u32::from_be_bytes(slot[54..58].try_into().unwrap()),
            last_hop: slot[58] == 1,
            via_rendezvous: false,
        },
        next_header,
        payload_key: shared,
    })
}

fn peel(key: [u8; 32], mut region: Vec<u8>) -> Vec<u8> {
    stream(&key, 2, &mut region);
    region
}

struct Route {
    alpha: [u8; 32],
    shared: Vec<[u8; 32]>,
}

fn derive(keys: &Vec<[u8; 32]>) -> Option<Route> {
    let ephemeral = clamped_sk(&mut ChaCha20Rng::seed_from_u64(77));
    Some(Route {
        alpha: public(ephemeral),
        shared: keys.iter().map(|pk| x25519(ephemeral, *pk)).collect(),
    })
}

fn wrap(route: &Route, records: &Vec<HopRecord>) -> Option<[u8; 384]> {
    let mut header = [0u8; 384];
    header[0] = 3;
    header[4..36].copy_from_slice(&route.alpha);
    let mut gamma = [0u8; 16];
    for (record, shared) in records.iter().zip(&route.shared).rev() {
        let mut slot = [0u8; 64];
        slot[..4].copy_from_slice(&record.next_ipv4);
        slot[4..6].copy_from_slice(&record.next_port.to_be_bytes());
        slot[6..38].copy_from_slice(&record.next_node_id);
        slot[38..54].copy_from_slice(&gamma);
        slot[54..58].copy_from_slice(&record.delay_micros.to_be_bytes());
        slot[58] = u8::from(record.last_hop);
        stream(shared, 1, &mut slot);
        header.copy_within(36..292, 100);
        header[36..100].copy_from_slice(&slot);
        gamma = mac(shared, &header);
    }
    header[356..372].copy_from_slice(&gamma);
    Some(header)
}

fn layer(route: &Route, hop: usize, mut region: Vec<u8>) -> Vec<u8> {
    stream(&route.shared[hop], 2, &mut region);
    region
}

// ── A network of relays, with the links between them ───────────────────────

struct Node {
    sk: [u8; 32],
    addr: SocketAddrV4,
    relay: Relay,
    limiter: PerSourceLimiter,
}

fn node(sk: [u8; 32], i: u8) -> Node {
    Node {
        sk,
        addr: SocketAddrV4 {
            ip: [10, i, 0, 1],
            port: 9000 + u16::from(i),
        },
        relay: Relay::new(sk, 1000, Duration::from_secs(60), 0),
        limiter: per_source_limiter(),
    }
}

/// A link to the relay with a secret key, from the side of whoever dials it.
fn dial(sk: [u8; 32], peer: &[u8; 32], peer_sk: [u8; 32]) -> (NoiseLink, NoiseLink) {
    let mut a = noise_initiator_handshake(&sk, peer).ok().unwrap();
    let mut b = noise_responder_handshake(&peer_sk).ok().unwrap();
    loop {
        match a.next_step() {
            HandshakeStep::Write => {
                let wire = a.write_message().ok().unwrap();
                b.read_message(&wire[2..]).ok().unwrap();
            }
            HandshakeStep::Read => {
                let wire = b.write_message().ok().unwrap();
                a.read_message(&wire[2..]).ok().unwrap();
            }
            HandshakeStep::Finish => break,
        }
    }
    (a.finish().ok().unwrap().link, b.finish().ok().unwrap().link)
}

/// Hands a packet to a relay over a link of its own.
fn deliver_to(node: &mut Node, sender_sk: [u8; 32], pk: &[u8; 32], packet: &[u8]) -> PacketAction {
    let (mut out, mut into) = dial(sender_sk, pk, node.sk);
    let frame = write_noise_frame(&mut out, packet).ok().unwrap();
    let packet = read_noise_frame(&mut into, &frame).ok().unwrap();
    receive_packet(
        &mut node.limiter,
        &mut node.relay,
        IpAddr::v4(192, 0, 2, 1),
        &packet,
        true,
        parse,
        open,
        || Duration::ZERO,
        peel,
    )
}

/// Carries a packet along until a relay delivers it, and returns which relay
/// that was and the payload. Every forwarded packet differs from the last.
fn carry(nodes: &mut [Node], entry: SocketAddrV4, sk: [u8; 32], packet: Vec<u8>) -> (usize, Vec<u8>) {
    let mut at = entry;
    let mut from = sk;
    let mut packet = packet;
    loop {
        let i = nodes.iter().position(|n| n.addr == at).expect("a relay there");
        let pk = public(nodes[i].sk);
        match deliver_to(&mut nodes[i], from, &pk, &packet) {
            PacketAction::Deliver { payload, .. } => return (i, payload),
            PacketAction::Dial {
                next_addr,
                next_node_id,
                packet: next,
                ..
            } => {
                assert_eq!(next.len(), PACKET_SIZE);
                assert_ne!(next, packet);
                let there = nodes.iter().find(|n| n.addr == next_addr).unwrap();
                assert_eq!(public(there.sk), next_node_id);
                from = nodes[i].sk;
                at = next_addr;
                packet = next;
            }
            _ => panic!("the packet was lost at relay {i}"),
        }
    }
}

fn hops(nodes: &[Node]) -> Option<Vec<PathHop<SocketAddrV4>>> {
    Some(
        nodes
            .iter()
            .map(|n| PathHop {
                kem_pubkey: Some(public(n.sk)),
                ipv4: Some(n.addr.ip),
                port: Some(n.addr.port),
                dial: Some(n.addr),
            })
            .collect(),
    )
}

#[test]
fn deliver_local_hook_fires_at_last_hop() {
    let mut r = rng();
    let mut node = node(clamped_sk(&mut r), 1);
    let pk = public(node.sk);
    let route = derive(&vec![pk]).unwrap();
    let records = vec![HopRecord {
        next_ipv4: [0; 4],
        next_port: 0,
        next_node_id: [0; 32],
        delay_micros: 0,
        last_hop: true,
        via_rendezvous: false,
    }];
    let marker = b"deliver-this-please";
    let mut region = vec![0u8; PACKET_SIZE - HEADER_LEN];
    region[..marker.len()].copy_from_slice(marker);
    let mut packet = wrap(&route, &records).unwrap().to_vec();
    packet.extend_from_slice(&layer(&route, 0, region));

    match deliver_to(&mut node, clamped_sk(&mut r), &pk, &packet) {
        PacketAction::Deliver { delay, payload } => {
            assert_eq!(delay, Duration::ZERO);
            assert_eq!(payload.len(), PACKET_SIZE - HEADER_LEN);
            assert_eq!(&payload[..marker.len()], marker);
        }
        _ => panic!("expected a delivery"),
    }
}

#[test]
fn end_to_end_2hop_forward() {
    let mut r = rng();
    let mut nodes = [node(clamped_sk(&mut r), 1), node(clamped_sk(&mut r), 2)];
    let pks = vec![public(nodes[0].sk), public(nodes[1].sk)];
    let route = derive(&pks).unwrap();
    let record = |last_hop: bool| HopRecord {
        next_ipv4: nodes[1].addr.ip,
        next_port: nodes[1].addr.port,
        next_node_id: pks[1],
        delay_micros: 0,
        last_hop,
        via_rendezvous: false,
    };
    let mut packet = wrap(&route, &vec![record(false), record(true)])
        .unwrap()
        .to_vec();
    let payload: Vec<u8> = (0..PACKET_SIZE - HEADER_LEN).map(|i| (i % 251) as u8).collect();
    packet.extend_from_slice(&layer(&route, 0, layer(&route, 1, payload.clone())));

    let entry = nodes[0].addr;
    let (at, delivered) = carry(&mut nodes, entry, clamped_sk(&mut r), packet);
    assert_eq!(at, 1);
    assert_eq!(delivered, payload);
}

fn seal(recipient: &[u8; 32], sender: &[u8; 32], body: &[u8]) -> Option<Vec<u8>> {
    let ephemeral = clamped_sk(&mut ChaCha20Rng::seed_from_u64(5));
    let shared = x25519(ephemeral, *recipient);
    let mut inside = sender.to_vec();
    inside.extend_from_slice(body);
    let tag = mac(&shared, &[inside.as_slice(), &[0u8; 100]].concat());
    stream(&shared, 9, &mut inside);
    Some([&public(ephemeral)[..], &tag[..], &inside[..]].concat())
}

fn unseal(sk: &[u8; 32], envelope: &[u8]) -> Option<([u8; 32], Vec<u8>)> {
    let shared = x25519(*sk, envelope.get(..32)?.try_into().ok()?);
    let mut inside = envelope.get(48..)?.to_vec();
    stream(&shared, 9, &mut inside);
    if mac(&shared, &[inside.as_slice(), &[0u8; 100]].concat()) != envelope[32..48] {
        return None;
    }
    Some((inside[..32].try_into().ok()?, inside[32..].to_vec()))
}

#[test]
fn a_sealed_message_crosses_the_relays_of_a_directory() {
    let mut r = rng();
    let mut nodes: Vec<Node> = (1..=3).map(|i| node(clamped_sk(&mut r), i)).collect();
    let entries: Vec<RelayEntry> = nodes
        .iter()
        .map(|n| RelayEntry {
            node_id_hex: format!("{:02x?}", public(n.sk)),
            addr: format!("{}.{}.{}.{}:{}", n.addr.ip[0], n.addr.ip[1], n.addr.ip[2], n.addr.ip[3], n.addr.port),
            capabilities: "all".into(),
            country: None,
            asn: None,
            operator: None,
            mailbox: false,
        })
        .collect();
    assert_eq!(describe_relays(&entries).ok().unwrap().len(), 3);

    let recipient_sk = clamped_sk(&mut r);
    let sender_pk = clamped_sk(&mut r);
    let body = b"delivered through a 3-relay testnet".to_vec();
    let client = GothamClient::new(clamped_sk(&mut r));
    let shipment = client
        .send_sealed(
            3,
            &public(recipient_sk),
            &sender_pk,
            &body,
            seal,
            |_| hops(&nodes),
            derive,
            |_| Duration::from_millis(1),
            wrap,
            layer,
        )
        .ok()
        .expect("send_sealed");

    let (at, payload) = carry(&mut nodes, shipment.entry, *client.secret_key(), shipment.packet);
    assert_eq!(at, 2, "the last relay of the path delivers");
    let (got_sender, got_body) =
        open_delivery(&payload, |envelope| unseal(&recipient_sk, &envelope)).expect("an envelope");
    assert_eq!(got_sender, sender_pk, "unsealed sender mismatch");
    assert_eq!(got_body, body, "recovered body mismatch");

    // Nobody else can open it.
    let stranger = clamped_sk(&mut r);
    assert!(open_delivery(&payload, |envelope| unseal(&stranger, &envelope)).is_none());
}

#[test]
fn cover_loop_dispatches_real_message() {
    let mut r = rng();
    let mut nodes: Vec<Node> = (1..=3).map(|i| node(clamped_sk(&mut r), i)).collect();
    let marker = b"COVER-LOOP-TEST-MARKER-1234567890".to_vec();
    let mut queue: VecDeque<QueuedPacket<(), ()>> = VecDeque::new();
    queue.push_back((marker.clone(), None, None).into());
    assert!(has_real(&queue));

    let Emission::Real { packet, hops: n } = next_emission(&mut queue, CoverIntent::Real, 3) else {
        panic!("a message waits");
    };
    assert!(queue.is_empty());
    let client = GothamClient::new(clamped_sk(&mut r));
    let shipment = client
        .send(
            n,
            &packet.payload,
            |_| hops(&nodes),
            derive,
            |_| Duration::ZERO,
            wrap,
            layer,
        )
        .ok()
        .expect("send");
    let (_, payload) = carry(&mut nodes, shipment.entry, *client.secret_key(), shipment.packet);
    assert_eq!(&payload[..marker.len()], &marker[..]);
}
