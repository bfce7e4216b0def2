//! What holds of a packet all the way from its sender to its recipient.
//!
//! The onion codec is the caller's. The laws below say what it must do for the
//! sender's part and the relays' parts to fit together, and that the library
//! does the rest.

use crate::bytes::{be_bytes, be_value, lemma_be_bytes_len, lemma_be_limits, lemma_be_round_trip};
use crate::client::{address_fault, clamp_scalar, delay_drawn, hop_count_for_mode, key_missing, padded,
    record_for, send_ends, send_fault, send_stage, send_traced, sender_delay, sender_hop_delay_micros,
    sends, sends_envelope, ClientError, GothamClient, Mode, PathHop, SendTrace, Shipment,
    MAX_PAYLOAD_SIZE, SENDER_MEAN_DELAY_MICROS};
use crate::clock::duration_nanos;
use crate::delay::{PoissonScheduler, MAX_MEANS};
use crate::keys::{x25519_public, x25519_shared};
use crate::process::{found, outcome_of, stage, version_policy, Findings, HopRecord, OpenFailure,
    OpenedHeader, Outcome, ParsedHeader, RelayState, HEADER_LEN, PACKET_SIZE};
use crate::rate_limit::{decide, RateDecision};
use crate::replay::{verdict, ReplayCheck};
use crate::transport::error_text;
use crate::transport::delivery::{delivery_opens, envelope_of, envelope_reads_back, framed_envelope};
use std::time::Duration;
use vstd::prelude::*;

verus! {

/// Whether the holder of `sk` can open `header`, finds in it `record` and, where
/// the packet goes on, the header `next`, and can take off the layer that the
/// sender wrapped for hop `hop`.
pub open spec fn opens_for<R, H, K, L, Q, U, E>(
    sk: Seq<u8>,
    hop: int,
    secrets: R,
    record: HopRecord,
    header: Seq<u8>,
    next: Seq<u8>,
    layer: L,
    parse: Q,
    open: U,
    peel: E,
) -> bool where
    L: Fn(&R, usize, Vec<u8>) -> Vec<u8>,
    Q: FnOnce([u8; 384]) -> Option<ParsedHeader<H>>,
    U: FnOnce(H, [u8; 32]) -> Result<OpenedHeader<K>, OpenFailure>,
    E: FnOnce(K, Vec<u8>) -> Vec<u8>,
 {
    &&& forall|bytes: [u8; 384], parsed: Option<ParsedHeader<H>>|
        bytes@ == header && #[trigger] call_ensures(parse, (bytes,), parsed) ==> parsed is Some
    &&& forall|
        bytes: [u8; 384],
        parsed: Option<ParsedHeader<H>>,
        shared: [u8; 32],
        opened: Result<OpenedHeader<K>, OpenFailure>,
    |
        #![trigger call_ensures(parse, (bytes,), parsed), call_ensures(open, (parsed->0.header, shared), opened)]
        bytes@ == header && call_ensures(parse, (bytes,), parsed) && shared@ == x25519_shared(
            sk,
            parsed->0.alpha@,
        ) && call_ensures(open, (parsed->0.header, shared), opened) ==> {
            &&& opened is Ok
            &&& opened->Ok_0.record == record
            &&& !record.last_hop ==> opened->Ok_0.next_header@ == next
            &&& peels_off(secrets, hop, opened->Ok_0.payload_key, layer, peel)
        }
}

/// Whether peeling with `key` undoes the layer of hop `hop`.
pub open spec fn peels_off<R, K, L, E>(secrets: R, hop: int, key: K, layer: L, peel: E) -> bool where
    L: Fn(&R, usize, Vec<u8>) -> Vec<u8>,
    E: FnOnce(K, Vec<u8>) -> Vec<u8>,
 {
    forall|inner: Vec<u8>, outer: Vec<u8>, region: Vec<u8>, out: Vec<u8>|
        #![trigger call_ensures(layer, (&secrets, hop as usize, inner), outer), call_ensures(peel, (key, region), out)]
        call_ensures(layer, (&secrets, hop as usize, inner), outer) && region@ == outer@
            && call_ensures(peel, (key, region), out) ==> out@ == inner@
}

/// Whether `headers`, the first of them the sender's, are what the holders of
/// the keys find one after the other, each with its record.
pub open spec fn header_unfolds<R, H, K, L, Q, U, E>(
    sks: Seq<Seq<u8>>,
    secrets: R,
    records: Seq<HopRecord>,
    headers: Seq<Seq<u8>>,
    layer: L,
    parse: Q,
    open: U,
    peel: E,
) -> bool where
    L: Fn(&R, usize, Vec<u8>) -> Vec<u8>,
    Q: FnOnce([u8; 384]) -> Option<ParsedHeader<H>>,
    U: FnOnce(H, [u8; 32]) -> Result<OpenedHeader<K>, OpenFailure>,
    E: FnOnce(K, Vec<u8>) -> Vec<u8>,
 {
    &&& headers.len() == sks.len()
    &&& forall|i: int| 0 <= i < headers.len() ==> (#[trigger] headers[i]).len() == HEADER_LEN
    &&& forall|i: int|
        0 <= i < sks.len() ==> opens_for(
            sks[i],
            i,
            secrets,
            #[trigger] records[i],
            headers[i],
            headers[i + 1],
            layer,
            parse,
            open,
            peel,
        )
}

/// Whether the two halves of the codec fit: a header that `wrap` builds, of
/// secrets that `derive` derives from the public keys of `sks`, unfolds for the
/// holders of `sks`, and layers keep the length of a payload region.
pub open spec fn codec_fits<R, H, K, V, W, L, Q, U, E>(
    sks: Seq<Seq<u8>>,
    derive: V,
    wrap: W,
    layer: L,
    parse: Q,
    open: U,
    peel: E,
) -> bool where
    V: FnOnce(&Vec<[u8; 32]>) -> Option<R>,
    W: FnOnce(&R, &Vec<HopRecord>) -> Option<[u8; 384]>,
    L: Fn(&R, usize, Vec<u8>) -> Vec<u8>,
    Q: FnOnce([u8; 384]) -> Option<ParsedHeader<H>>,
    U: FnOnce(H, [u8; 32]) -> Result<OpenedHeader<K>, OpenFailure>,
    E: FnOnce(K, Vec<u8>) -> Vec<u8>,
 {
    &&& forall|keys: Vec<[u8; 32]>, secrets: Option<R>, records: Vec<HopRecord>, header: Option<[u8; 384]>|
        #![trigger call_ensures(derive, (&keys,), secrets), call_ensures(wrap, (&secrets->0, &records), header)]
        {
            &&& keys@.len() == sks.len()
            &&& forall|i: int| 0 <= i < sks.len() ==> (#[trigger] keys@[i])@ == x25519_public(sks[i])
            &&& records@.len() == sks.len()
            &&& forall|i: int|
                0 <= i < sks.len() ==> (#[trigger] records@[i]).last_hop == (i + 1 == sks.len())
            &&& secrets is Some
            &&& header is Some
            &&& call_ensures(derive, (&keys,), secrets)
            &&& call_ensures(wrap, (&secrets->0, &records), header)
        } ==> exists|headers: Seq<Seq<u8>>| #[trigger]
            header_unfolds(sks, secrets->0, records@, headers, layer, parse, open, peel)
                && headers[0] == header->0@
    &&& keeps_length(layer)
}

/// Whether a layer leaves the length of a payload region as it is.
pub open spec fn keeps_length<R, L>(layer: L) -> bool where
    L: Fn(&R, usize, Vec<u8>) -> Vec<u8>,
 {
    forall|secrets: &R, hop: usize, inner: Vec<u8>, outer: Vec<u8>| #[trigger]
        call_ensures(layer, (secrets, hop, inner), outer) ==> outer@.len() == inner@.len()
}

/// The secret keys of relays.
pub open spec fn keys_of(relays: Seq<RelayState>) -> Seq<Seq<u8>> {
    relays.map_values(|relay: RelayState| relay.sk)
}

/// Whether every path that `pick` finds is `path`, and its hops are `relays`.
pub open spec fn leads_along<D, P>(
    pick: P,
    hop_count: usize,
    path: Seq<PathHop<D>>,
    relays: Seq<RelayState>,
) -> bool where P: FnOnce(usize) -> Option<Vec<PathHop<D>>> {
    &&& forall|picked: Option<Vec<PathHop<D>>>| #[trigger]
        call_ensures(pick, (hop_count,), picked) && picked is Some ==> picked->0@ == path
    &&& path.len() == relays.len()
    &&& keys_listed(path, relays)
}

/// Whether a path lists relays under their own keys, where it lists a key.
pub open spec fn keys_listed<D>(path: Seq<PathHop<D>>, relays: Seq<RelayState>) -> bool {
    forall|i: int|
        0 <= i < path.len() ==> ((#[trigger] path[i]).kem_pubkey matches Some(key) ==> key@
            == x25519_public(relays[i].sk))
}

/// Whether a relay has nothing against a packet: its rate limit admits it, its
/// version policy accepts the header, and the header was not seen before.
pub open spec fn lets_pass<H, K>(relay: RelayState, f: Findings<H, K>) -> bool {
    &&& decide(relay.allowance, f.admitted_at) == RateDecision::Allow
    &&& f.parsed matches Some(header) ==> {
        &&& version_policy(relay, header.version) is Some
        &&& verdict(relay.replay, header.gamma@, f.seen_at, relay.replay_ttl)
            == ReplayCheck::Fresh
    }
}

/// Whether a packet travels along relays, some of them or all: the first is
/// handed `packet`, each finds out what it does about what it is handed, and
/// what one forwards the next is handed.
pub open spec fn travels<H, K, Q, U, T, E>(
    packet: Seq<u8>,
    relays: Seq<RelayState>,
    packets: Seq<Seq<u8>>,
    findings: Seq<Findings<H, K>>,
    parse: Q,
    open: U,
    draw: T,
    peel: E,
) -> bool where
    Q: FnOnce([u8; 384]) -> Option<ParsedHeader<H>>,
    U: FnOnce(H, [u8; 32]) -> Result<OpenedHeader<K>, OpenFailure>,
    T: FnOnce() -> Duration,
    E: FnOnce(K, Vec<u8>) -> Vec<u8>,
 {
    &&& 0 < packets.len() <= relays.len()
    &&& findings.len() == packets.len()
    &&& packets[0] == packet
    &&& forall|i: int|
        0 <= i < packets.len() ==> found(
            relays[i],
            packets[i],
            #[trigger] findings[i],
            parse,
            open,
            draw,
            peel,
        )
    &&& forall|i: int|
        0 <= i < packets.len() - 1 ==> (outcome_of(
            relays[i],
            packets[i].len(),
            #[trigger] findings[i],
        ) matches Outcome::Forward { packet: onward, .. } ==> packets[i + 1] == onward)
}

/// Whether the `i`-th relay of a path does its part in the delivery of a
/// payload: it forwards the packet to the next relay, at the address that the
/// directory lists, or it is the last and delivers the padded payload.
pub open spec fn does_its_part<D>(
    payload: Seq<u8>,
    path: Seq<PathHop<D>>,
    relays: Seq<RelayState>,
    packets: Seq<Seq<u8>>,
    i: int,
    outcome: Outcome,
) -> bool {
    match outcome {
        Outcome::Forward { next_addr, next_node_id, via_rendezvous, packet, .. } => {
            &&& i + 1 < relays.len()
            &&& i + 1 < packets.len() ==> packet == packets[i + 1]
            &&& next_node_id == x25519_public(relays[i + 1].sk)
            &&& path[i + 1].ipv4 == Some(next_addr.ip)
            &&& path[i + 1].port == Some(next_addr.port)
            &&& !via_rendezvous
        },
        Outcome::DeliverLocal { payload: delivered, .. } => {
            &&& i + 1 == relays.len()
            &&& delivered == padded(payload)
        },
        Outcome::Drop(_) => false,
    }
}

/// Whether a shipment goes the way it should, as far as it has come: it is for
/// the first relay, and every relay that it came to does its part.
pub open spec fn goes_its_way<D, H, K>(
    payload: Seq<u8>,
    shipment: Shipment<D>,
    path: Seq<PathHop<D>>,
    relays: Seq<RelayState>,
    packets: Seq<Seq<u8>>,
    findings: Seq<Findings<H, K>>,
) -> bool {
    &&& path[0].dial == Some(shipment.entry)
    &&& shipment.entry_pk@ == x25519_public(relays[0].sk)
    &&& shipment.packet@.len() == PACKET_SIZE
    &&& forall|i: int|
        0 <= i < packets.len() ==> does_its_part(
            payload,
            path,
            relays,
            packets,
            i,
            outcome_of(relays[i], packets[i].len(), #[trigger] findings[i]),
        )
}

/// The payload that the last relay delivers, where it delivers one.
pub open spec fn delivered_payload<H, K>(
    relays: Seq<RelayState>,
    packets: Seq<Seq<u8>>,
    findings: Seq<Findings<H, K>>,
) -> Option<Seq<u8>> {
    match outcome_of(relays.last(), packets.last().len(), findings.last()) {
        Outcome::DeliverLocal { payload, .. } => Some(payload),
        _ => None,
    }
}

/// Whether no relay has anything against the packet that it is handed.
pub open spec fn all_let_pass<H, K>(
    relays: Seq<RelayState>,
    findings: Seq<Findings<H, K>>,
) -> bool {
    forall|i: int| 0 <= i < findings.len() ==> lets_pass(relays[i], #[trigger] findings[i])
}

/// Whether no two relays in a row have one key.
pub open spec fn neighbours_differ(relays: Seq<RelayState>) -> bool {
    forall|i: int, j: int|
        0 <= i < j < relays.len() && j == i + 1 ==> x25519_public((#[trigger] relays[i]).sk)
            != x25519_public((#[trigger] relays[j]).sk)
}

/// One hop: a relay that is handed a header built for it, and a payload region
/// with its layer outermost, opens the one and takes that layer off the other.
proof fn lemma_one_hop<R, H, K, L, Q, U, T, E>(
    relay: RelayState,
    hop: int,
    secrets: R,
    record: HopRecord,
    header: Seq<u8>,
    next: Seq<u8>,
    inner: Vec<u8>,
    outer: Vec<u8>,
    f: Findings<H, K>,
    layer: L,
    parse: Q,
    open: U,
    draw: T,
    peel: E,
) where
    L: Fn(&R, usize, Vec<u8>) -> Vec<u8>,
    Q: FnOnce([u8; 384]) -> Option<ParsedHeader<H>>,
    U: FnOnce(H, [u8; 32]) -> Result<OpenedHeader<K>, OpenFailure>,
    T: FnOnce() -> Duration,
    E: FnOnce(K, Vec<u8>) -> Vec<u8>,

    requires
        header.len() == HEADER_LEN,
        outer@.len() == MAX_PAYLOAD_SIZE,
        opens_for(relay.sk, hop, secrets, record, header, next, layer, parse, open, peel),
        call_ensures(layer, (&secrets, hop as usize, inner), outer),
        lets_pass(relay, f),
        found(relay, header + outer@, f, parse, open, draw, peel),
    ensures
        stage(relay, PACKET_SIZE as nat, f) is Disposed,
        f.opened->Ok_0.record == record,
        !record.last_hop ==> f.opened->Ok_0.next_header@ == next,
        f.peeled == inner@,
{
    let packet = header + outer@;
    assert(packet.len() == PACKET_SIZE);
    assert(packet.take(HEADER_LEN as int) =~= header);
    assert(packet.skip(HEADER_LEN as int) =~= outer@);
    let bytes = choose|bytes: [u8; 384]|
        bytes@ == packet.take(HEADER_LEN as int) && #[trigger] call_ensures(
            parse,
            (bytes,),
            f.parsed,
        );
    assert(call_ensures(parse, (bytes,), f.parsed));
    assert(f.parsed is Some);
    let shared = choose|shared: [u8; 32]|
        shared@ == x25519_shared(relay.sk, f.parsed->0.alpha@) && #[trigger] call_ensures(
            open,
            (f.parsed->0.header, shared),
            f.opened,
        );
    assert(call_ensures(open, (f.parsed->0.header, shared), f.opened));
    assert(f.opened is Ok);
    assert(stage(relay, packet.len(), f) is Disposed);
    let (region, out) = choose|region: Vec<u8>, out: Vec<u8>|
        region@ == packet.skip(HEADER_LEN as int) && out@ == f.peeled && #[trigger] call_ensures(
            peel,
            (f.opened->Ok_0.payload_key, region),
            out,
        );
    assert(call_ensures(peel, (f.opened->Ok_0.payload_key, region), out));
    assert(peels_off(secrets, hop, f.opened->Ok_0.payload_key, layer, peel));
}

/// A payload region is as long under any number of layers as under none.
proof fn lemma_layers_keep_length<R, L>(layers: Seq<Vec<u8>>, secrets: R, layer: L, j: int) where
    L: Fn(&R, usize, Vec<u8>) -> Vec<u8>,

    requires
        0 <= j < layers.len(),
        keeps_length(layer),
        forall|j: int|
            #![trigger layers[j + 1]]
            0 <= j < layers.len() - 1 ==> call_ensures(
                layer,
                (&secrets, (layers.len() - 2 - j) as usize, layers[j]),
                layers[j + 1],
            ),
    ensures
        layers[j]@.len() == layers[0]@.len(),
    decreases j,
{
    if j > 0 {
        lemma_layers_keep_length(layers, secrets, layer, j - 1);
        assert(layers[(j - 1) + 1] == layers[j]);
    }
}

/// Every packet has the same size, whatever the payload, wherever a layer leaves
/// the length of a payload region as it is.
pub proof fn a_sent_packet_is_whole<D, R, P, V, S, W, L>(
    payload: Seq<u8>,
    hop_count: usize,
    pick: P,
    derive: V,
    sample: S,
    wrap: W,
    layer: L,
    r: Result<Shipment<D>, ClientError>,
) where
    P: FnOnce(usize) -> Option<Vec<PathHop<D>>>,
    V: FnOnce(&Vec<[u8; 32]>) -> Option<R>,
    S: Fn(usize) -> Duration,
    W: FnOnce(&R, &Vec<HopRecord>) -> Option<[u8; 384]>,
    L: Fn(&R, usize, Vec<u8>) -> Vec<u8>,

    requires
        sends(payload, hop_count, pick, derive, sample, wrap, layer, r),
        r is Ok,
        keeps_length(layer),
    ensures
        r->Ok_0.packet@.len() == PACKET_SIZE,
{
    let t = choose|t: SendTrace<D, R>| #[trigger]
        send_traced(payload, hop_count, t, pick, derive, sample, wrap, layer) && send_ends(
            payload.len(),
            hop_count,
            t,
            r,
        );
    lemma_layers_keep_length(t.layers, t.secrets->0, layer, t.layers.len() - 1);
}

/// The `i`-th relay of a path is handed the header that was built for it, with
/// the payload region under the layers of the hops from `i` on. It does its
/// part.
proof fn lemma_on_the_way<D, R, H, K, L, Q, U, T, E>(
    i: int,
    payload: Seq<u8>,
    path: Seq<PathHop<D>>,
    relays: Seq<RelayState>,
    packets: Seq<Seq<u8>>,
    findings: Seq<Findings<H, K>>,
    secrets: R,
    records: Seq<HopRecord>,
    headers: Seq<Seq<u8>>,
    layers: Seq<Vec<u8>>,
    layer: L,
    parse: Q,
    open: U,
    draw: T,
    peel: E,
) where
    L: Fn(&R, usize, Vec<u8>) -> Vec<u8>,
    Q: FnOnce([u8; 384]) -> Option<ParsedHeader<H>>,
    U: FnOnce(H, [u8; 32]) -> Result<OpenedHeader<K>, OpenFailure>,
    T: FnOnce() -> Duration,
    E: FnOnce(K, Vec<u8>) -> Vec<u8>,

    requires
        0 <= i < packets.len(),
        path.len() == relays.len(),
        records.len() == relays.len(),
        layers.len() == relays.len() + 1,
        layers[0]@ == padded(payload),
        header_unfolds(keys_of(relays), secrets, records, headers, layer, parse, open, peel),
        travels(headers[0] + layers.last()@, relays, packets, findings, parse, open, draw, peel),
        all_let_pass(relays, findings),
        neighbours_differ(relays),
        keys_listed(path, relays),
        forall|i: int| 0 <= i < relays.len() ==> record_for(path, i, #[trigger] records[i]),
        forall|j: int|
            0 <= j < layers.len() ==> (#[trigger] layers[j])@.len() == MAX_PAYLOAD_SIZE,
        forall|j: int|
            #![trigger layers[j + 1]]
            0 <= j < relays.len() ==> call_ensures(
                layer,
                (&secrets, (relays.len() - 1 - j) as usize, layers[j]),
                layers[j + 1],
            ),
    ensures
        packets[i] == headers[i] + layers[relays.len() - i]@,
        stage(relays[i], packets[i].len(), findings[i]) is Disposed,
        findings[i].opened->Ok_0.record == records[i],
        i + 1 < relays.len() ==> findings[i].opened->Ok_0.next_header@ == headers[i + 1],
        findings[i].peeled == layers[relays.len() - 1 - i]@,
        does_its_part(
            payload,
            path,
            relays,
            packets,
            i,
            outcome_of(relays[i], packets[i].len(), findings[i]),
        ),
    decreases i,
{
    let n = relays.len() as int;
    if i > 0 {
        lemma_on_the_way(
            i - 1,
            payload,
            path,
            relays,
            packets,
            findings,
            secrets,
            records,
            headers,
            layers,
            layer,
            parse,
            open,
            draw,
            peel,
        );
        assert(packets[i] == headers[i] + layers[n - i]@);
    }
    let j = n - 1 - i;
    assert(layers[j + 1] == layers[n - i]);
    assert(n - 1 - j == i);
    assert(headers[i].len() == HEADER_LEN);
    assert(keys_of(relays)[i] == relays[i].sk);
    assert(found(relays[i], packets[i], findings[i], parse, open, draw, peel));
    assert(record_for(path, i, records[i]));
    lemma_one_hop(
        relays[i],
        i,
        secrets,
        records[i],
        headers[i],
        headers[i + 1],
        layers[j],
        layers[j + 1],
        findings[i],
        layer,
        parse,
        open,
        draw,
        peel,
    );
    if i + 1 < n {
        assert(path[i + 1].kem_pubkey == Some(records[i].next_node_id));
    }
}

/// What was sent is delivered. Where `pick` finds a path along `relays`, the
/// halves of the codec fit, no relay has anything against the packet and no two
/// relays in a row have one key: the packet that [`crate::client::GothamClient::send`]
/// makes is for the first relay, each relay that it comes to forwards it to the
/// next, and the last delivers the payload with zeros up to the length of the
/// payload region.
pub proof fn a_sent_payload_is_delivered<D, R, H, K, P, V, S, W, L, Q, U, T, E>(
    payload: Seq<u8>,
    hop_count: usize,
    pick: P,
    derive: V,
    sample: S,
    wrap: W,
    layer: L,
    r: Result<Shipment<D>, ClientError>,
    path: Seq<PathHop<D>>,
    relays: Seq<RelayState>,
    packets: Seq<Seq<u8>>,
    findings: Seq<Findings<H, K>>,
    parse: Q,
    open: U,
    draw: T,
    peel: E,
) where
    P: FnOnce(usize) -> Option<Vec<PathHop<D>>>,
    V: FnOnce(&Vec<[u8; 32]>) -> Option<R>,
    S: Fn(usize) -> Duration,
    W: FnOnce(&R, &Vec<HopRecord>) -> Option<[u8; 384]>,
    L: Fn(&R, usize, Vec<u8>) -> Vec<u8>,
    Q: FnOnce([u8; 384]) -> Option<ParsedHeader<H>>,
    U: FnOnce(H, [u8; 32]) -> Result<OpenedHeader<K>, OpenFailure>,
    T: FnOnce() -> Duration,
    E: FnOnce(K, Vec<u8>) -> Vec<u8>,

    requires
        sends(payload, hop_count, pick, derive, sample, wrap, layer, r),
        r is Ok,
        leads_along(pick, hop_count, path, relays),
        codec_fits(keys_of(relays), derive, wrap, layer, parse, open, peel),
        travels(r->Ok_0.packet@, relays, packets, findings, parse, open, draw, peel),
        all_let_pass(relays, findings),
        neighbours_differ(relays),
    ensures
        goes_its_way(payload, r->Ok_0, path, relays, packets, findings),
        packets.len() == relays.len() ==> delivered_payload(relays, packets, findings) == Some(
            padded(payload),
        ),
{
    let t = choose|t: SendTrace<D, R>| #[trigger]
        send_traced(payload, hop_count, t, pick, derive, sample, wrap, layer) && send_ends(
            payload.len(),
            hop_count,
            t,
            r,
        );
    let n = relays.len() as int;
    let secrets = t.secrets->0;
    assert(t.path->0@ == path);
    let keys = choose|keys: Vec<[u8; 32]>|
        #![trigger call_ensures(derive, (&keys,), t.secrets)]
        {
            &&& keys@.len() == n
            &&& forall|i: int| 0 <= i < n ==> path[i].kem_pubkey == Some(#[trigger] keys@[i])
            &&& call_ensures(derive, (&keys,), t.secrets)
        };
    assert(call_ensures(derive, (&keys,), t.secrets));
    assert(call_ensures(wrap, (&t.secrets->0, &t.records), t.header));
    assert forall|i: int| 0 <= i < n implies (#[trigger] keys@[i])@ == x25519_public(
        keys_of(relays)[i],
    ) by {
        assert(path[i].kem_pubkey == Some(keys@[i]));
    }
    assert forall|i: int| 0 <= i < n implies (#[trigger] t.records@[i]).last_hop == (i + 1 == n) by {
        assert(record_for(path, i, t.records@[i]));
    }
    let headers = choose|headers: Seq<Seq<u8>>| #[trigger]
        header_unfolds(
            keys_of(relays),
            secrets,
            t.records@,
            headers,
            layer,
            parse,
            open,
            peel,
        ) && headers[0] == t.header->0@;
    assert(header_unfolds(
        keys_of(relays),
        secrets,
        t.records@,
        headers,
        layer,
        parse,
        open,
        peel,
    ));
    assert forall|j: int| 0 <= j < t.layers.len() implies (#[trigger] t.layers[j])@.len()
        == MAX_PAYLOAD_SIZE by {
        lemma_layers_keep_length(t.layers, secrets, layer, j);
    }
    assert forall|i: int| 0 <= i < packets.len() implies does_its_part(
        payload,
        path,
        relays,
        packets,
        i,
        outcome_of(relays[i], packets[i].len(), #[trigger] findings[i]),
    ) by {
        lemma_on_the_way(
            i,
            payload,
            path,
            relays,
            packets,
            findings,
            secrets,
            t.records@,
            headers,
            t.layers,
            layer,
            parse,
            open,
            draw,
            peel,
        );
    }
    assert(findings.last() == findings[findings.len() - 1]);
}

/// Whether unsealing gives back who sealed a body, and the body.
pub open spec fn unseals<E, X>(
    recipient_pk: &[u8; 32],
    sender_pk: &[u8; 32],
    body: &[u8],
    seal: E,
    unseal: X,
) -> bool where
    E: FnOnce(&[u8; 32], &[u8; 32], &[u8]) -> Option<Vec<u8>>,
    X: FnOnce(Vec<u8>) -> Option<([u8; 32], Vec<u8>)>,
 {
    forall|sealed: Option<Vec<u8>>, envelope: Vec<u8>, got: Option<([u8; 32], Vec<u8>)>|
        #![trigger call_ensures(seal, (recipient_pk, sender_pk, body), sealed), call_ensures(unseal, (envelope,), got)]
        call_ensures(seal, (recipient_pk, sender_pk, body), sealed) && sealed is Some && envelope@
            == sealed->0@ && call_ensures(unseal, (envelope,), got) ==> {
            &&& got is Some
            &&& (got->0).0@ == sender_pk@
            &&& (got->0).1@ == body@
        }
}

/// What was sealed and sent is read by its recipient. Under what
/// [`a_sent_payload_is_delivered`] asks, and where unsealing undoes sealing: in
/// what the last relay delivers stands the envelope that was sealed, and opening
/// the delivery gives the sender and the body.
pub proof fn a_sealed_body_is_read<D, R, H, K, N, P, V, S, W, L, Q, U, T, E, X>(
    hop_count: usize,
    recipient_pk: &[u8; 32],
    sender_pk: &[u8; 32],
    body: &[u8],
    sealed: Option<Vec<u8>>,
    seal: N,
    pick: P,
    derive: V,
    sample: S,
    wrap: W,
    layer: L,
    r: Result<Shipment<D>, ClientError>,
    path: Seq<PathHop<D>>,
    relays: Seq<RelayState>,
    packets: Seq<Seq<u8>>,
    findings: Seq<Findings<H, K>>,
    parse: Q,
    open: U,
    draw: T,
    peel: E,
    unseal: X,
    got: Option<([u8; 32], Vec<u8>)>,
) where
    N: FnOnce(&[u8; 32], &[u8; 32], &[u8]) -> Option<Vec<u8>>,
    P: FnOnce(usize) -> Option<Vec<PathHop<D>>>,
    V: FnOnce(&Vec<[u8; 32]>) -> Option<R>,
    S: Fn(usize) -> Duration,
    W: FnOnce(&R, &Vec<HopRecord>) -> Option<[u8; 384]>,
    L: Fn(&R, usize, Vec<u8>) -> Vec<u8>,
    Q: FnOnce([u8; 384]) -> Option<ParsedHeader<H>>,
    U: FnOnce(H, [u8; 32]) -> Result<OpenedHeader<K>, OpenFailure>,
    T: FnOnce() -> Duration,
    E: FnOnce(K, Vec<u8>) -> Vec<u8>,
    X: FnOnce(Vec<u8>) -> Option<([u8; 32], Vec<u8>)>,

    requires
        call_ensures(seal, (recipient_pk, sender_pk, body), sealed),
        sends_envelope(sealed, hop_count, pick, derive, sample, wrap, layer, r),
        r is Ok,
        leads_along(pick, hop_count, path, relays),
        codec_fits(keys_of(relays), derive, wrap, layer, parse, open, peel),
        travels(r->Ok_0.packet@, relays, packets, findings, parse, open, draw, peel),
        all_let_pass(relays, findings),
        neighbours_differ(relays),
        unseals(recipient_pk, sender_pk, body, seal, unseal),
        packets.len() == relays.len(),
        delivered_payload(relays, packets, findings) matches Some(delivered) ==> delivery_opens(
            delivered,
            unseal,
            got,
        ),
    ensures
        sealed is Some,
        goes_its_way(framed_envelope(sealed->0@), r->Ok_0, path, relays, packets, findings),
        delivered_payload(relays, packets, findings) == Some(padded(framed_envelope(sealed->0@))),
        envelope_of(delivered_payload(relays, packets, findings)->0) == Some(sealed->0@),
        got is Some,
        (got->0).0@ == sender_pk@,
        (got->0).1@ == body@,
{
    let envelope = sealed->0@;
    a_sent_payload_is_delivered(
        framed_envelope(envelope),
        hop_count,
        pick,
        derive,
        sample,
        wrap,
        layer,
        r,
        path,
        relays,
        packets,
        findings,
        parse,
        open,
        draw,
        peel,
    );
    envelope_reads_back(envelope);
}

/// Whether a path can be used: it has a relay, every relay on it is listed with
/// its key, every one but the first with the address that the one before it is
/// told, and the first with the address to dial.
pub open spec fn usable_path<D>(path: Seq<PathHop<D>>) -> bool {
    &&& path.len() > 0
    &&& path[0].dial is Some
    &&& forall|i: int|
        0 <= i < path.len() ==> {
            &&& (#[trigger] path[i]).kem_pubkey is Some
            &&& i > 0 ==> path[i].ipv4 is Some && path[i].port is Some
        }
}

/// The addresses of a usable path have no fault.
proof fn lemma_usable_path<D>(path: Seq<PathHop<D>>, from: int)
    requires
        0 <= from,
        forall|i: int|
            from < i < path.len() ==> (#[trigger] path[i]).ipv4 is Some && path[i].port is Some,
    ensures
        address_fault(path, from) is None,
    decreases path.len() - from,
{
    if from + 1 < path.len() {
        assert(path[from + 1].ipv4 is Some);
        lemma_usable_path(path, from + 1);
    }
}

/// Sending succeeds where it should: a payload of at most 1664 bytes, along 3,
/// 4 or 5 hops, is made into a packet wherever every path that `pick` finds can
/// be used and neither deriving secrets nor building the header fails.
pub proof fn a_usable_path_is_used<D, R, P, V, S, W, L>(
    client: &GothamClient,
    hop_count: usize,
    payload: &[u8],
    pick: P,
    derive: V,
    sample: S,
    wrap: W,
    layer: L,
    r: Result<Shipment<D>, ClientError>,
) where
    P: FnOnce(usize) -> Option<Vec<PathHop<D>>>,
    V: FnOnce(&Vec<[u8; 32]>) -> Option<R>,
    S: Fn(usize) -> Duration,
    W: FnOnce(&R, &Vec<HopRecord>) -> Option<[u8; 384]>,
    L: Fn(&R, usize, Vec<u8>) -> Vec<u8>,

    requires
        call_ensures(
            GothamClient::send::<D, R, P, V, S, W, L>,
            (client, hop_count, payload, pick, derive, sample, wrap, layer),
            r,
        ),
        payload@.len() <= 1664,
        hop_count == 3 || hop_count == 4 || hop_count == 5,
        forall|path: Option<Vec<PathHop<D>>>| #[trigger]
            call_ensures(pick, (hop_count,), path) ==> path is Some && usable_path(path->0@),
        forall|keys: Vec<[u8; 32]>, secrets: Option<R>| #[trigger]
            call_ensures(derive, (&keys,), secrets) ==> secrets is Some,
        forall|secrets: R, records: Vec<HopRecord>, header: Option<[u8; 384]>| #[trigger]
            call_ensures(wrap, (&secrets, &records), header) ==> header is Some,
    ensures
        r is Ok,
{
    let t = choose|t: SendTrace<D, R>| #[trigger]
        send_traced(payload@, hop_count, t, pick, derive, sample, wrap, layer) && send_ends(
            payload@.len(),
            hop_count,
            t,
            r,
        );
    assert(call_ensures(pick, (hop_count,), t.path));
    let path = t.path->0@;
    lemma_usable_path(path, 0);
    assert(!key_missing(path)) by {
        if key_missing(path) {
            let i = choose|i: int|
                0 <= i < path.len() && (#[trigger] path[i]).kem_pubkey is None;
            assert(path[i].kem_pubkey is Some);
        }
    }
    let keys = choose|keys: Vec<[u8; 32]>|
        #![trigger call_ensures(derive, (&keys,), t.secrets)]
        {
            &&& keys@.len() == path.len()
            &&& forall|i: int|
                0 <= i < path.len() ==> path[i].kem_pubkey == Some(#[trigger] keys@[i])
            &&& call_ensures(derive, (&keys,), t.secrets)
        };
    assert(call_ensures(derive, (&keys,), t.secrets));
    assert(call_ensures(wrap, (&t.secrets->0, &t.records), t.header));
}

/// Every mode has a hop count, each more than the one before, and sending
/// accepts it.
pub proof fn every_mode_is_accepted<D, R, P, V, S, W, L>(
    mode: Mode,
    hops: Option<usize>,
    client: &GothamClient,
    payload: &[u8],
    pick: P,
    derive: V,
    sample: S,
    wrap: W,
    layer: L,
    r: Result<Shipment<D>, ClientError>,
) where
    P: FnOnce(usize) -> Option<Vec<PathHop<D>>>,
    V: FnOnce(&Vec<[u8; 32]>) -> Option<R>,
    S: Fn(usize) -> Duration,
    W: FnOnce(&R, &Vec<HopRecord>) -> Option<[u8; 384]>,
    L: Fn(&R, usize, Vec<u8>) -> Vec<u8>,

    requires
        call_ensures(hop_count_for_mode, (Some(mode),), hops),
        hops is Some ==> call_ensures(
            GothamClient::send::<D, R, P, V, S, W, L>,
            (client, hops->0, payload, pick, derive, sample, wrap, layer),
            r,
        ),
    ensures
        hops is Some,
        mode == Mode::LowLatency ==> hops->0 == 3,
        mode == Mode::Balanced ==> hops->0 == 4,
        mode == Mode::Paranoid ==> hops->0 == 5,
        !(r is Err && r->Err_0 is BadHopCount),
{
    let t = choose|t: SendTrace<D, R>| #[trigger]
        send_traced(payload@, hops->0, t, pick, derive, sample, wrap, layer) && send_ends(
            payload@.len(),
            hops->0,
            t,
            r,
        );
    assert(send_ends(payload@.len(), hops->0, t, r));
}

/// A mode that is not known has no hop count.
pub proof fn an_unknown_mode_has_no_hops(hops: Option<usize>)
    requires
        call_ensures(hop_count_for_mode, (None,), hops),
    ensures
        hops is None,
{
}

/// Whether the relays of a path up to the `j`-th, but for the first, are listed
/// with the addresses that the ones before them are told.
pub open spec fn told_up_to<D>(path: Seq<PathHop<D>>, j: int) -> bool {
    &&& 0 < j <= path.len()
    &&& forall|k: int|
        0 < k < j ==> (#[trigger] path[k]).ipv4 is Some && path[k].port is Some
}

/// Whether `why` says what is first wrong with the entries of a path: a key that
/// is missing, else the first address or port that a relay would be told, else
/// the address to dial.
pub open spec fn entries_are_at_fault<D>(path: Seq<PathHop<D>>, why: Seq<char>) -> bool {
    if exists|i: int| 0 <= i < path.len() && (#[trigger] path[i]).kem_pubkey is None {
        why == "relay kem pubkey malformed"@
    } else {
        ||| exists|j: int| #[trigger]
            told_up_to(path, j) && j < path.len() && path[j].ipv4 is None && why
                == "non-ipv4 next addr"@
        ||| exists|j: int| #[trigger]
            told_up_to(path, j) && j < path.len() && path[j].ipv4 is Some && path[j].port is None
                && why == "bad next port"@
        ||| told_up_to(path, path.len() as int) && path[0].dial is None && why
            == "entry addr parse"@
    }
}

/// The first fault in the addresses of a path is at the first relay that has one.
proof fn lemma_address_fault<D>(path: Seq<PathHop<D>>, from: int)
    requires
        told_up_to(path, from + 1),
    ensures
        match address_fault(path, from) {
            Some(why) => {
                ||| exists|j: int| #[trigger]
                    told_up_to(path, j) && j < path.len() && path[j].ipv4 is None && why
                        == "non-ipv4 next addr"@
                ||| exists|j: int| #[trigger]
                    told_up_to(path, j) && j < path.len() && path[j].ipv4 is Some
                        && path[j].port is None && why == "bad next port"@
            },
            None => told_up_to(path, path.len() as int),
        },
    decreases path.len() - from,
{
    if from + 1 < path.len() && path[from + 1].ipv4 is Some && path[from + 1].port is Some {
        assert(told_up_to(path, from + 2));
        lemma_address_fault(path, from + 1);
    }
}

/// Why sending may fail: each error with what it means of the arguments and of
/// what the caller's functions gave.
pub proof fn a_failure_has_its_cause<D, R, P, V, S, W, L>(
    client: &GothamClient,
    hop_count: usize,
    payload: &[u8],
    pick: P,
    derive: V,
    sample: S,
    wrap: W,
    layer: L,
    r: Result<Shipment<D>, ClientError>,
) where
    P: FnOnce(usize) -> Option<Vec<PathHop<D>>>,
    V: FnOnce(&Vec<[u8; 32]>) -> Option<R>,
    S: Fn(usize) -> Duration,
    W: FnOnce(&R, &Vec<HopRecord>) -> Option<[u8; 384]>,
    L: Fn(&R, usize, Vec<u8>) -> Vec<u8>,

    requires
        call_ensures(
            GothamClient::send::<D, R, P, V, S, W, L>,
            (client, hop_count, payload, pick, derive, sample, wrap, layer),
            r,
        ),
        r is Err,
    ensures
        r->Err_0 is PayloadTooLarge <==> payload@.len() > 1664,
        r->Err_0 is BadHopCount <==> payload@.len() <= 1664 && (hop_count < 3 || hop_count > 5),
        !(r->Err_0 is Transport),
        r->Err_0 is PathSelection || r->Err_0 is BadDirectory ==> exists|
            path: Option<Vec<PathHop<D>>>,
        | #[trigger]
            call_ensures(pick, (hop_count,), path) && if path is None || path->0@.len() == 0 {
                r->Err_0 is PathSelection
            } else {
                &&& r->Err_0 is BadDirectory
                &&& !usable_path(path->0@)
                &&& entries_are_at_fault(path->0@, r->Err_0->BadDirectory_0@)
            },
        r->Err_0 is Crypto ==> {
            ||| exists|keys: Vec<[u8; 32]>, secrets: Option<R>| #[trigger]
                call_ensures(derive, (&keys,), secrets) && secrets is None
            ||| exists|secrets: R, records: Vec<HopRecord>, header: Option<[u8; 384]>| #[trigger]
                call_ensures(wrap, (&secrets, &records), header) && header is None
        },
{
    let t = choose|t: SendTrace<D, R>| #[trigger]
        send_traced(payload@, hop_count, t, pick, derive, sample, wrap, layer) && send_ends(
            payload@.len(),
            hop_count,
            t,
            r,
        );
    assert(r->Err_0@ == send_fault(payload@.len(), hop_count, t)->0);
    if !(send_stage(payload@.len(), hop_count, t) is Refused) {
        assert(call_ensures(pick, (hop_count,), t.path));
        let path = t.path->0@;
        if t.path is Some && path.len() > 0 {
            assert(told_up_to(path, 1));
            lemma_address_fault(path, 0);
        }
        if t.path is Some && usable_path(path) {
            lemma_usable_path(path, 0);
            if key_missing(path) {
                let i = choose|i: int|
                    0 <= i < path.len() && (#[trigger] path[i]).kem_pubkey is None;
                assert(path[i].kem_pubkey is Some);
            }
        }
    }
    if send_stage(payload@.len(), hop_count, t) is NoHeader {
        assert(call_ensures(wrap, (&t.secrets->0, &t.records), t.header));
    }
}

/// Whether `record` tells the `i`-th hop of a path where to send a packet next,
/// and how long to hold it: the address and key of the hop after it, or for the
/// last hop that it is the last, and a draw of `sample` for this hop, of at
/// least a microsecond and at most a hundred times the mean of 20 milliseconds.
pub open spec fn tells_the_way<D, S>(
    path: Seq<PathHop<D>>,
    i: int,
    sample: S,
    record: HopRecord,
) -> bool where S: Fn(usize) -> Duration {
    &&& !record.via_rendezvous
    &&& record.last_hop == (i == path.len() - 1)
    &&& i < path.len() - 1 ==> {
        &&& path[i + 1].ipv4 == Some(record.next_ipv4)
        &&& path[i + 1].port == Some(record.next_port)
        &&& path[i + 1].kem_pubkey == Some(record.next_node_id)
    }
    &&& i == path.len() - 1 ==> {
        &&& record.next_port == 0
        &&& forall|j: int| 0 <= j < 4 ==> #[trigger] record.next_ipv4@[j] == 0
        &&& forall|j: int| 0 <= j < 32 ==> #[trigger] record.next_node_id@[j] == 0
    }
    &&& exists|d: Duration|
        #![trigger call_ensures(sample, (i as usize,), d)]
        {
            &&& call_ensures(sample, (i as usize,), d)
            &&& duration_nanos(d) < 1_000 ==> record.delay_micros == 1
            &&& 1_000 <= duration_nanos(d) <= 2_000_000_000 ==> record.delay_micros
                == duration_nanos(d) / 1_000
            &&& duration_nanos(d) > 2_000_000_000 ==> record.delay_micros == 2_000_000
        }
}

/// What is sent: for the first relay of a path that `pick` found, a packet whose
/// header was built of the secrets of the relays' keys and of one record for
/// each relay, which tells it the way.
pub proof fn a_packet_tells_its_hops_the_way<D, R, P, V, S, W, L>(
    client: &GothamClient,
    hop_count: usize,
    payload: &[u8],
    pick: P,
    derive: V,
    sample: S,
    wrap: W,
    layer: L,
    r: Result<Shipment<D>, ClientError>,
) where
    P: FnOnce(usize) -> Option<Vec<PathHop<D>>>,
    V: FnOnce(&Vec<[u8; 32]>) -> Option<R>,
    S: Fn(usize) -> Duration,
    W: FnOnce(&R, &Vec<HopRecord>) -> Option<[u8; 384]>,
    L: Fn(&R, usize, Vec<u8>) -> Vec<u8>,

    requires
        call_ensures(
            GothamClient::send::<D, R, P, V, S, W, L>,
            (client, hop_count, payload, pick, derive, sample, wrap, layer),
            r,
        ),
        r is Ok,
    ensures
        payload@.len() <= 1664,
        3 <= hop_count <= 5,
        exists|
            path: Option<Vec<PathHop<D>>>,
            keys: Vec<[u8; 32]>,
            secrets: Option<R>,
            records: Vec<HopRecord>,
            header: Option<[u8; 384]>,
        |
            {
                &&& #[trigger] call_ensures(pick, (hop_count,), path)
                &&& path is Some
                &&& #[trigger] call_ensures(derive, (&keys,), secrets)
                &&& secrets is Some
                &&& #[trigger] call_ensures(wrap, (&secrets->0, &records), header)
                &&& header is Some
                &&& path->0@.len() > 0
                &&& path->0@[0].dial == Some(r->Ok_0.entry)
                &&& path->0@[0].kem_pubkey == Some(r->Ok_0.entry_pk)
                &&& keys@.len() == path->0@.len()
                &&& records@.len() == path->0@.len()
                &&& forall|i: int|
                    0 <= i < path->0@.len() ==> path->0@[i].kem_pubkey == Some(#[trigger] keys@[i])
                &&& forall|i: int|
                    0 <= i < path->0@.len() ==> tells_the_way(
                        path->0@,
                        i,
                        sample,
                        #[trigger] records@[i],
                    )
                &&& r->Ok_0.packet@.take(384) == header->0@
            },
{
    let t = choose|t: SendTrace<D, R>| #[trigger]
        send_traced(payload@, hop_count, t, pick, derive, sample, wrap, layer) && send_ends(
            payload@.len(),
            hop_count,
            t,
            r,
        );
    let path = t.path->0@;
    let keys = choose|keys: Vec<[u8; 32]>|
        #![trigger call_ensures(derive, (&keys,), t.secrets)]
        {
            &&& keys@.len() == path.len()
            &&& forall|i: int|
                0 <= i < path.len() ==> path[i].kem_pubkey == Some(#[trigger] keys@[i])
            &&& call_ensures(derive, (&keys,), t.secrets)
        };
    assert(call_ensures(pick, (hop_count,), t.path));
    assert(call_ensures(derive, (&keys,), t.secrets));
    assert(call_ensures(wrap, (&t.secrets->0, &t.records), t.header));
    assert(r->Ok_0.packet@.take(384) =~= t.header->0@);
    assert forall|i: int| 0 <= i < path.len() implies tells_the_way(
        path,
        i,
        sample,
        #[trigger] t.records@[i],
    ) by {
        let record = t.records@[i];
        assert(record_for(path, i, record));
        assert(delay_drawn(sample, i, record));
        let d = choose|d: Duration|
            #![trigger call_ensures(sample, (i as usize,), d)]
            call_ensures(sample, (i as usize,), d) && record.delay_micros == sender_delay(
                SENDER_MEAN_DELAY_MICROS as nat,
                duration_nanos(d),
            );
        assert(call_ensures(sample, (i as usize,), d));
    }
}

/// A sealed body is sent as any other payload, behind its length in four bytes;
/// one that does not fit, or cannot be sealed, is not.
pub proof fn a_sealed_body_is_sent_behind_its_length<D, R, N, P, V, S, W, L>(
    client: &GothamClient,
    hop_count: usize,
    recipient_pk: &[u8; 32],
    sender_pk: &[u8; 32],
    body: &[u8],
    seal: N,
    pick: P,
    derive: V,
    sample: S,
    wrap: W,
    layer: L,
    r: Result<Shipment<D>, ClientError>,
) where
    N: FnOnce(&[u8; 32], &[u8; 32], &[u8]) -> Option<Vec<u8>>,
    P: FnOnce(usize) -> Option<Vec<PathHop<D>>>,
    V: FnOnce(&Vec<[u8; 32]>) -> Option<R>,
    S: Fn(usize) -> Duration,
    W: FnOnce(&R, &Vec<HopRecord>) -> Option<[u8; 384]>,
    L: Fn(&R, usize, Vec<u8>) -> Vec<u8>,

    requires
        call_ensures(
            GothamClient::send_sealed::<D, R, N, P, V, S, W, L>,
            (
                client,
                hop_count,
                recipient_pk,
                sender_pk,
                body,
                seal,
                pick,
                derive,
                sample,
                wrap,
                layer,
            ),
            r,
        ),
    ensures
        exists|sealed: Option<Vec<u8>>| #[trigger]
            call_ensures(seal, (recipient_pk, sender_pk, body), sealed) && {
                &&& sealed is None ==> r is Err && r->Err_0 is Crypto
                &&& sealed is Some && sealed->0@.len() > 1660 ==> r is Err
                    && r->Err_0 is PayloadTooLarge
                &&& sealed is Some && sealed->0@.len() <= 1660 ==> exists|payload: Seq<u8>| #[trigger]
                    sends(payload, hop_count, pick, derive, sample, wrap, layer, r)
                        && payload.len() == 4 + sealed->0@.len() && payload.skip(4) == sealed->0@
                        && be_value(payload.take(4)) == sealed->0@.len()
            },
{
    let sealed = choose|sealed: Option<Vec<u8>>| #[trigger]
        call_ensures(seal, (recipient_pk, sender_pk, body), sealed) && sends_envelope(
            sealed,
            hop_count,
            pick,
            derive,
            sample,
            wrap,
            layer,
            r,
        );
    assert(call_ensures(seal, (recipient_pk, sender_pk, body), sealed));
    if sealed is Some && sealed->0@.len() <= 1660 {
        let envelope = sealed->0@;
        let payload = framed_envelope(envelope);
        lemma_be_bytes_len(envelope.len(), 4);
        lemma_be_limits();
        lemma_be_round_trip(envelope.len(), 4);
        assert(payload.skip(4) =~= envelope);
        assert(payload.take(4) =~= be_bytes(envelope.len(), 4));
    }
}

/// The delay that a sender writes for a hop is the draw in whole microseconds,
/// but at least one, and no more than a hundred times the scheduler's mean or
/// what the field holds.
pub proof fn a_senders_delay_is_the_draw(
    sched: &PoissonScheduler,
    sampled: Duration,
    micros: u32,
)
    requires
        call_ensures(sender_hop_delay_micros, (sched, sampled), micros),
    ensures
        micros >= 1,
        1_000 <= duration_nanos(sampled) <= sched.mean() * 100_000 && duration_nanos(sampled)
            <= u32::MAX * 1_000 ==> micros == duration_nanos(sampled) / 1_000,
        duration_nanos(sampled) < 1_000 ==> micros == 1,
        duration_nanos(sampled) > sched.mean() * 100_000 && 0 < sched.mean() * 100 <= u32::MAX
            ==> micros == sched.mean() * 100,
        sched.mean() == 0 ==> micros == 1,
{
    let mean = sched.mean();
    assert(MAX_MEANS as nat * mean * 1_000 == mean * 100_000) by (nonlinear_arith)
        requires
            MAX_MEANS == 100,
    ;
}

/// A client's key is its own: made of the bytes that it was given, with the
/// bits of a scalar cleared and set as X25519 asks, and no others touched.
pub proof fn a_clients_key_is_made_of_its_bytes(
    random: [u8; 32],
    client: GothamClient,
    sk: &[u8; 32],
)
    requires
        call_ensures(GothamClient::new, (random,), client),
        call_ensures(GothamClient::secret_key, (&client,), sk),
    ensures
        forall|i: int| 0 < i < 31 ==> #[trigger] sk@[i] == random@[i],
        sk@[0] == random@[0] - random@[0] % 8,
        sk@[31] == 64 + random@[31] % 64,
{
    let low = random@[0];
    let high = random@[31];
    assert(low & 248 == low - low % 8) by (bit_vector);
    assert((high & 127) | 64 == 64 + high % 64) by (bit_vector);
}

/// As [`a_clients_key_is_made_of_its_bytes`], of a scalar.
pub proof fn a_scalar_is_made_of_its_bytes(bytes: [u8; 32], sk: [u8; 32])
    requires
        call_ensures(clamp_scalar, (bytes,), sk),
    ensures
        forall|i: int| 0 < i < 31 ==> #[trigger] sk@[i] == bytes@[i],
        sk@[0] == bytes@[0] - bytes@[0] % 8,
        sk@[31] == 64 + bytes@[31] % 64,
{
    let low = bytes@[0];
    let high = bytes@[31];
    assert(low & 248 == low - low % 8) by (bit_vector);
    assert((high & 127) | 64 == 64 + high % 64) by (bit_vector);
}

/// An error of the client is said in its own words, with what it is about.
pub proof fn a_clients_error_is_said(e: &ClientError, text: String)
    requires
        call_ensures(ClientError::message, (e,), text),
    ensures
        match *e {
            ClientError::PayloadTooLarge => text@ == "payload exceeds 1664 bytes"@,
            ClientError::BadHopCount => text@ == "hop_count must be in 3..=5"@,
            ClientError::PathSelection => text@
                == "path selection failed (insufficient diversity in directory)"@,
            ClientError::BadDirectory(why) => text@ == "directory: "@ + why@,
            ClientError::Crypto => text@ == "crypto operation failed"@,
            ClientError::Transport(cause) => text@ == "transport: "@ + error_text(cause),
        },
{
}

} // verus!
