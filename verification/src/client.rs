//! The sender's side of the mixnet: from a payload to the packet that the
//! entry relay is sent.
//!
//! Choosing a path, deriving the secrets of its hops, building the onion
//! header and wrapping a layer round a payload are handed in by the caller,
//! and so are the draws of the hops' delays.

use crate::clock::duration_nanos;
use crate::delay::{clamped_delay, PoissonScheduler};
use crate::keys::erase;
use crate::process::{HopRecord, PACKET_SIZE};
use crate::transport::delivery::{frame_envelope, framed_envelope};
use crate::transport::{error_text, TransportError};
use std::time::Duration;
use vstd::prelude::*;

pub mod laws;

verus! {

/// The longest payload that fits a packet.
pub const MAX_PAYLOAD_SIZE: usize = 1664;

/// Mean of the delay that the sender chooses for each hop, in microseconds.
/// Each hop's is a draw of its own. A constant would mix little and mark the
/// sender's headers.
pub const SENDER_MEAN_DELAY_MICROS: u64 = 20_000;

/// How much a sender trades latency for anonymity.
#[derive(Debug, Copy, Clone, PartialEq, Eq, Structural)]
pub enum Mode {
    /// Three hops.
    LowLatency,
    /// Four hops.
    Balanced,
    /// Five hops.
    Paranoid,
}

/// The hop count of a mode; `None` for a mode that is not known.
pub fn hop_count_for_mode(mode: Option<Mode>) -> (hops: Option<usize>)
    ensures
        hops == match mode {
            Some(Mode::LowLatency) => Some(3usize),
            Some(Mode::Balanced) => Some(4usize),
            Some(Mode::Paranoid) => Some(5usize),
            None => None,
        },
{
    match mode {
        Some(Mode::LowLatency) => Some(3),
        Some(Mode::Balanced) => Some(4),
        Some(Mode::Paranoid) => Some(5),
        None => None,
    }
}

/// The delay that a sender writes for a hop, in microseconds: the draw, but at
/// least one, because zero stands for a delay left to the relay.
pub open spec fn sender_delay(mean_micros: nat, sampled: nat) -> nat {
    let micros = clamped_delay(mean_micros, sampled) / 1_000;
    if micros < 1 {
        1
    } else if micros <= u32::MAX {
        micros
    } else {
        u32::MAX as nat
    }
}

/// The delay that a sender writes for a hop, in microseconds, for one draw
/// around the scheduler's mean.
pub fn sender_hop_delay_micros(sched: &PoissonScheduler, sampled: Duration) -> (micros: u32)
    ensures
        micros == sender_delay(sched.mean(), duration_nanos(sampled)),
{
    let micros: u128 = sched.next_delay(sampled).as_nanos() / 1_000;
    if micros < 1 {
        1
    } else if micros <= 0xffff_ffff {
        micros as u32
    } else {
        0xffff_ffff
    }
}

/// Why a payload could not be sent.
pub enum ClientError {
    /// The payload is longer than a packet holds.
    PayloadTooLarge,
    /// The hop count is not 3, 4 or 5.
    BadHopCount,
    /// The directory holds no path that is diverse enough.
    PathSelection,
    /// The directory lists a relay wrongly.
    BadDirectory(&'static str),
    /// A cryptographic operation failed.
    Crypto,
    /// The link failed.
    Transport(TransportError),
}

/// What a [`ClientError`] says, short of what the link said.
pub ghost enum ClientFault {
    PayloadTooLarge,
    BadHopCount,
    PathSelection,
    BadDirectory(Seq<char>),
    Crypto,
    Transport,
}

impl View for ClientError {
    type V = ClientFault;

    open spec fn view(&self) -> ClientFault {
        match *self {
            ClientError::PayloadTooLarge => ClientFault::PayloadTooLarge,
            ClientError::BadHopCount => ClientFault::BadHopCount,
            ClientError::PathSelection => ClientFault::PathSelection,
            ClientError::BadDirectory(why) => ClientFault::BadDirectory(why@),
            ClientError::Crypto => ClientFault::Crypto,
            ClientError::Transport(_) => ClientFault::Transport,
        }
    }
}

impl ClientError {
    /// The error in words.
    pub fn message(&self) -> (text: String)
        ensures
            match *self {
                ClientError::PayloadTooLarge => text@ == "payload exceeds 1664 bytes"@,
                ClientError::BadHopCount => text@ == "hop_count must be in 3..=5"@,
                ClientError::PathSelection => text@
                    == "path selection failed (insufficient diversity in directory)"@,
                ClientError::BadDirectory(why) => text@ == "directory: "@ + why@,
                ClientError::Crypto => text@ == "crypto operation failed"@,
                ClientError::Transport(e) => text@ == "transport: "@ + error_text(e),
            },
    {
        match self {
            ClientError::PayloadTooLarge => "payload exceeds 1664 bytes".to_owned(),
            ClientError::BadHopCount => "hop_count must be in 3..=5".to_owned(),
            ClientError::PathSelection =>
                "path selection failed (insufficient diversity in directory)".to_owned(),
            ClientError::BadDirectory(why) => "directory: ".to_owned().concat(why),
            ClientError::Crypto => "crypto operation failed".to_owned(),
            ClientError::Transport(e) => "transport: ".to_owned().concat(e.message().as_str()),
        }
    }
}

/// One relay of a chosen path. A field is `None` where the directory's entry
/// does not parse.
pub struct PathHop<D> {
    /// The relay's X25519 public key.
    pub kem_pubkey: Option<[u8; 32]>,
    /// The IPv4 address of the relay.
    pub ipv4: Option<[u8; 4]>,
    /// The port of the relay.
    pub port: Option<u16>,
    /// The address to dial.
    pub dial: Option<D>,
}

/// A packet that is ready to be shipped to the entry relay.
pub struct Shipment<D> {
    /// Where to dial the entry relay.
    pub entry: D,
    /// The key that the entry relay must prove.
    pub entry_pk: [u8; 32],
    /// The packet.
    pub packet: Vec<u8>,
}

/// A payload with zeros up to the length of the payload region.
pub open spec fn padded(payload: Seq<u8>) -> Seq<u8> {
    payload + Seq::new((MAX_PAYLOAD_SIZE - payload.len()) as nat, |i: int| 0u8)
}

/// Whether some relay of the path is listed without a key.
pub open spec fn key_missing<D>(path: Seq<PathHop<D>>) -> bool {
    exists|i: int| 0 <= i < path.len() && (#[trigger] path[i]).kem_pubkey is None
}

/// The first fault in the addresses that the hops of a path are told: a hop is
/// told the address of the next.
pub open spec fn address_fault<D>(path: Seq<PathHop<D>>, from: int) -> Option<Seq<char>>
    decreases path.len() - from,
{
    if from + 1 >= path.len() {
        None
    } else if path[from + 1].ipv4 is None {
        Some("non-ipv4 next addr"@)
    } else if path[from + 1].port is None {
        Some("bad next port"@)
    } else {
        address_fault(path, from + 1)
    }
}

/// Whether `record` is what the `i`-th hop of a path is told, up to its delay:
/// the address and key of the next hop, or that it is the last.
pub open spec fn record_for<D>(path: Seq<PathHop<D>>, i: int, record: HopRecord) -> bool {
    &&& !record.via_rendezvous
    &&& if i + 1 < path.len() {
        let next = path[i + 1];
        &&& !record.last_hop
        &&& next.ipv4 == Some(record.next_ipv4)
        &&& next.port == Some(record.next_port)
        &&& next.kem_pubkey == Some(record.next_node_id)
    } else {
        &&& record.last_hop
        &&& record.next_ipv4@ == seq![0u8, 0u8, 0u8, 0u8]
        &&& record.next_port == 0
        &&& record.next_node_id@ == Seq::new(32, |i: int| 0u8)
    }
}

/// Whether the delay of `record` is the draw of `sample` for the `i`-th hop.
pub open spec fn delay_drawn<S>(sample: S, i: int, record: HopRecord) -> bool where
    S: Fn(usize) -> Duration,
 {
    exists|d: Duration|
        #![trigger call_ensures(sample, (i as usize,), d)]
        call_ensures(sample, (i as usize,), d) && record.delay_micros == sender_delay(
            SENDER_MEAN_DELAY_MICROS as nat,
            duration_nanos(d),
        )
}

/// What the sender found out on the way to a packet, in the order in which it
/// asked.
pub ghost struct SendTrace<D, R> {
    /// The path that was chosen.
    pub path: Option<Vec<PathHop<D>>>,
    /// The secrets of its hops.
    pub secrets: Option<R>,
    /// What the hops are told.
    pub records: Vec<HopRecord>,
    /// The onion header.
    pub header: Option<[u8; 384]>,
    /// The payload region before the first layer and after each.
    pub layers: Seq<Vec<u8>>,
}

/// How far the making of a packet came.
pub ghost enum SendStage {
    /// The arguments were refused.
    Refused,
    /// A path was asked for, and there is none, or one of its relays is listed
    /// without a key.
    NoPath,
    /// The secrets of the hops were asked for and not had, or the address of
    /// a hop is missing.
    NoRecords,
    /// The header was asked for and not had.
    NoHeader,
    /// The packet was made.
    Made,
}

/// How far the making of a packet comes, given what is found out.
pub open spec fn send_stage<D, R>(len: nat, hop_count: usize, t: SendTrace<D, R>) -> SendStage {
    if len > MAX_PAYLOAD_SIZE || !(3 <= hop_count <= 5) {
        SendStage::Refused
    } else if t.path is None || t.path->0@.len() == 0 || key_missing(t.path->0@) {
        SendStage::NoPath
    } else if t.secrets is None || address_fault(t.path->0@, 0) is Some {
        SendStage::NoRecords
    } else if t.header is None {
        SendStage::NoHeader
    } else {
        SendStage::Made
    }
}

/// The fault with which the making of a packet ends; `None` where it ends with
/// a shipment.
pub open spec fn send_fault<D, R>(len: nat, hop_count: usize, t: SendTrace<D, R>) -> Option<
    ClientFault,
> {
    match send_stage(len, hop_count, t) {
        SendStage::Refused => if len > MAX_PAYLOAD_SIZE {
            Some(ClientFault::PayloadTooLarge)
        } else {
            Some(ClientFault::BadHopCount)
        },
        SendStage::NoPath => if t.path is None || t.path->0@.len() == 0 {
            Some(ClientFault::PathSelection)
        } else {
            Some(ClientFault::BadDirectory("relay kem pubkey malformed"@))
        },
        SendStage::NoRecords => if t.secrets is None {
            Some(ClientFault::Crypto)
        } else {
            Some(ClientFault::BadDirectory(address_fault(t.path->0@, 0)->0))
        },
        SendStage::NoHeader => Some(ClientFault::Crypto),
        SendStage::Made => if t.path->0@[0].dial is None {
            Some(ClientFault::BadDirectory("entry addr parse"@))
        } else {
            None
        },
    }
}

/// Whether the trace is what the caller's functions returned on what the
/// sender handed them, for every one of them that was called: the hop count to
/// find a path for, the keys of the path to derive secrets from, the records
/// to build a header of, and the payload region to wrap for each hop, the last
/// hop's layer innermost.
pub open spec fn send_traced<D, R, P, V, S, W, L>(
    payload: Seq<u8>,
    hop_count: usize,
    t: SendTrace<D, R>,
    pick: P,
    derive: V,
    sample: S,
    wrap: W,
    layer: L,
) -> bool where
    P: FnOnce(usize) -> Option<Vec<PathHop<D>>>,
    V: FnOnce(&Vec<[u8; 32]>) -> Option<R>,
    S: Fn(usize) -> Duration,
    W: FnOnce(&R, &Vec<HopRecord>) -> Option<[u8; 384]>,
    L: Fn(&R, usize, Vec<u8>) -> Vec<u8>,
 {
    let reached = send_stage(payload.len(), hop_count, t);
    let hops = t.path->0@.len();
    &&& !(reached is Refused) ==> call_ensures(pick, (hop_count,), t.path)
    &&& !(reached is Refused || reached is NoPath) ==> exists|keys: Vec<[u8; 32]>|
        #![trigger call_ensures(derive, (&keys,), t.secrets)]
        {
            &&& keys@.len() == hops
            &&& forall|i: int|
                0 <= i < hops ==> t.path->0@[i].kem_pubkey == Some(#[trigger] keys@[i])
            &&& call_ensures(derive, (&keys,), t.secrets)
        }
    &&& reached is NoHeader || reached is Made ==> {
        &&& t.records@.len() == hops
        &&& forall|i: int|
            0 <= i < hops ==> record_for(t.path->0@, i, #[trigger] t.records@[i])
                && delay_drawn(sample, i, t.records@[i])
        &&& call_ensures(wrap, (&t.secrets->0, &t.records), t.header)
    }
    &&& reached is Made ==> {
        &&& t.layers.len() == hops + 1
        &&& t.layers[0]@ == padded(payload)
        &&& forall|j: int|
            #![trigger t.layers[j + 1]]
            0 <= j < hops ==> call_ensures(
                layer,
                (&t.secrets->0, (hops - 1 - j) as usize, t.layers[j]),
                t.layers[j + 1],
            )
    }
}

/// Whether `r` is how the making of a packet ends, given what was found out:
/// with its fault, or with the header and the payload region under all its
/// layers, for the first hop of the path.
pub open spec fn send_ends<D, R>(
    len: nat,
    hop_count: usize,
    t: SendTrace<D, R>,
    r: Result<Shipment<D>, ClientError>,
) -> bool {
    match send_fault(len, hop_count, t) {
        Some(fault) => r is Err && r->Err_0@ == fault,
        None => {
            &&& r is Ok
            &&& t.path->0@[0].dial == Some(r->Ok_0.entry)
            &&& t.path->0@[0].kem_pubkey == Some(r->Ok_0.entry_pk)
            &&& r->Ok_0.packet@ == t.header->0@ + t.layers.last()@
        },
    }
}

/// Whether `r` is what sending `payload` along `hop_count` hops gives.
pub open spec fn sends<D, R, P, V, S, W, L>(
    payload: Seq<u8>,
    hop_count: usize,
    pick: P,
    derive: V,
    sample: S,
    wrap: W,
    layer: L,
    r: Result<Shipment<D>, ClientError>,
) -> bool where
    P: FnOnce(usize) -> Option<Vec<PathHop<D>>>,
    V: FnOnce(&Vec<[u8; 32]>) -> Option<R>,
    S: Fn(usize) -> Duration,
    W: FnOnce(&R, &Vec<HopRecord>) -> Option<[u8; 384]>,
    L: Fn(&R, usize, Vec<u8>) -> Vec<u8>,
 {
    exists|t: SendTrace<D, R>|
        {
            &&& #[trigger] send_traced(payload, hop_count, t, pick, derive, sample, wrap, layer)
            &&& send_ends(payload.len(), hop_count, t, r)
        }
}

/// Whether `r` is what sending an envelope behind its length along `hop_count`
/// hops gives; `None` stands for a body that could not be sealed.
pub open spec fn sends_envelope<D, R, P, V, S, W, L>(
    sealed: Option<Vec<u8>>,
    hop_count: usize,
    pick: P,
    derive: V,
    sample: S,
    wrap: W,
    layer: L,
    r: Result<Shipment<D>, ClientError>,
) -> bool where
    P: FnOnce(usize) -> Option<Vec<PathHop<D>>>,
    V: FnOnce(&Vec<[u8; 32]>) -> Option<R>,
    S: Fn(usize) -> Duration,
    W: FnOnce(&R, &Vec<HopRecord>) -> Option<[u8; 384]>,
    L: Fn(&R, usize, Vec<u8>) -> Vec<u8>,
 {
    match sealed {
        None => r is Err && r->Err_0@ == ClientFault::Crypto,
        Some(envelope) => if envelope@.len() + 4 > MAX_PAYLOAD_SIZE {
            r is Err && r->Err_0@ == ClientFault::PayloadTooLarge
        } else {
            sends(framed_envelope(envelope@), hop_count, pick, derive, sample, wrap, layer, r)
        },
    }
}

/// A client of the mixnet: the key with which it stands behind its links.
pub struct GothamClient {
    client_sk: [u8; 32],
}

impl View for GothamClient {
    type V = Seq<u8>;

    closed spec fn view(&self) -> Seq<u8> {
        self.client_sk@
    }
}

/// An X25519 scalar made of thirty-two bytes: the three lowest bits and the
/// highest cleared, the second highest set.
pub open spec fn clamped_scalar(bytes: Seq<u8>) -> Seq<u8> {
    bytes.update(0, bytes[0] & 248).update(31, (bytes[31] & 127) | 64)
}

/// Makes an X25519 scalar of thirty-two bytes.
pub fn clamp_scalar(bytes: [u8; 32]) -> (sk: [u8; 32])
    ensures
        sk@ == clamped_scalar(bytes@),
{
    let mut sk: [u8; 32] = bytes;
    sk[0] = sk[0] & 248;
    sk[31] = (sk[31] & 127) | 64;
    assert(sk@ =~= clamped_scalar(bytes@));
    sk
}

impl GothamClient {
    /// A client with an ephemeral key made of thirty-two random bytes.
    pub fn new(random: [u8; 32]) -> (client: GothamClient)
        ensures
            client@ == clamped_scalar(random@),
    {
        GothamClient { client_sk: clamp_scalar(random) }
    }

    /// The client's secret key, for the handshakes of its links.
    pub fn secret_key(&self) -> (sk: &[u8; 32])
        ensures
            sk@ == self@,
    {
        &self.client_sk
    }

    /// Makes the packet that carries `payload` along a fresh path of
    /// `hop_count` hops, and says where to ship it. A path of another length
    /// is taken as it is, and an empty one counts as none.
    ///
    /// `pick` finds a path; `derive` derives the secrets of hops from their
    /// keys; `sample` draws a hop's delay around the sender's mean; `wrap` builds
    /// the onion header; `layer` wraps one hop's layer round a payload region.
    ///
    /// A shorter payload is filled up with zeros. Every hop removes one layer,
    /// so that the payload looks different on every link and the last hop
    /// finds what was sent.
    pub fn send<D, R, P, V, S, W, L>(
        &self,
        hop_count: usize,
        payload: &[u8],
        pick: P,
        derive: V,
        sample: S,
        wrap: W,
        layer: L,
    ) -> (r: Result<Shipment<D>, ClientError>) where
        P: FnOnce(usize) -> Option<Vec<PathHop<D>>>,
        V: FnOnce(&Vec<[u8; 32]>) -> Option<R>,
        S: Fn(usize) -> Duration,
        W: FnOnce(&R, &Vec<HopRecord>) -> Option<[u8; 384]>,
        L: Fn(&R, usize, Vec<u8>) -> Vec<u8>,

        requires
            call_requires(pick, (hop_count,)),
            forall|keys: &Vec<[u8; 32]>| #[trigger] call_requires(derive, (keys,)),
            forall|hop: usize| #[trigger] call_requires(sample, (hop,)),
            forall|secrets: &R, records: &Vec<HopRecord>| #[trigger]
                call_requires(wrap, (secrets, records)),
            forall|secrets: &R, hop: usize, region: Vec<u8>| #[trigger]
                call_requires(layer, (secrets, hop, region)),
        ensures
            sends(payload@, hop_count, pick, derive, sample, wrap, layer, r),
    {
        let ghost mut t: SendTrace<D, R> = SendTrace {
            path: None,
            secrets: None,
            records: arbitrary(),
            header: None,
            layers: Seq::empty(),
        };
        if payload.len() > MAX_PAYLOAD_SIZE {
            assert(send_traced(payload@, hop_count, t, pick, derive, sample, wrap, layer));
            return Err(ClientError::PayloadTooLarge);
        }
        if hop_count < 3 || hop_count > 5 {
            assert(send_traced(payload@, hop_count, t, pick, derive, sample, wrap, layer));
            return Err(ClientError::BadHopCount);
        }
        let picked = pick(hop_count);
        proof {
            t.path = picked;
        }
        let path: Vec<PathHop<D>> = match picked {
            Some(path) => path,
            None => {
                assert(send_traced(payload@, hop_count, t, pick, derive, sample, wrap, layer));
                return Err(ClientError::PathSelection);
            },
        };
        let hops: usize = path.len();
        if hops == 0 {
            assert(send_traced(payload@, hop_count, t, pick, derive, sample, wrap, layer));
            return Err(ClientError::PathSelection);
        }
        let keys: Vec<[u8; 32]> = match path_keys(&path) {
            Some(keys) => keys,
            None => {
                assert(send_traced(payload@, hop_count, t, pick, derive, sample, wrap, layer));
                return Err(ClientError::BadDirectory("relay kem pubkey malformed"));
            },
        };
        let derived = derive(&keys);
        proof {
            t.secrets = derived;
        }
        let secrets: R = match derived {
            Some(secrets) => secrets,
            None => {
                assert(send_traced(payload@, hop_count, t, pick, derive, sample, wrap, layer));
                return Err(ClientError::Crypto);
            },
        };
        let records: Vec<HopRecord> = match routing_records(&path, &keys, &sample) {
            Ok(records) => records,
            Err(why) => {
                assert(send_traced(payload@, hop_count, t, pick, derive, sample, wrap, layer));
                return Err(ClientError::BadDirectory(why));
            },
        };
        let wrapped = wrap(&secrets, &records);
        proof {
            t.records = records;
            t.header = wrapped;
        }
        let header: [u8; 384] = match wrapped {
            Some(header) => header,
            None => {
                assert(send_traced(payload@, hop_count, t, pick, derive, sample, wrap, layer));
                return Err(ClientError::Crypto);
            },
        };

        let mut region: Vec<u8> = pad_payload(payload);
        let ghost mut layers: Seq<Vec<u8>> = seq![region];
        let mut hop: usize = hops;
        while hop > 0
            invariant
                hop <= hops,
                layers.len() == hops - hop + 1,
                layers[0]@ == padded(payload@),
                layers.last() == region,
                forall|secrets: &R, hop: usize, region: Vec<u8>| #[trigger]
                    call_requires(layer, (secrets, hop, region)),
                forall|j: int|
                    #![trigger layers[j + 1]]
                    0 <= j < hops - hop ==> call_ensures(
                        layer,
                        (&secrets, (hops - 1 - j) as usize, layers[j]),
                        layers[j + 1],
                    ),
            decreases hop,
        {
            hop = hop - 1;
            let ghost before = region;
            region = layer(&secrets, hop, region);
            proof {
                let longer = layers.push(region);
                assert forall|j: int|
                    #![trigger longer[j + 1]]
                    0 <= j < hops - hop implies call_ensures(
                    layer,
                    (&secrets, (hops - 1 - j) as usize, longer[j]),
                    longer[j + 1],
                ) by {
                    if j + 1 < layers.len() {
                        assert(longer[j] == layers[j]);
                        assert(longer[j + 1] == layers[j + 1]);
                    } else {
                        assert(longer[j] == before);
                    }
                }
                layers = longer;
            }
        }
        let mut packet: Vec<u8> = Vec::with_capacity(PACKET_SIZE);
        packet.extend_from_slice(header.as_slice());
        packet.extend_from_slice(region.as_slice());
        proof {
            t.layers = layers;
            assert(packet@ =~= header@ + region@);
            assert(send_traced(payload@, hop_count, t, pick, derive, sample, wrap, layer));
        }
        let entry_pk: [u8; 32] = keys[0];
        let mut path = path;
        let entry: PathHop<D> = path.swap_remove(0);
        match entry.dial {
            Some(dial) => Ok(Shipment { entry: dial, entry_pk, packet }),
            None => Err(ClientError::BadDirectory("entry addr parse")),
        }
    }
}

impl GothamClient {
    /// As [`GothamClient::send`], for a body that is first sealed for its
    /// recipient. `seal` makes the envelope, which is sent behind its length.
    pub fn send_sealed<D, R, E, P, V, S, W, L>(
        &self,
        hop_count: usize,
        recipient_pk: &[u8; 32],
        sender_pk: &[u8; 32],
        body: &[u8],
        seal: E,
        pick: P,
        derive: V,
        sample: S,
        wrap: W,
        layer: L,
    ) -> (r: Result<Shipment<D>, ClientError>) where
        E: FnOnce(&[u8; 32], &[u8; 32], &[u8]) -> Option<Vec<u8>>,
        P: FnOnce(usize) -> Option<Vec<PathHop<D>>>,
        V: FnOnce(&Vec<[u8; 32]>) -> Option<R>,
        S: Fn(usize) -> Duration,
        W: FnOnce(&R, &Vec<HopRecord>) -> Option<[u8; 384]>,
        L: Fn(&R, usize, Vec<u8>) -> Vec<u8>,

        requires
            call_requires(seal, (recipient_pk, sender_pk, body)),
            call_requires(pick, (hop_count,)),
            forall|keys: &Vec<[u8; 32]>| #[trigger] call_requires(derive, (keys,)),
            forall|hop: usize| #[trigger] call_requires(sample, (hop,)),
            forall|secrets: &R, records: &Vec<HopRecord>| #[trigger]
                call_requires(wrap, (secrets, records)),
            forall|secrets: &R, hop: usize, region: Vec<u8>| #[trigger]
                call_requires(layer, (secrets, hop, region)),
        ensures
            exists|sealed: Option<Vec<u8>>| #[trigger]
                call_ensures(seal, (recipient_pk, sender_pk, body), sealed) && sends_envelope(
                    sealed,
                    hop_count,
                    pick,
                    derive,
                    sample,
                    wrap,
                    layer,
                    r,
                ),
    {
        let sealed = seal(recipient_pk, sender_pk, body);
        assert(call_ensures(seal, (recipient_pk, sender_pk, body), sealed));
        let envelope: Vec<u8> = match sealed {
            Some(envelope) => envelope,
            None => {
                return Err(ClientError::Crypto);
            },
        };
        match frame_envelope(envelope.as_slice()) {
            Some(framed) => self.send(
                hop_count,
                framed.as_slice(),
                pick,
                derive,
                sample,
                wrap,
                layer,
            ),
            None => Err(ClientError::PayloadTooLarge),
        }
    }
}

impl Drop for GothamClient {
    /// The secret key does not outlive the client.
    fn drop(&mut self)
        opens_invariants none
        no_unwind
    {
        erase(&mut self.client_sk);
    }
}

/// The keys of the relays of a path; `None` where one is missing.
fn path_keys<D>(path: &Vec<PathHop<D>>) -> (r: Option<Vec<[u8; 32]>>)
    ensures
        r is None <==> key_missing(path@),
        r matches Some(keys) ==> keys@.len() == path@.len() && forall|i: int|
            0 <= i < path@.len() ==> path@[i].kem_pubkey == Some(#[trigger] keys@[i]),
{
    let mut keys: Vec<[u8; 32]> = Vec::with_capacity(path.len());
    let mut i: usize = 0;
    while i < path.len()
        invariant
            i <= path@.len(),
            keys@.len() == i,
            forall|j: int| 0 <= j < i ==> path@[j].kem_pubkey == Some(#[trigger] keys@[j]),
            forall|j: int| 0 <= j < i ==> (#[trigger] path@[j]).kem_pubkey is Some,
        decreases path@.len() - i,
    {
        match path[i].kem_pubkey {
            Some(key) => {
                keys.push(key);
            },
            None => {
                return None;
            },
        }
        i = i + 1;
    }
    Some(keys)
}

/// What the hops of a path are told, each with a delay of its own.
fn routing_records<D, S>(path: &Vec<PathHop<D>>, keys: &Vec<[u8; 32]>, sample: &S) -> (r: Result<
    Vec<HopRecord>,
    &'static str,
>) where S: Fn(usize) -> Duration
    requires
        keys@.len() == path@.len(),
        forall|i: int| 0 <= i < path@.len() ==> path@[i].kem_pubkey == Some(#[trigger] keys@[i]),
        forall|hop: usize| #[trigger] call_requires(*sample, (hop,)),
    ensures
        match address_fault(path@, 0) {
            Some(why) => r is Err && r->Err_0@ == why,
            None => r is Ok && r->Ok_0@.len() == path@.len() && forall|i: int|
                0 <= i < path@.len() ==> record_for(path@, i, #[trigger] r->Ok_0@[i])
                    && delay_drawn(*sample, i, r->Ok_0@[i]),
        },
{
    let sched: PoissonScheduler = PoissonScheduler::new(SENDER_MEAN_DELAY_MICROS);
    let mut records: Vec<HopRecord> = Vec::with_capacity(path.len());
    let mut i: usize = 0;
    while i < path.len()
        invariant
            i <= path@.len(),
            keys@.len() == path@.len(),
            forall|j: int| 0 <= j < path@.len() ==> path@[j].kem_pubkey == Some(#[trigger] keys@[j]),
            forall|hop: usize| #[trigger] call_requires(*sample, (hop,)),
            sched.mean() == SENDER_MEAN_DELAY_MICROS,
            records@.len() == i,
            address_fault(path@, 0) == address_fault(path@, i as int),
            forall|j: int|
                0 <= j < i ==> record_for(path@, j, #[trigger] records@[j]) && delay_drawn(
                    *sample,
                    j,
                    records@[j],
                ),
        decreases path@.len() - i,
    {
        let last: bool = i + 1 == path.len();
        let mut next_ipv4: [u8; 4] = [0u8; 4];
        let mut next_port: u16 = 0;
        let mut next_node_id: [u8; 32] = [0u8; 32];
        if !last {
            match path[i + 1].ipv4 {
                Some(ipv4) => {
                    next_ipv4 = ipv4;
                },
                None => {
                    return Err("non-ipv4 next addr");
                },
            }
            match path[i + 1].port {
                Some(port) => {
                    next_port = port;
                },
                None => {
                    return Err("bad next port");
                },
            }
            next_node_id = keys[i + 1];
        }
        let sampled: Duration = sample(i);
        let delay_micros: u32 = sender_hop_delay_micros(&sched, sampled);
        let record = HopRecord {
            next_ipv4,
            next_port,
            next_node_id,
            delay_micros,
            last_hop: last,
            via_rendezvous: false,
        };
        proof {
            if last {
                assert(next_ipv4@ =~= seq![0u8, 0u8, 0u8, 0u8]);
                assert(next_node_id@ =~= Seq::new(32, |i: int| 0u8));
            }
            assert(record_for(path@, i as int, record));
            assert(call_ensures(*sample, (i as int as usize,), sampled));
            assert(delay_drawn(*sample, i as int, record));
        }
        records.push(record);
        i = i + 1;
    }
    Ok(records)
}

/// A payload with zeros up to the length of the payload region.
fn pad_payload(payload: &[u8]) -> (region: Vec<u8>)
    requires
        payload@.len() <= MAX_PAYLOAD_SIZE,
    ensures
        region@ == padded(payload@),
{
    let mut region: Vec<u8> = vstd::slice::slice_to_vec(payload);
    region.resize(MAX_PAYLOAD_SIZE, 0u8);
    assert(region@ =~= padded(payload@));
    region
}

} // verus!
