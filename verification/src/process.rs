//! The packet processor.
//!
//! [`Relay::process`] takes a packet and returns one of:
//!
//! - [`ProcessOutcome::Drop`]: discard it silently
//! - [`ProcessOutcome::Forward`]: send it to the next hop after a delay
//! - [`ProcessOutcome::DeliverLocal`]: this hop is the recipient
//!
//! No I/O is performed here. The onion codec (parsing a header, opening a
//! layer of it, peeling a layer of the payload) is handed in by the caller,
//! and so is the draw of a mix delay.

use crate::addr::SocketAddrV4;
use crate::bytes::bytes_eq;
use crate::clock::{duration_nanos, instant_read, is_now, is_unix_now, NANOS_PER_SEC};
use crate::delay::{clamped_delay, PoissonScheduler};
use crate::keys::{erase, public_key, x25519, x25519_public, x25519_shared};
use crate::rate_limit::{account, decide, full_allowance, Allowance, RateDecision, RateLimiter};
use crate::replay::persist;
use crate::replay::{after_check, adopted, live_records, reloaded, snapshot, stamps, verdict,
    ReplayCache, ReplayCheck};
use std::time::{Duration, Instant};
use vstd::prelude::*;

pub mod laws;

verus! {

/// The size of every packet.
pub const PACKET_SIZE: usize = 2048;

/// The size of the header at the front of a packet.
pub const HEADER_LEN: usize = 384;

/// The header version whose MAC covers one slot of the routing block only.
pub const VERSION_LEGACY: u8 = 2;

/// The longest hold that a sender may ask of a hop, in seconds.
///
/// The field in the routing record permits over an hour. A flood of packets
/// with such holds would pin memory for every one of them.
pub const MAX_HOP_DELAY_SECS: u64 = 30;

/// Why a packet was dropped. For counters only: a relay never logs anything
/// that identifies a packet or a peer.
#[derive(Debug, Copy, Clone, PartialEq, Eq, Structural)]
pub enum DropReason {
    /// The header's MAC failed verification.
    BadMac,
    /// The packet's MAC was seen already within the time to live.
    Replay,
    /// The header could not be parsed.
    Malformed,
    /// Policy denied the route: the next hop is this relay.
    PolicyDenied,
    /// The rate limit or the daily quota of the operator was exceeded.
    RateLimited,
}

/// Outcome of processing one packet.
pub enum ProcessOutcome {
    /// Drop the packet silently.
    Drop(DropReason),
    /// Forward to the next hop after `delay`.
    Forward {
        /// Where to dial. Zero where `via_rendezvous` is set: the next hop is
        /// then addressed by identity.
        next_addr: SocketAddrV4,
        /// Identity of the next hop, its X25519 public key.
        next_node_id: [u8; 32],
        /// How long to hold the packet before sending it.
        delay: Duration,
        /// Whether the next hop is reached down a tunnel that it holds open to
        /// this relay, instead of by dialing.
        via_rendezvous: bool,
        /// The packet to forward.
        packet: Vec<u8>,
    },
    /// This hop is the recipient.
    DeliverLocal {
        /// How long to hold the packet before delivering it.
        delay: Duration,
        /// The payload, without the header.
        payload: Vec<u8>,
    },
}

/// What a [`ProcessOutcome`] says.
pub ghost enum Outcome {
    /// Drop the packet.
    Drop(DropReason),
    /// Forward it.
    Forward {
        next_addr: SocketAddrV4,
        next_node_id: Seq<u8>,
        delay: nat,
        via_rendezvous: bool,
        packet: Seq<u8>,
    },
    /// Deliver it here.
    DeliverLocal { delay: nat, payload: Seq<u8> },
}

impl View for ProcessOutcome {
    type V = Outcome;

    open spec fn view(&self) -> Outcome {
        match *self {
            ProcessOutcome::Drop(why) => Outcome::Drop(why),
            ProcessOutcome::Forward { next_addr, next_node_id, delay, via_rendezvous, packet } =>
                Outcome::Forward {
                next_addr,
                next_node_id: next_node_id@,
                delay: duration_nanos(delay),
                via_rendezvous,
                packet: packet@,
            },
            ProcessOutcome::DeliverLocal { delay, payload } => Outcome::DeliverLocal {
                delay: duration_nanos(delay),
                payload: payload@,
            },
        }
    }
}

impl ProcessOutcome {
    /// Whether the packet was dropped.
    pub fn is_drop(&self) -> (r: bool)
        ensures
            r == (self@ is Drop),
    {
        match self {
            ProcessOutcome::Drop(_) => true,
            _ => false,
        }
    }
}

/// What parsing a header gives: the fields that the relay decides by, and the
/// header itself for opening it.
pub struct ParsedHeader<H> {
    /// Version of the header.
    pub version: u8,
    /// The sender's ephemeral public key for this hop.
    pub alpha: [u8; 32],
    /// The header's MAC, unique to the packet at this hop.
    pub gamma: [u8; 16],
    /// The parsed header.
    pub header: H,
}

/// The routing record that opening a header reveals to this hop.
pub struct HopRecord {
    /// IPv4 address of the next hop.
    pub next_ipv4: [u8; 4],
    /// Port of the next hop.
    pub next_port: u16,
    /// Identity of the next hop.
    pub next_node_id: [u8; 32],
    /// The hold that the sender chose, in microseconds; zero for unset.
    pub delay_micros: u32,
    /// Whether this hop is the last.
    pub last_hop: bool,
    /// Whether the next hop is reached through a tunnel that it holds open.
    pub via_rendezvous: bool,
}

/// What opening a header gives.
pub struct OpenedHeader<K> {
    /// The record for this hop.
    pub record: HopRecord,
    /// The header for the next hop.
    pub next_header: [u8; 384],
    /// The key of this hop's payload layer.
    pub payload_key: K,
}

/// Why a header could not be opened.
#[derive(Debug, Copy, Clone, PartialEq, Eq, Structural)]
pub enum OpenFailure {
    /// Its MAC does not verify.
    BadMac,
    /// Anything else.
    Malformed,
}

/// What a relay decides by.
pub ghost struct RelayState {
    /// The X25519 secret key.
    pub sk: Seq<u8>,
    /// The entries of the replay cache.
    pub replay: Seq<(Seq<u8>, int)>,
    /// How long an entry stays live, in nanoseconds.
    pub replay_ttl: nat,
    /// How many entries the replay cache holds at most.
    pub replay_capacity: nat,
    /// The mean of the relay's own delays, in microseconds.
    pub mean_micros: nat,
    /// What the rate limiter has left.
    pub allowance: Allowance,
    /// Whether legacy headers are accepted.
    pub accept_v2: bool,
    /// How many legacy headers were accepted.
    pub v2_accepted: nat,
    /// Where the replay cache is kept across restarts.
    pub replay_path: Option<Seq<char>>,
}

/// The hold for a packet: what its sender chose, up to thirty seconds, or for
/// a sender that left it unset the relay's own draw.
pub open spec fn hold_time(delay_micros: u32, mean_micros: nat, sampled: nat) -> nat {
    if delay_micros == 0 {
        clamped_delay(mean_micros, sampled)
    } else if delay_micros * 1_000 <= MAX_HOP_DELAY_SECS * NANOS_PER_SEC {
        (delay_micros * 1_000) as nat
    } else {
        (MAX_HOP_DELAY_SECS * NANOS_PER_SEC) as nat
    }
}

/// Whether a packet of this length is let in at `now`, and what is left of the
/// allowance. A packet of the wrong size is not accounted.
pub open spec fn admission(a: Allowance, len: nat, now: int) -> (Allowance, Option<DropReason>) {
    if len != PACKET_SIZE {
        (a, Some(DropReason::Malformed))
    } else if decide(a, now) == RateDecision::Allow {
        (account(a, now), None)
    } else {
        (account(a, now), Some(DropReason::RateLimited))
    }
}

/// The relay after accepting a header of this version, or `None` where its
/// policy refuses it.
pub open spec fn version_policy(relay: RelayState, version: u8) -> Option<RelayState> {
    if version != VERSION_LEGACY {
        Some(relay)
    } else if !relay.accept_v2 {
        None
    } else {
        Some(
            RelayState {
                v2_accepted: if relay.v2_accepted < u64::MAX {
                    relay.v2_accepted + 1
                } else {
                    relay.v2_accepted
                },
                ..relay
            },
        )
    }
}

/// The address of a hop that is addressed by identity.
pub open spec fn nowhere() -> SocketAddrV4 {
    SocketAddrV4 { ip: [0u8, 0u8, 0u8, 0u8], port: 0 }
}

/// Where an opened packet goes.
pub open spec fn disposition(
    sk: Seq<u8>,
    record: HopRecord,
    next_header: Seq<u8>,
    delay: nat,
    payload: Seq<u8>,
) -> Outcome {
    if record.last_hop {
        Outcome::DeliverLocal { delay, payload }
    } else if record.next_node_id@ == x25519_public(sk) {
        Outcome::Drop(DropReason::PolicyDenied)
    } else {
        Outcome::Forward {
            next_addr: if record.via_rendezvous {
                nowhere()
            } else {
                SocketAddrV4 { ip: record.next_ipv4, port: record.next_port }
            },
            next_node_id: record.next_node_id@,
            delay,
            via_rendezvous: record.via_rendezvous,
            packet: next_header + payload,
        }
    }
}

/// What the relay found out about one packet, from its clocks and from the
/// codec, in the order in which it asked.
pub ghost struct Findings<H, K> {
    /// When the rate limit was checked.
    pub admitted_at: int,
    /// What parsing the header gave.
    pub parsed: Option<ParsedHeader<H>>,
    /// What opening the header gave.
    pub opened: Result<OpenedHeader<K>, OpenFailure>,
    /// When the replay cache was checked.
    pub seen_at: int,
    /// The draw of a delay, in nanoseconds.
    pub sampled: nat,
    /// The payload without this hop's layer.
    pub peeled: Seq<u8>,
}

/// How far the processing of a packet came.
pub ghost enum Stage {
    /// The packet was not let in.
    NotAdmitted,
    /// The header was parsed and refused.
    Refused,
    /// Opening the header was tried and failed.
    NotOpened,
    /// The packet is a replay.
    Replayed,
    /// The packet was opened and disposed of.
    Disposed,
}

/// How far the processing of a packet of length `len` comes, given what is
/// found out about it.
pub open spec fn stage<H, K>(relay: RelayState, len: nat, f: Findings<H, K>) -> Stage {
    if admission(relay.allowance, len, f.admitted_at).1 is Some {
        Stage::NotAdmitted
    } else if f.parsed is None || version_policy(relay, f.parsed->0.version) is None {
        Stage::Refused
    } else if f.opened is Err {
        Stage::NotOpened
    } else if verdict(relay.replay, f.parsed->0.gamma@, f.seen_at, relay.replay_ttl)
        == ReplayCheck::Replay {
        Stage::Replayed
    } else {
        Stage::Disposed
    }
}

/// What becomes of a packet of length `len`.
pub open spec fn outcome_of<H, K>(relay: RelayState, len: nat, f: Findings<H, K>) -> Outcome {
    match stage(relay, len, f) {
        Stage::NotAdmitted => Outcome::Drop(
            admission(relay.allowance, len, f.admitted_at).1->0,
        ),
        Stage::Refused => Outcome::Drop(DropReason::Malformed),
        Stage::NotOpened => Outcome::Drop(
            match f.opened->Err_0 {
                OpenFailure::BadMac => DropReason::BadMac,
                OpenFailure::Malformed => DropReason::Malformed,
            },
        ),
        Stage::Replayed => Outcome::Drop(DropReason::Replay),
        Stage::Disposed => {
            let opened = f.opened->Ok_0;
            disposition(
                relay.sk,
                opened.record,
                opened.next_header@,
                hold_time(opened.record.delay_micros, relay.mean_micros, f.sampled),
                f.peeled,
            )
        },
    }
}

/// The relay after a packet of length `len`.
///
/// The replay cache is consulted only for a header that was opened, so that
/// its MAC is known to be genuine: a copied MAC on a forged packet takes no
/// place in the cache.
pub open spec fn relay_after<H, K>(relay: RelayState, len: nat, f: Findings<H, K>) -> RelayState {
    let charged = RelayState {
        allowance: admission(relay.allowance, len, f.admitted_at).0,
        ..relay
    };
    match stage(relay, len, f) {
        Stage::NotAdmitted => charged,
        Stage::Refused => charged,
        Stage::NotOpened => version_policy(charged, f.parsed->0.version)->0,
        Stage::Replayed | Stage::Disposed => RelayState {
            replay: after_check(
                relay.replay,
                f.parsed->0.gamma@,
                f.seen_at,
                relay.replay_ttl,
                relay.replay_capacity,
            ),
            ..version_policy(charged, f.parsed->0.version)->0
        },
    }
}

/// Whether the findings are what the clock, the codec and the sampler returned
/// on what the relay handed them, for every one of them that was called: the
/// header to parse, the shared secret to open it with, and the payload to peel
/// with the key that opening gave.
pub open spec fn found<H, K, P, U, S, L>(
    relay: RelayState,
    packet: Seq<u8>,
    f: Findings<H, K>,
    parse: P,
    open: U,
    sample: S,
    peel: L,
) -> bool where
    P: FnOnce([u8; 384]) -> Option<ParsedHeader<H>>,
    U: FnOnce(H, [u8; 32]) -> Result<OpenedHeader<K>, OpenFailure>,
    S: FnOnce() -> Duration,
    L: FnOnce(K, Vec<u8>) -> Vec<u8>,
 {
    let reached = stage(relay, packet.len(), f);
    &&& packet.len() == PACKET_SIZE ==> is_now(f.admitted_at)
    &&& reached is Replayed || reached is Disposed ==> is_now(f.seen_at)
    &&& !(reached is NotAdmitted) ==> exists|header: [u8; 384]|
        header@ == packet.take(HEADER_LEN as int) && #[trigger] call_ensures(
            parse,
            (header,),
            f.parsed,
        )
    &&& !(reached is NotAdmitted || reached is Refused) ==> exists|shared: [u8; 32]|
        shared@ == x25519_shared(relay.sk, f.parsed->0.alpha@) && #[trigger] call_ensures(
            open,
            (f.parsed->0.header, shared),
            f.opened,
        )
    &&& reached is Disposed && f.opened->Ok_0.record.delay_micros == 0 ==> exists|d: Duration|
        duration_nanos(d) == f.sampled && #[trigger] call_ensures(sample, (), d)
    &&& reached is Disposed ==> exists|region: Vec<u8>, out: Vec<u8>|
        region@ == packet.skip(HEADER_LEN as int) && out@ == f.peeled && #[trigger] call_ensures(
            peel,
            (f.opened->Ok_0.payload_key, region),
            out,
        )
}

/// A relay's runtime state.
pub struct Relay {
    replay_cache: ReplayCache,
    scheduler: PoissonScheduler,
    rate_limiter: RateLimiter,
    accept_header_v2: bool,
    v2_accepted: u64,
    replay_path: Option<String>,
    identity_sk: [u8; 32],
}

impl View for Relay {
    type V = RelayState;

    closed spec fn view(&self) -> RelayState {
        RelayState {
            sk: self.identity_sk@,
            replay: self.replay_cache@,
            replay_ttl: self.replay_cache.ttl_nanos(),
            replay_capacity: self.replay_cache.capacity(),
            mean_micros: self.scheduler.mean(),
            allowance: self.rate_limiter@,
            accept_v2: self.accept_header_v2,
            v2_accepted: self.v2_accepted as nat,
            replay_path: match self.replay_path {
                Some(path) => Some(path@),
                None => None,
            },
        }
    }
}

impl Relay {
    /// The replay cache and the rate limiter are well-formed.
    pub closed spec fn wf(self) -> bool {
        &&& self.replay_cache.wf()
        &&& self.rate_limiter.wf()
    }

    /// A relay with this X25519 secret key, an empty replay cache and no rate
    /// limit. A mean delay of zero disables its own delays.
    pub fn new(
        identity_sk: [u8; 32],
        replay_max_size: usize,
        replay_ttl: Duration,
        mean_delay_micros: u64,
    ) -> (relay: Relay)
        ensures
            relay.wf(),
            exists|now: int|
                is_now(now) && relay@ == (RelayState {
                    sk: identity_sk@,
                    replay: Seq::empty(),
                    replay_ttl: duration_nanos(replay_ttl),
                    replay_capacity: replay_max_size as nat,
                    mean_micros: mean_delay_micros as nat,
                    allowance: #[trigger] full_allowance(0, 0, now),
                    accept_v2: true,
                    v2_accepted: 0,
                    replay_path: None,
                }),
    {
        Relay {
            identity_sk,
            replay_cache: ReplayCache::new(replay_max_size, replay_ttl),
            scheduler: PoissonScheduler::new(mean_delay_micros),
            rate_limiter: RateLimiter::unlimited(),
            accept_header_v2: true,
            v2_accepted: 0,
            replay_path: None,
        }
    }

    /// Keeps the replay cache at `path` across restarts, and fills it now from
    /// what is stored there; `None` stands for nothing stored yet. Returns the
    /// relay, and how many entries were restored or why none were. A refused
    /// store leaves the cache empty, and the path is kept all the same.
    pub fn with_replay_persistence(self, path: String, stored: Option<&[u8]>) -> (r: (
        Relay,
        Result<usize, persist::SnapshotError>,
    ))
        requires
            self.wf(),
        ensures
            r.0.wf(),
            r.0@ == (RelayState { replay: r.0@.replay, replay_path: Some(path@), ..self@ }),
            stored is None ==> r.1 == Ok::<usize, persist::SnapshotError>(0) && r.0@.replay
                == self@.replay,
            stored matches Some(bytes) ==> match persist::parse_snapshot(bytes@) {
                Err(e) => r.1 == Err::<usize, persist::SnapshotError>(e) && r.0@.replay
                    == self@.replay,
                Ok(records) => r.1 is Ok && exists|
                    now: Instant,
                    at: u64,
                    seen: Seq<(Seq<u8>, int)>,
                |
                    {
                        &&& instant_read(now)
                        &&& is_unix_now(at)
                        &&& #[trigger] stamps(
                            live_records(records, at, self@.replay_ttl),
                            now,
                            at,
                            seen,
                        )
                        &&& r.0@.replay == reloaded(
                            self@.replay,
                            seen,
                            self@.replay_capacity,
                        )
                        &&& r.1->Ok_0 == adopted(
                            self@.replay,
                            seen,
                            self@.replay_capacity,
                        ).len()
                    },
            },
    {
        let mut relay = self;
        let loaded = persist::load(&mut relay.replay_cache, stored);
        relay.replay_path = Some(path);
        (relay, loaded)
    }

    /// The stored form of the replay cache, now, and where it is kept; `None`
    /// for a relay that keeps it nowhere. In memory only.
    pub fn encode_replay(&self) -> (r: Option<(Vec<u8>, String)>)
        ensures
            r is Some <==> self@.replay_path is Some,
            r matches Some((buf, path)) ==> {
                &&& self@.replay_path == Some(path@)
                &&& exists|now: int, at: u64|
                    {
                        &&& is_now(now)
                        &&& is_unix_now(at)
                        &&& buf@ == persist::render_snapshot(
                            #[trigger] snapshot(self@.replay, now, at, self@.replay_ttl),
                        )
                    }
            },
    {
        match &self.replay_path {
            Some(path) => {
                let buf: Vec<u8> = persist::encode(&self.replay_cache);
                proof {
                    let (now, at) = choose|now: int, at: u64|
                        {
                            &&& is_now(now)
                            &&& is_unix_now(at)
                            &&& buf@ == persist::render_snapshot(
                                #[trigger] snapshot(
                                    self.replay_cache@,
                                    now,
                                    at,
                                    self.replay_cache.ttl_nanos(),
                                ),
                            )
                        };
                    let records = snapshot(self@.replay, now, at, self@.replay_ttl);
                    assert(buf@ == persist::render_snapshot(records));
                }
                Some((buf, path.clone()))
            },
            None => None,
        }
    }

    /// As [`Relay::encode_replay`], with how many entries the stored form
    /// holds.
    pub fn persist_replay(&self) -> (r: Option<(Vec<u8>, usize, String)>)
        requires
            self.wf(),
        ensures
            r is Some <==> self@.replay_path is Some,
            r matches Some((buf, n, path)) ==> {
                &&& self@.replay_path == Some(path@)
                &&& exists|now: int, at: u64|
                    {
                        let records = #[trigger] snapshot(
                            self@.replay,
                            now,
                            at,
                            self@.replay_ttl,
                        );
                        &&& is_now(now)
                        &&& is_unix_now(at)
                        &&& buf@ == persist::render_snapshot(records)
                        &&& n == records.len()
                    }
            },
    {
        match &self.replay_path {
            Some(path) => {
                let (buf, n) = persist::save(&self.replay_cache);
                proof {
                    let (now, at) = choose|now: int, at: u64|
                        {
                            let records = #[trigger] snapshot(
                                self.replay_cache@,
                                now,
                                at,
                                self.replay_cache.ttl_nanos(),
                            );
                            &&& is_now(now)
                            &&& is_unix_now(at)
                            &&& buf@ == persist::render_snapshot(records)
                            &&& n == records.len()
                        };
                    let records = snapshot(self@.replay, now, at, self@.replay_ttl);
                    assert(buf@ == persist::render_snapshot(records));
                }
                Some((buf, n, path.clone()))
            },
            None => None,
        }
    }

    /// Whether this relay keeps its replay cache across restarts.
    pub fn persists_replay(&self) -> (r: bool)
        ensures
            r == (self@.replay_path is Some),
    {
        self.replay_path.is_some()
    }

    /// Refuses legacy headers from now on.
    pub fn strict_header_v3(self) -> (relay: Relay)
        requires
            self.wf(),
        ensures
            relay.wf(),
            relay@ == (RelayState { accept_v2: false, ..self@ }),
    {
        let mut relay = self;
        relay.accept_header_v2 = false;
        relay
    }

    /// Attaches a rate limit: a sustained rate in millionths of a packet per
    /// second and a quota of wire bytes per day. Zero disables either.
    pub fn with_rate_limit(self, rate: u64, max_bytes_per_day: u64) -> (relay: Relay)
        requires
            self.wf(),
        ensures
            relay.wf(),
            exists|now: int|
                is_now(now) && relay@ == (RelayState {
                    allowance: #[trigger] full_allowance(
                        rate as nat,
                        max_bytes_per_day as nat,
                        now,
                    ),
                    ..self@
                }),
    {
        let mut relay = self;
        relay.rate_limiter = RateLimiter::new(rate, max_bytes_per_day);
        relay
    }

    /// The scheduler of this relay's own delays.
    pub fn scheduler(&self) -> (scheduler: &PoissonScheduler)
        ensures
            scheduler.mean() == self@.mean_micros,
    {
        &self.scheduler
    }

    /// How many entries the replay cache holds.
    pub fn replay_cache_len(&self) -> (n: usize)
        requires
            self.wf(),
        ensures
            n == self@.replay.len(),
    {
        self.replay_cache.len()
    }

    /// Lets a packet in or turns it away: one of the wrong size at once, any
    /// other by the rate limit.
    pub fn let_in(&mut self, packet_bytes: &[u8]) -> (r: Result<(), DropReason>)
        requires
            old(self).wf(),
        ensures
            final(self).wf(),
            exists|now: int|
                {
                    let (left, refused) = #[trigger] admission(
                        old(self)@.allowance,
                        packet_bytes@.len(),
                        now,
                    );
                    &&& packet_bytes@.len() == PACKET_SIZE ==> is_now(now)
                    &&& final(self)@ == (RelayState { allowance: left, ..old(self)@ })
                    &&& r == match refused {
                        Some(why) => Err::<(), DropReason>(why),
                        None => Ok(()),
                    }
                },
    {
        let ghost a = self@.allowance;
        if packet_bytes.len() != PACKET_SIZE {
            proof {
                let nothing = admission(a, packet_bytes@.len(), 0);
            }
            return Err(DropReason::Malformed);
        }
        let decision: RateDecision = self.rate_limiter.check(packet_bytes.len());
        proof {
            let now = choose|now: int|
                {
                    &&& is_now(now)
                    &&& decision == #[trigger] decide(a, now)
                    &&& self.rate_limiter@ == account(a, now)
                };
            let asked = admission(a, packet_bytes@.len(), now);
        }
        if decision.is_allowed() {
            Ok(())
        } else {
            Err(DropReason::RateLimited)
        }
    }

    /// Applies the version policy to a header. A legacy header is refused in
    /// strict mode and counted otherwise.
    pub fn check_version(&mut self, version: u8) -> (r: Result<(), DropReason>)
        requires
            old(self).wf(),
        ensures
            final(self).wf(),
            match version_policy(old(self)@, version) {
                Some(after) => r is Ok && final(self)@ == after,
                None => r == Err::<(), DropReason>(DropReason::Malformed) && final(self)@ == old(
                    self,
                )@,
            },
    {
        if version == VERSION_LEGACY {
            if !self.accept_header_v2 {
                return Err(DropReason::Malformed);
            }
            self.v2_accepted = self.v2_accepted.saturating_add(1);
        }
        Ok(())
    }

    /// Whether the count of accepted legacy headers should be said out loud:
    /// at the first, and then at every ten thousandth.
    pub fn legacy_notice_due(&self) -> (due: bool)
        ensures
            due == (self@.v2_accepted == 1 || self@.v2_accepted > 0 && self@.v2_accepted % 10_000
                == 0),
    {
        self.v2_accepted == 1 || self.v2_accepted > 0 && self.v2_accepted % 10_000 == 0
    }

    /// How many legacy headers this relay has accepted.
    pub fn legacy_accepted(&self) -> (n: u64)
        ensures
            n == self@.v2_accepted,
    {
        self.v2_accepted
    }

    /// The secret that this relay shares with the sender of a packet.
    pub fn shared_secret(&self, alpha: &[u8; 32]) -> (shared: [u8; 32])
        ensures
            shared@ == x25519_shared(self@.sk, alpha@),
    {
        x25519(self.identity_sk, *alpha)
    }

    /// Checks the MAC of an opened packet against the replay cache.
    pub fn check_replay(&mut self, gamma: [u8; 16]) -> (r: Result<(), DropReason>)
        requires
            old(self).wf(),
        ensures
            final(self).wf(),
            exists|now: int|
                {
                    &&& is_now(now)
                    &&& r == match #[trigger] verdict(
                        old(self)@.replay,
                        gamma@,
                        now,
                        old(self)@.replay_ttl,
                    ) {
                        ReplayCheck::Replay => Err::<(), DropReason>(DropReason::Replay),
                        ReplayCheck::Fresh => Ok(()),
                    }
                    &&& final(self)@ == (RelayState {
                        replay: after_check(
                            old(self)@.replay,
                            gamma@,
                            now,
                            old(self)@.replay_ttl,
                            old(self)@.replay_capacity,
                        ),
                        ..old(self)@
                    })
                },
    {
        let ghost before = self@;
        let check: ReplayCheck = self.replay_cache.check_and_insert(gamma);
        proof {
            let now = choose|now: int|
                {
                    &&& is_now(now)
                    &&& check == #[trigger] verdict(before.replay, gamma@, now, before.replay_ttl)
                    &&& self.replay_cache@ == after_check(
                        before.replay,
                        gamma@,
                        now,
                        before.replay_ttl,
                        before.replay_capacity,
                    )
                };
            assert(check == verdict(before.replay, gamma@, now, before.replay_ttl));
        }
        match check {
            ReplayCheck::Replay => Err(DropReason::Replay),
            ReplayCheck::Fresh => Ok(()),
        }
    }

    /// How long to hold a packet whose sender chose `delay_micros`. `sampled`
    /// is a draw around the relay's own mean, for a sender that left the hold
    /// unset.
    pub fn hold(&self, delay_micros: u32, sampled: Duration) -> (delay: Duration)
        ensures
            duration_nanos(delay) == hold_time(
                delay_micros,
                self@.mean_micros,
                duration_nanos(sampled),
            ),
    {
        if delay_micros == 0 {
            return self.scheduler.next_delay(sampled);
        }
        let chosen: Duration = Duration::from_micros(delay_micros as u64);
        let longest: Duration = Duration::from_secs(MAX_HOP_DELAY_SECS);
        if chosen.as_nanos() <= longest.as_nanos() {
            chosen
        } else {
            longest
        }
    }

    /// Delivers or forwards an opened packet. A packet whose next hop is this
    /// relay itself is dropped.
    pub fn dispose(
        &self,
        record: HopRecord,
        next_header: &[u8; 384],
        delay: Duration,
        payload: Vec<u8>,
    ) -> (outcome: ProcessOutcome)
        ensures
            outcome@ == disposition(
                self@.sk,
                record,
                next_header@,
                duration_nanos(delay),
                payload@,
            ),
    {
        if record.last_hop {
            return ProcessOutcome::DeliverLocal { delay, payload };
        }
        let own: [u8; 32] = self.identity_public_key();
        if bytes_eq(record.next_node_id.as_slice(), own.as_slice()) {
            return ProcessOutcome::Drop(DropReason::PolicyDenied);
        }
        let mut packet: Vec<u8> = Vec::with_capacity(PACKET_SIZE);
        packet.extend_from_slice(next_header.as_slice());
        packet.extend_from_slice(payload.as_slice());
        assert(packet@ =~= next_header@ + payload@);
        ProcessOutcome::Forward {
            next_addr: if record.via_rendezvous {
                SocketAddrV4 { ip: [0u8, 0u8, 0u8, 0u8], port: 0 }
            } else {
                SocketAddrV4 { ip: record.next_ipv4, port: record.next_port }
            },
            next_node_id: record.next_node_id,
            delay,
            via_rendezvous: record.via_rendezvous,
            packet,
        }
    }

    /// Processes one inbound packet.
    ///
    /// `parse` parses a header; `open` opens a parsed header with the shared
    /// secret and verifies its MAC; `sample` draws a delay around the relay's
    /// own mean; `peel` removes this hop's layer from a payload.
    ///
    /// The rate limit comes first, so that a flood costs no cryptography, and
    /// the replay cache comes after the MAC was verified. The MAC travels in
    /// the clear: were it recorded unverified, anyone who saw a packet in
    /// flight could have it dropped by racing a forgery with the same MAC.
    pub fn process<H, K, P, U, S, L>(
        &mut self,
        packet_bytes: &[u8],
        parse: P,
        open: U,
        sample: S,
        peel: L,
    ) -> (outcome: ProcessOutcome) where
        P: FnOnce([u8; 384]) -> Option<ParsedHeader<H>>,
        U: FnOnce(H, [u8; 32]) -> Result<OpenedHeader<K>, OpenFailure>,
        S: FnOnce() -> Duration,
        L: FnOnce(K, Vec<u8>) -> Vec<u8>,

        requires
            old(self).wf(),
            forall|header: [u8; 384]| #[trigger] call_requires(parse, (header,)),
            forall|header: H, shared: [u8; 32]| #[trigger] call_requires(open, (header, shared)),
            call_requires(sample, ()),
            forall|key: K, region: Vec<u8>| #[trigger] call_requires(peel, (key, region)),
        ensures
            final(self).wf(),
            exists|f: Findings<H, K>|
                {
                    &&& #[trigger] found(
                        old(self)@,
                        packet_bytes@,
                        f,
                        parse,
                        open,
                        sample,
                        peel,
                    )
                    &&& outcome@ == outcome_of(old(self)@, packet_bytes@.len(), f)
                    &&& final(self)@ == relay_after(old(self)@, packet_bytes@.len(), f)
                },
    {
        let ghost relay = self@;
        let ghost packet = packet_bytes@;
        let ghost mut f: Findings<H, K> = Findings {
            admitted_at: arbitrary(),
            parsed: None,
            opened: Err(OpenFailure::Malformed),
            seen_at: arbitrary(),
            sampled: arbitrary(),
            peeled: arbitrary(),
        };

        let admitted = self.let_in(packet_bytes);
        proof {
            let now = choose|now: int|
                {
                    let (left, refused) = #[trigger] admission(
                        relay.allowance,
                        packet.len(),
                        now,
                    );
                    &&& packet.len() == PACKET_SIZE ==> is_now(now)
                    &&& self@ == (RelayState { allowance: left, ..relay })
                    &&& admitted == match refused {
                        Some(why) => Err::<(), DropReason>(why),
                        None => Ok(()),
                    }
                };
            f.admitted_at = now;
        }
        if let Err(why) = admitted {
            assert(found(relay, packet, f, parse, open, sample, peel));
            return ProcessOutcome::Drop(why);
        }

        let header: [u8; 384] = header_of(packet_bytes);
        let parsed = parse(header);
        proof {
            f.parsed = parsed;
        }
        let parsed = match parsed {
            Some(parsed) => parsed,
            None => {
                assert(found(relay, packet, f, parse, open, sample, peel));
                return ProcessOutcome::Drop(DropReason::Malformed);
            },
        };
        if let Err(why) = self.check_version(parsed.version) {
            assert(found(relay, packet, f, parse, open, sample, peel));
            return ProcessOutcome::Drop(why);
        }

        let gamma: [u8; 16] = parsed.gamma;
        let shared: [u8; 32] = self.shared_secret(&parsed.alpha);
        let opened = open(parsed.header, shared);
        proof {
            f.opened = opened;
        }
        let opened = match opened {
            Ok(opened) => opened,
            Err(failure) => {
                assert(found(relay, packet, f, parse, open, sample, peel));
                return ProcessOutcome::Drop(
                    match failure {
                        OpenFailure::BadMac => DropReason::BadMac,
                        OpenFailure::Malformed => DropReason::Malformed,
                    },
                );
            },
        };

        let ghost accepted = self@;
        let fresh = self.check_replay(gamma);
        proof {
            let now = choose|now: int|
                {
                    &&& is_now(now)
                    &&& fresh == match #[trigger] verdict(
                        accepted.replay,
                        gamma@,
                        now,
                        accepted.replay_ttl,
                    ) {
                        ReplayCheck::Replay => Err::<(), DropReason>(DropReason::Replay),
                        ReplayCheck::Fresh => Ok(()),
                    }
                    &&& self@ == (RelayState {
                        replay: after_check(
                            accepted.replay,
                            gamma@,
                            now,
                            accepted.replay_ttl,
                            accepted.replay_capacity,
                        ),
                        ..accepted
                    })
                };
            f.seen_at = now;
        }
        if let Err(why) = fresh {
            assert(found(relay, packet, f, parse, open, sample, peel));
            return ProcessOutcome::Drop(why);
        }

        let sampled: Duration = if opened.record.delay_micros == 0 {
            sample()
        } else {
            Duration::from_secs(0)
        };
        let delay: Duration = self.hold(opened.record.delay_micros, sampled);
        let region: Vec<u8> = payload_of(packet_bytes);
        let peeled: Vec<u8> = peel(opened.payload_key, region);
        proof {
            f.sampled = duration_nanos(sampled);
            f.peeled = peeled@;
            assert(found(relay, packet, f, parse, open, sample, peel));
        }
        self.dispose(opened.record, &opened.next_header, delay, peeled)
    }

    /// The X25519 public key of this relay.
    pub fn identity_public_key(&self) -> (pk: [u8; 32])
        ensures
            pk@ == x25519_public(self@.sk),
    {
        public_key(&self.identity_sk)
    }
}

impl Drop for Relay {
    /// The secret key does not outlive the relay.
    fn drop(&mut self)
        opens_invariants none
        no_unwind
    {
        erase(&mut self.identity_sk);
    }
}

/// The header of a packet.
fn header_of(packet: &[u8]) -> (header: [u8; 384])
    requires
        packet@.len() == PACKET_SIZE,
    ensures
        header@ == packet@.take(HEADER_LEN as int),
{
    let mut header: [u8; 384] = [0u8; 384];
    let mut i: usize = 0;
    while i < HEADER_LEN
        invariant
            i <= HEADER_LEN,
            packet@.len() == PACKET_SIZE,
            forall|j: int| 0 <= j < i ==> header@[j] == packet@[j],
        decreases HEADER_LEN - i,
    {
        header[i] = packet[i];
        i = i + 1;
    }
    assert(header@ =~= packet@.take(HEADER_LEN as int));
    header
}

/// The payload region of a packet.
fn payload_of(packet: &[u8]) -> (region: Vec<u8>)
    requires
        packet@.len() == PACKET_SIZE,
    ensures
        region@ == packet@.skip(HEADER_LEN as int),
{
    let region: Vec<u8> = vstd::slice::slice_to_vec(
        vstd::slice::slice_subrange(packet, HEADER_LEN, PACKET_SIZE),
    );
    assert(region@ =~= packet@.skip(HEADER_LEN as int));
    region
}

} // verus!
