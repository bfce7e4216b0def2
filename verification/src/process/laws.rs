//! What the packet processor promises of any packet and any two packets.

use crate::clock::{duration_nanos, instant_read, is_now, is_unix_now, NANOS_PER_SEC};
use crate::delay::{PoissonScheduler, MAX_MEANS};
use crate::keys::{x25519_public, x25519_shared};
use crate::process::{admission, found, nowhere, outcome_of, relay_after, stage, version_policy,
    DropReason, Findings, HopRecord, OpenFailure, OpenedHeader, Outcome, ParsedHeader, ProcessOutcome, Relay,
    RelayState, HEADER_LEN, MAX_HOP_DELAY_SECS, PACKET_SIZE, VERSION_LEGACY};
use crate::rate_limit::{account, decide, RateDecision};
use crate::replay::laws::{after_checks, fresh_key_is_remembered, known_key_alone_is_a_replay,
    live_key_is_a_replay};
use crate::replay::cache_laws::{lemma_takes_over, takes_over};
use crate::replay::persist;
use crate::replay::{adopted, after_check, distinct_keys, expired, lemma_snapshot_keys, live_records,
    reloaded, snapshot, stamps, verdict, ReplayCheck};
use std::time::{Duration, Instant};
use vstd::prelude::*;

verus! {

/// A packet whose header was not opened, because it was turned away, refused
/// or failed authentication, leaves the replay cache as it was.
pub proof fn unauthenticated_packets_leave_the_cache<H, K>(
    relay: RelayState,
    len: nat,
    f: Findings<H, K>,
)
    requires
        f.opened is Err,
    ensures
        relay_after(relay, len, f).replay == relay.replay,
{
}

/// A forgery cannot suppress the genuine packet: at a relay without a rate
/// limit, a packet that fails authentication changes nothing about what
/// becomes of the next one, whatever MAC it carries.
pub proof fn a_forgery_does_not_suppress_the_genuine_packet<H, K>(
    relay: RelayState,
    len: nat,
    forged: Findings<H, K>,
    genuine: Findings<H, K>,
)
    requires
        forged.opened is Err,
        relay.allowance.rate == 0,
        relay.allowance.budget == 0,
    ensures
        outcome_of(relay_after(relay, len, forged), len, genuine) == outcome_of(
            relay,
            len,
            genuine,
        ),
{
    let after = relay_after(relay, len, forged);
    if genuine.parsed is Some {
        let v = genuine.parsed->0.version;
        assert(version_policy(after, v) is None <==> version_policy(relay, v) is None);
    }
}

/// A packet that was disposed of is dropped as a replay when it comes again
/// while its MAC is remembered, at a relay that remembers any.
pub proof fn a_packet_is_disposed_of_once<H, K>(
    relay: RelayState,
    len: nat,
    first: Findings<H, K>,
    again: Findings<H, K>,
)
    requires
        relay.replay_capacity > 0,
        stage(relay, len, first) is Disposed,
        again.parsed is Some,
        again.parsed->0.gamma@ == first.parsed->0.gamma@,
        version_policy(relay, again.parsed->0.version) is Some,
        again.opened is Ok,
        admission(relay_after(relay, len, first).allowance, len, again.admitted_at).1 is None,
        !expired(first.seen_at, again.seen_at, relay.replay_ttl),
    ensures
        outcome_of(relay_after(relay, len, first), len, again) == Outcome::Drop(
            DropReason::Replay,
        ),
{
    let after = relay_after(relay, len, first);
    let none = Seq::<(Seq<u8>, int)>::empty();
    fresh_key_is_remembered(
        relay.replay,
        first.parsed->0.gamma@,
        first.seen_at,
        none,
        again.seen_at,
        relay.replay_ttl,
        relay.replay_capacity,
    );
    assert(after_checks(after.replay, none, relay.replay_ttl, relay.replay_capacity)
        == after.replay);
    let v = again.parsed->0.version;
    assert(version_policy(after, v) is None <==> version_policy(relay, v) is None);
}

/// A relay lets in what its limiter allows and nothing else, and charges the
/// limiter for just that: the bounds that hold of the limiter over any run of
/// packets hold of the relay. A packet of the wrong size is not charged.
pub proof fn the_limiter_decides_what_is_let_in<H, K>(
    relay: RelayState,
    len: nat,
    f: Findings<H, K>,
)
    ensures
        len == PACKET_SIZE ==> relay_after(relay, len, f).allowance == account(
            relay.allowance,
            f.admitted_at,
        ),
        len == PACKET_SIZE ==> (stage(relay, len, f) is NotAdmitted <==> decide(
            relay.allowance,
            f.admitted_at,
        ) != RateDecision::Allow),
        len != PACKET_SIZE ==> relay_after(relay, len, f).allowance == relay.allowance,
{
}

/// A packet that is shed by the rate limit, or that has the wrong size,
/// changes nothing at all.
pub proof fn packets_turned_away_change_nothing<H, K>(
    relay: RelayState,
    len: nat,
    f: Findings<H, K>,
)
    requires
        stage(relay, len, f) is NotAdmitted,
    ensures
        relay_after(relay, len, f) == relay,
        len != PACKET_SIZE ==> outcome_of(relay, len, f) == Outcome::Drop(DropReason::Malformed),
        len == PACKET_SIZE ==> outcome_of(relay, len, f) == Outcome::Drop(DropReason::RateLimited),
{
}

/// No packet is held longer than thirty seconds or a hundred times the mean of
/// the relay's own delays, whichever is longer.
pub proof fn holds_are_bounded<H, K>(relay: RelayState, len: nat, f: Findings<H, K>)
    ensures
        ({
            let longest = if MAX_HOP_DELAY_SECS * NANOS_PER_SEC >= MAX_MEANS * relay.mean_micros
                * 1_000 {
                MAX_HOP_DELAY_SECS * NANOS_PER_SEC
            } else {
                MAX_MEANS * relay.mean_micros * 1_000
            };
            match outcome_of(relay, len, f) {
                Outcome::Drop(_) => true,
                Outcome::Forward { delay, .. } => delay <= longest,
                Outcome::DeliverLocal { delay, .. } => delay <= longest,
            }
        }),
{
}

/// A relay never forwards to itself, what it forwards is a whole packet
/// wherever peeling keeps the length of the payload, and a hop that is
/// addressed by identity comes without an address.
pub proof fn forwarded_packets_are_whole_and_leave<H, K>(
    relay: RelayState,
    f: Findings<H, K>,
)
    requires
        f.peeled.len() == PACKET_SIZE - HEADER_LEN,
    ensures
        match outcome_of(relay, PACKET_SIZE as nat, f) {
            Outcome::Forward { next_addr, next_node_id, packet, via_rendezvous, .. } => {
                &&& next_node_id != x25519_public(relay.sk)
                &&& packet.len() == PACKET_SIZE
                &&& via_rendezvous ==> next_addr == nowhere()
            },
            _ => true,
        },
{
}

/// In strict mode a legacy header goes no further than its version, and the
/// mode, the key and the limits of a relay do not change by processing.
pub proof fn policy_is_kept<H, K>(relay: RelayState, len: nat, f: Findings<H, K>)
    ensures
        !relay.accept_v2 && f.parsed is Some && f.parsed->0.version == VERSION_LEGACY ==> stage(
            relay,
            len,
            f,
        ) is NotAdmitted || stage(relay, len, f) is Refused,
        relay_after(relay, len, f).accept_v2 == relay.accept_v2,
        relay_after(relay, len, f).sk == relay.sk,
        relay_after(relay, len, f).allowance.rate == relay.allowance.rate,
        relay_after(relay, len, f).allowance.budget == relay.allowance.budget,
        relay_after(relay, len, f).replay_ttl == relay.replay_ttl,
        relay_after(relay, len, f).replay_capacity == relay.replay_capacity,
{
}

/// What a relay did about a packet that it did not drop, said of the packet, of
/// the relay's key and mean delay, and of what the caller's functions gave: it
/// parsed the first 384 bytes, opened what came out with the secret that it
/// shares with the sender, and peeled the rest with the key that came out of
/// that.
///
/// The hop that the record names as the last delivers what was peeled. Any
/// other forwards it behind the next header, to the hop that the record names,
/// which is not this relay. Either way the packet is held for the time that the
/// sender chose, up to thirty seconds, and where the sender chose none for the
/// relay's own draw, up to a hundred times its mean.
pub open spec fn taken_on<H, K, P, U, S, L>(
    sk: Seq<u8>,
    mean_micros: nat,
    packet: Seq<u8>,
    header: [u8; 384],
    parsed: ParsedHeader<H>,
    shared: [u8; 32],
    opened: OpenedHeader<K>,
    region: Vec<u8>,
    peeled: Vec<u8>,
    parse: P,
    open: U,
    sample: S,
    peel: L,
    outcome: Outcome,
) -> bool where
    P: FnOnce([u8; 384]) -> Option<ParsedHeader<H>>,
    U: FnOnce(H, [u8; 32]) -> Result<OpenedHeader<K>, OpenFailure>,
    S: FnOnce() -> Duration,
    L: FnOnce(K, Vec<u8>) -> Vec<u8>,
 {
    let record = opened.record;
    &&& packet.len() == 2048
    &&& header@ == packet.take(384)
    &&& call_ensures(parse, (header,), Some(parsed))
    &&& shared@ == x25519_shared(sk, parsed.alpha@)
    &&& call_ensures(open, (parsed.header, shared), Ok::<OpenedHeader<K>, OpenFailure>(opened))
    &&& region@ == packet.skip(384)
    &&& call_ensures(peel, (opened.payload_key, region), peeled)
    &&& match outcome {
        Outcome::Drop(_) => false,
        Outcome::DeliverLocal { delay, payload } => {
            &&& record.last_hop
            &&& payload == peeled@
            &&& held_as_chosen(record.delay_micros, mean_micros, sample, delay)
        },
        Outcome::Forward { next_addr, next_node_id, delay, via_rendezvous, packet: onward } => {
            &&& !record.last_hop
            &&& next_node_id == record.next_node_id@
            &&& next_node_id != x25519_public(sk)
            &&& via_rendezvous == record.via_rendezvous
            &&& !via_rendezvous ==> next_addr.ip == record.next_ipv4 && next_addr.port
                == record.next_port
            &&& via_rendezvous ==> next_addr.ip@ == seq![0u8, 0u8, 0u8, 0u8] && next_addr.port == 0
            &&& onward == opened.next_header@ + peeled@
            &&& held_as_chosen(record.delay_micros, mean_micros, sample, delay)
        },
    }
}

/// Whether `delay` nanoseconds are the hold of a packet whose sender chose
/// `delay_micros`: just that, but no more than thirty seconds, and for a sender
/// that chose none a draw of `sample`, but no more than a hundred times the
/// relay's mean.
pub open spec fn held_as_chosen<S>(
    delay_micros: u32,
    mean_micros: nat,
    sample: S,
    delay: nat,
) -> bool where S: FnOnce() -> Duration {
    if delay_micros > 30_000_000 {
        delay == 30_000_000_000
    } else if delay_micros > 0 {
        delay == delay_micros * 1_000
    } else {
        exists|d: Duration| #[trigger]
            call_ensures(sample, (), d) && if duration_nanos(d) <= mean_micros * 100_000 {
                delay == duration_nanos(d)
            } else {
                delay == mean_micros * 100_000
            }
    }
}

/// Why a relay may drop a packet: each reason with what it means of the packet,
/// of the relay and of what the caller's functions gave.
pub open spec fn dropped_for<H, K, P, U>(
    relay: RelayState,
    packet: Seq<u8>,
    why: DropReason,
    parse: P,
    open: U,
) -> bool where
    P: FnOnce([u8; 384]) -> Option<ParsedHeader<H>>,
    U: FnOnce(H, [u8; 32]) -> Result<OpenedHeader<K>, OpenFailure>,
 {
    if packet.len() != 2048 {
        why == DropReason::Malformed
    } else if why == DropReason::RateLimited {
        relay.allowance.rate > 0 || relay.allowance.budget > 0
    } else {
        exists|header: [u8; 384], parsed: Option<ParsedHeader<H>>|
            #![trigger call_ensures(parse, (header,), parsed)]
            {
                &&& header@ == packet.take(384)
                &&& call_ensures(parse, (header,), parsed)
                &&& if parsed is None || parsed->0.version == 2 && !relay.accept_v2 {
                    why == DropReason::Malformed
                } else {
                    exists|shared: [u8; 32], opened: Result<OpenedHeader<K>, OpenFailure>|
                        #![trigger call_ensures(open, (parsed->0.header, shared), opened)]
                        {
                            &&& shared@ == x25519_shared(relay.sk, parsed->0.alpha@)
                            &&& call_ensures(open, (parsed->0.header, shared), opened)
                            &&& match opened {
                                Err(OpenFailure::BadMac) => why == DropReason::BadMac,
                                Err(OpenFailure::Malformed) => why == DropReason::Malformed,
                                Ok(opened) => {
                                    ||| why == DropReason::Replay && exists|i: int|
                                        0 <= i < relay.replay.len() && (
                                        #[trigger] relay.replay[i]).0 == parsed->0.gamma@
                                    ||| why == DropReason::PolicyDenied && !opened.record.last_hop
                                        && opened.record.next_node_id@ == x25519_public(relay.sk)
                                },
                            }
                        }
                }
            }
    }
}

/// What processing found, in the terms of [`taken_on`] and [`dropped_for`].
pub(crate) proof fn lemma_found<H, K, P, U, S, L>(
    relay: RelayState,
    packet: Seq<u8>,
    f: Findings<H, K>,
    parse: P,
    open: U,
    sample: S,
    peel: L,
) -> (parts: ([u8; 384], [u8; 32], Vec<u8>, Vec<u8>)) where
    P: FnOnce([u8; 384]) -> Option<ParsedHeader<H>>,
    U: FnOnce(H, [u8; 32]) -> Result<OpenedHeader<K>, OpenFailure>,
    S: FnOnce() -> Duration,
    L: FnOnce(K, Vec<u8>) -> Vec<u8>,

    requires
        found(relay, packet, f, parse, open, sample, peel),
    ensures
        match outcome_of(relay, packet.len(), f) {
            Outcome::Drop(why) => dropped_for(relay, packet, why, parse, open),
            outcome => {
                &&& f.parsed is Some
                &&& f.opened is Ok
                &&& !(f.parsed->0.version == 2 && !relay.accept_v2)
                &&& taken_on(
                    relay.sk,
                    relay.mean_micros,
                    packet,
                    parts.0,
                    f.parsed->0,
                    parts.1,
                    f.opened->Ok_0,
                    parts.2,
                    parts.3,
                    parse,
                    open,
                    sample,
                    peel,
                    outcome,
                )
            },
        },
{
    let reached = stage(relay, packet.len(), f);
    let header = choose|header: [u8; 384]|
        header@ == packet.take(HEADER_LEN as int) && #[trigger] call_ensures(
            parse,
            (header,),
            f.parsed,
        );
    let shared = choose|shared: [u8; 32]|
        shared@ == x25519_shared(relay.sk, f.parsed->0.alpha@) && #[trigger] call_ensures(
            open,
            (f.parsed->0.header, shared),
            f.opened,
        );
    let (region, out) = choose|region: Vec<u8>, out: Vec<u8>|
        region@ == packet.skip(HEADER_LEN as int) && out@ == f.peeled && #[trigger] call_ensures(
            peel,
            (f.opened->Ok_0.payload_key, region),
            out,
        );
    if !(reached is NotAdmitted) {
        assert(call_ensures(parse, (header,), f.parsed));
        if !(reached is Refused) {
            assert(call_ensures(open, (f.parsed->0.header, shared), f.opened));
            assert(f.parsed == Some(f.parsed->0));
            if reached is Replayed {
                known_key_alone_is_a_replay(
                    relay.replay,
                    f.parsed->0.gamma@,
                    f.seen_at,
                    relay.replay_ttl,
                );
            }
            if reached is Disposed {
                assert(f.opened == Ok::<OpenedHeader<K>, OpenFailure>(f.opened->Ok_0));
                assert(relay.mean_micros * 100_000 == 100 * relay.mean_micros * 1_000)
                    by (nonlinear_arith);
            }
        }
    }
    (header, shared, region, out)
}

/// What a relay does with a packet: it drops it for one of the reasons that
/// there are, or it delivers or forwards what the packet holds for it, after
/// the hold that the sender chose.
pub proof fn a_packet_is_dropped_or_taken_on<H, K, P, U, S, L>(
    relay: &mut Relay,
    packet: &[u8],
    parse: P,
    open: U,
    sample: S,
    peel: L,
    outcome: ProcessOutcome,
) where
    P: FnOnce([u8; 384]) -> Option<ParsedHeader<H>>,
    U: FnOnce(H, [u8; 32]) -> Result<OpenedHeader<K>, OpenFailure>,
    S: FnOnce() -> Duration,
    L: FnOnce(K, Vec<u8>) -> Vec<u8>,

    requires
        call_ensures(
            Relay::process::<H, K, P, U, S, L>,
            (relay, packet, parse, open, sample, peel),
            outcome,
        ),
    ensures
        match outcome {
            ProcessOutcome::Drop(why) => dropped_for(old(relay)@, packet@, why, parse, open),
            _ => exists|
                header: [u8; 384],
                parsed: ParsedHeader<H>,
                shared: [u8; 32],
                opened: OpenedHeader<K>,
                region: Vec<u8>,
                peeled: Vec<u8>,
            |
                #[trigger] taken_on(
                    old(relay)@.sk,
                    old(relay)@.mean_micros,
                    packet@,
                    header,
                    parsed,
                    shared,
                    opened,
                    region,
                    peeled,
                    parse,
                    open,
                    sample,
                    peel,
                    outcome@,
                ) && !(parsed.version == 2 && !old(relay)@.accept_v2),
        },
{
    let f = choose|f: Findings<H, K>|
        {
            &&& #[trigger] found(old(relay)@, packet@, f, parse, open, sample, peel)
            &&& outcome@ == outcome_of(old(relay)@, packet@.len(), f)
            &&& final(relay)@ == relay_after(old(relay)@, packet@.len(), f)
        };
    let parts = lemma_found(old(relay)@, packet@, f, parse, open, sample, peel);
    assert(outcome@ == outcome_of(old(relay)@, packet@.len(), f));
}

/// What processing a packet leaves: the relay's key, its settings and where it
/// keeps its cache are what they were. A packet that was turned away, or whose
/// header was not opened, leaves the replay cache as it was. One that was taken
/// on was not seen before, within the time to live, and is remembered from then
/// on by the MAC of its header, where the relay remembers any.
pub proof fn what_is_taken_on_is_remembered<H, K, P, U, S, L>(
    relay: &mut Relay,
    packet: &[u8],
    parse: P,
    open: U,
    sample: S,
    peel: L,
    outcome: ProcessOutcome,
) where
    P: FnOnce([u8; 384]) -> Option<ParsedHeader<H>>,
    U: FnOnce(H, [u8; 32]) -> Result<OpenedHeader<K>, OpenFailure>,
    S: FnOnce() -> Duration,
    L: FnOnce(K, Vec<u8>) -> Vec<u8>,

    requires
        call_ensures(
            Relay::process::<H, K, P, U, S, L>,
            (relay, packet, parse, open, sample, peel),
            outcome,
        ),
    ensures
        final(relay)@.sk == old(relay)@.sk,
        final(relay)@.replay_ttl == old(relay)@.replay_ttl,
        final(relay)@.replay_capacity == old(relay)@.replay_capacity,
        final(relay)@.mean_micros == old(relay)@.mean_micros,
        final(relay)@.accept_v2 == old(relay)@.accept_v2,
        final(relay)@.replay_path == old(relay)@.replay_path,
        final(relay)@.allowance.rate == old(relay)@.allowance.rate,
        final(relay)@.allowance.budget == old(relay)@.allowance.budget,
        final(relay)@.v2_accepted == old(relay)@.v2_accepted || old(relay)@.accept_v2
            && final(relay)@.v2_accepted == old(relay)@.v2_accepted + 1,
        outcome matches ProcessOutcome::Drop(why) ==> {
            &&& why == DropReason::RateLimited || why == DropReason::Malformed || why
                == DropReason::BadMac ==> final(relay)@.replay == old(relay)@.replay
            &&& why == DropReason::RateLimited || packet@.len() != 2048 ==> final(relay)@ == old(relay)@
        },
        !(outcome is Drop) ==> exists|
            header: [u8; 384],
            parsed: Option<ParsedHeader<H>>,
            seen: int,
        |
            {
                &&& header@ == packet@.take(384)
                &&& #[trigger] call_ensures(parse, (header,), parsed)
                &&& parsed is Some
                &&& #[trigger] is_now(seen)
                &&& forall|i: int|
                    0 <= i < old(relay)@.replay.len() && (#[trigger] old(relay)@.replay[i]).0
                        == parsed->0.gamma@ ==> seen - old(relay)@.replay[i].1 > old(relay)@.replay_ttl
                &&& old(relay)@.replay_capacity > 0 ==> {
                    &&& final(relay)@.replay.len() > 0
                    &&& final(relay)@.replay.last() == (parsed->0.gamma@, seen)
                }
                &&& final(relay)@.v2_accepted > old(relay)@.v2_accepted ==> parsed->0.version == 2
                &&& parsed->0.version == 2 && old(relay)@.v2_accepted < u64::MAX ==> final(relay)@.v2_accepted == old(relay)@.v2_accepted + 1
            },
{
    let before = old(relay)@;
    let f = choose|f: Findings<H, K>|
        {
            &&& #[trigger] found(before, packet@, f, parse, open, sample, peel)
            &&& outcome@ == outcome_of(before, packet@.len(), f)
            &&& final(relay)@ == relay_after(before, packet@.len(), f)
        };
    assert(outcome@ == outcome_of(before, packet@.len(), f));
    let parts = lemma_found(before, packet@, f, parse, open, sample, peel);
    if !(outcome is Drop) {
        assert(stage(before, packet@.len(), f) is Disposed);
        assert(call_ensures(parse, (parts.0,), Some(f.parsed->0)));
        assert(f.parsed == Some(f.parsed->0));
        assert(call_ensures(parse, (parts.0,), f.parsed));
        assert(is_now(f.seen_at));
        assert forall|i: int|
            0 <= i < before.replay.len() && (#[trigger] before.replay[i]).0
                == f.parsed->0.gamma@ implies f.seen_at - before.replay[i].1
            > before.replay_ttl by {
            if !expired(before.replay[i].1, f.seen_at, before.replay_ttl) {
                live_key_is_a_replay(before.replay, i, f.seen_at, before.replay_ttl);
            }
        }
    }
}

/// A hold is what the sender chose, up to thirty seconds, or the relay's own
/// draw, up to a hundred times its mean.
pub proof fn a_hold_is_chosen_or_drawn(
    relay: &Relay,
    delay_micros: u32,
    sampled: Duration,
    delay: Duration,
)
    requires
        call_ensures(Relay::hold, (relay, delay_micros, sampled), delay),
    ensures
        delay_micros > 30_000_000 ==> duration_nanos(delay) == 30_000_000_000,
        0 < delay_micros <= 30_000_000 ==> duration_nanos(delay) == delay_micros * 1_000,
        delay_micros == 0 && duration_nanos(sampled) <= relay@.mean_micros * 100_000
            ==> duration_nanos(delay) == duration_nanos(sampled),
        delay_micros == 0 && duration_nanos(sampled) > relay@.mean_micros * 100_000
            ==> duration_nanos(delay) == relay@.mean_micros * 100_000,
{
    assert(relay@.mean_micros * 100_000 == 100 * relay@.mean_micros * 1_000) by (nonlinear_arith);
}

/// An opened packet goes where its record says, after the hold that it was
/// given, and never back to this relay.
pub proof fn an_opened_packet_goes_where_it_says(
    relay: &Relay,
    record: HopRecord,
    next_header: &[u8; 384],
    delay: Duration,
    payload: Vec<u8>,
    outcome: ProcessOutcome,
)
    requires
        call_ensures(Relay::dispose, (relay, record, next_header, delay, payload), outcome),
    ensures
        match outcome {
            ProcessOutcome::DeliverLocal { delay: held, payload: delivered } => {
                &&& record.last_hop
                &&& duration_nanos(held) == duration_nanos(delay)
                &&& delivered@ == payload@
            },
            ProcessOutcome::Drop(why) => {
                &&& why == DropReason::PolicyDenied
                &&& !record.last_hop
                &&& record.next_node_id@ == x25519_public(relay@.sk)
            },
            ProcessOutcome::Forward {
                next_addr,
                next_node_id,
                delay: held,
                via_rendezvous,
                packet,
            } => {
                &&& !record.last_hop
                &&& record.next_node_id@ != x25519_public(relay@.sk)
                &&& duration_nanos(held) == duration_nanos(delay)
                &&& next_node_id@ == record.next_node_id@
                &&& via_rendezvous == record.via_rendezvous
                &&& !via_rendezvous ==> next_addr.ip == record.next_ipv4 && next_addr.port
                    == record.next_port
                &&& via_rendezvous ==> next_addr.port == 0 && forall|i: int|
                    0 <= i < 4 ==> #[trigger] next_addr.ip@[i] == 0
                &&& packet@ == next_header@ + payload@
            },
        },
{
    assert(outcome@ == crate::process::disposition(
        relay@.sk,
        record,
        next_header@,
        duration_nanos(delay),
        payload@,
    ));
}

/// A packet is let in where it has the size of every packet and the limiter
/// lets it pass. One of another size is malformed and costs nothing; one that
/// is shed for the rate costs nothing either.
pub proof fn only_whole_packets_are_let_in(
    relay: &mut Relay,
    packet: &[u8],
    r: Result<(), DropReason>,
)
    requires
        call_ensures(Relay::let_in, (relay, packet), r),
    ensures
        packet@.len() != 2048 ==> r == Err::<(), DropReason>(DropReason::Malformed),
        packet@.len() == 2048 && r is Err ==> r == Err::<(), DropReason>(DropReason::RateLimited)
            && (old(relay)@.allowance.rate > 0 || old(relay)@.allowance.budget > 0),
        r is Err ==> final(relay)@ == old(relay)@,
        final(relay)@ == (RelayState { allowance: final(relay)@.allowance, ..old(relay)@ }),
        packet@.len() == 2048 ==> exists|now: int| #[trigger]
            is_now(now) && final(relay)@.allowance == account(old(relay)@.allowance, now) && (r is Ok
                <==> decide(old(relay)@.allowance, now) == RateDecision::Allow),
{
    let now = choose|now: int|
        {
            let (left, refused) = #[trigger] admission(old(relay)@.allowance, packet@.len(), now);
            &&& packet@.len() == PACKET_SIZE ==> is_now(now)
            &&& final(relay)@ == (RelayState { allowance: left, ..old(relay)@ })
            &&& r == match refused {
                Some(why) => Err::<(), DropReason>(why),
                None => Ok(()),
            }
        };
    if packet@.len() == 2048 {
        assert(is_now(now));
    }
}

/// A packet is charged to the relay's limits once, when it comes in, whatever
/// becomes of it, and is shed for the rate exactly where they do not let it pass.
/// One of another size is not charged.
pub proof fn a_packet_is_charged_when_it_comes_in<H, K, P, U, S, L>(
    relay: &mut Relay,
    packet: &[u8],
    parse: P,
    open: U,
    sample: S,
    peel: L,
    outcome: ProcessOutcome,
) where
    P: FnOnce([u8; 384]) -> Option<ParsedHeader<H>>,
    U: FnOnce(H, [u8; 32]) -> Result<OpenedHeader<K>, OpenFailure>,
    S: FnOnce() -> Duration,
    L: FnOnce(K, Vec<u8>) -> Vec<u8>,

    requires
        call_ensures(
            Relay::process::<H, K, P, U, S, L>,
            (relay, packet, parse, open, sample, peel),
            outcome,
        ),
    ensures
        packet@.len() == 2048 ==> exists|now: int| #[trigger]
            is_now(now) && final(relay)@.allowance == account(old(relay)@.allowance, now) && (outcome@
                == Outcome::Drop(DropReason::RateLimited) <==> decide(old(relay)@.allowance, now)
                != RateDecision::Allow),
        packet@.len() != 2048 ==> final(relay)@.allowance == old(relay)@.allowance && outcome@
            == Outcome::Drop(DropReason::Malformed),
{
    let before = old(relay)@;
    let f = choose|f: Findings<H, K>|
        {
            &&& #[trigger] found(before, packet@, f, parse, open, sample, peel)
            &&& outcome@ == outcome_of(before, packet@.len(), f)
            &&& final(relay)@ == relay_after(before, packet@.len(), f)
        };
    assert(outcome@ == outcome_of(before, packet@.len(), f));
    if packet@.len() == 2048 {
        assert(is_now(f.admitted_at));
    }
}

/// A legacy header, of version 2, is refused in strict mode and counted
/// otherwise. A header of any other version passes uncounted.
pub proof fn legacy_headers_are_refused_or_counted(
    relay: &mut Relay,
    version: u8,
    r: Result<(), DropReason>,
)
    requires
        call_ensures(Relay::check_version, (relay, version), r),
    ensures
        r is Err <==> version == 2 && !old(relay)@.accept_v2,
        r is Err ==> r == Err::<(), DropReason>(DropReason::Malformed) && final(relay)@ == old(relay)@,
        version != 2 ==> final(relay)@ == old(relay)@,
        version == 2 && r is Ok && old(relay)@.v2_accepted < u64::MAX ==> final(relay)@ == (
        RelayState { v2_accepted: old(relay)@.v2_accepted + 1, ..old(relay)@ }),
        version == 2 && r is Ok && old(relay)@.v2_accepted >= u64::MAX ==> final(relay)@ == old(relay)@,
{
}

/// The count of legacy headers is told, and is to be said out loud at the first
/// and at every ten thousandth, and at no other.
pub proof fn legacy_headers_are_announced_now_and_again(
    relay: &Relay,
    n: u64,
    due: bool,
    k: nat,
)
    requires
        call_ensures(Relay::legacy_accepted, (relay,), n),
        call_ensures(Relay::legacy_notice_due, (relay,), due),
    ensures
        n == relay@.v2_accepted,
        n == 0 ==> !due,
        n == 1 ==> due,
        n == 10_000 * (k + 1) ==> due,
        10_000 * k < n < 10_000 * (k + 1) && n != 1 ==> !due,
{
    if 10_000 * k < n < 10_000 * (k + 1) {
        assert(n as int % 10_000 == n - 10_000 * k) by {
            vstd::arithmetic::div_mod::lemma_fundamental_div_mod_converse(
                n as int,
                10_000,
                k as int,
                n - 10_000 * k,
            );
        }
    }
    if n == 10_000 * (k + 1) {
        assert(n as int % 10_000 == 0) by {
            vstd::arithmetic::div_mod::lemma_fundamental_div_mod_converse(
                n as int,
                10_000,
                k as int + 1,
                0,
            );
        }
    }
}

/// A relay checks a MAC against what it remembers: one that it remembers, within
/// the time to live, is a replay; any other is fresh, and remembered as the
/// newest from then on, where the relay remembers any.
pub proof fn a_mac_is_fresh_once(relay: &mut Relay, gamma: [u8; 16], r: Result<(), DropReason>)
    requires
        call_ensures(Relay::check_replay, (relay, gamma), r),
    ensures
        r matches Err(why) ==> why == DropReason::Replay && exists|i: int|
            0 <= i < old(relay)@.replay.len() && (#[trigger] old(relay)@.replay[i]).0 == gamma@,
        exists|seen: int| #[trigger]
            is_now(seen) && {
                &&& r is Ok ==> forall|i: int|
                    0 <= i < old(relay)@.replay.len() && (#[trigger] old(relay)@.replay[i]).0
                        == gamma@ ==> seen - old(relay)@.replay[i].1 > old(relay)@.replay_ttl
                &&& r is Ok && old(relay)@.replay_capacity > 0 ==> final(relay)@.replay.len() > 0
                    && final(relay)@.replay.last() == (gamma@, seen)
            },
        final(relay)@ == (RelayState { replay: final(relay)@.replay, ..old(relay)@ }),
{
    let before = old(relay)@;
    let now = choose|now: int|
        {
            &&& is_now(now)
            &&& r == match #[trigger] verdict(before.replay, gamma@, now, before.replay_ttl) {
                ReplayCheck::Replay => Err::<(), DropReason>(DropReason::Replay),
                ReplayCheck::Fresh => Ok(()),
            }
            &&& final(relay)@ == (RelayState {
                replay: after_check(
                    before.replay,
                    gamma@,
                    now,
                    before.replay_ttl,
                    before.replay_capacity,
                ),
                ..before
            })
        };
    let v = verdict(before.replay, gamma@, now, before.replay_ttl);
    assert(is_now(now));
    if r is Err {
        known_key_alone_is_a_replay(before.replay, gamma@, now, before.replay_ttl);
    } else {
        assert forall|i: int|
            0 <= i < before.replay.len() && (#[trigger] before.replay[i]).0
                == gamma@ implies now - before.replay[i].1 > before.replay_ttl by {
            if !expired(before.replay[i].1, now, before.replay_ttl) {
                live_key_is_a_replay(before.replay, i, now, before.replay_ttl);
            }
        }
    }
}

/// A relay starts with its own key, an empty cache of the size and time to live
/// that it was given, no limit, and legacy headers accepted; it then has the
/// limits that it is given, and strictness once it is asked for, and keeps the
/// rest.
pub proof fn a_relay_is_what_it_was_made(
    sk: [u8; 32],
    max_size: usize,
    ttl: Duration,
    mean: u64,
    made: Relay,
    given: Relay,
    rate: u64,
    budget: u64,
    limited: Relay,
    strict: Relay,
)
    requires
        call_ensures(Relay::new, (sk, max_size, ttl, mean), made),
        call_ensures(Relay::with_rate_limit, (given, rate, budget), limited),
        call_ensures(Relay::strict_header_v3, (given,), strict),
    ensures
        made.wf(),
        made@.sk == sk@,
        made@.replay.len() == 0,
        made@.replay_ttl == duration_nanos(ttl),
        made@.replay_capacity == max_size,
        made@.mean_micros == mean,
        made@.allowance.rate == 0,
        made@.allowance.budget == 0,
        made@.accept_v2,
        made@.v2_accepted == 0,
        made@.replay_path is None,
        limited.wf(),
        limited@ == (RelayState { allowance: limited@.allowance, ..given@ }),
        limited@.allowance.rate == rate,
        limited@.allowance.budget == budget,
        limited@.allowance.tokens == rate * 2_000_000_000,
        limited@.allowance.passed.len() == 0,
        strict.wf(),
        strict@ == (RelayState { accept_v2: false, ..given@ }),
{
}

/// What a relay tells of itself.
pub proof fn a_relay_tells_of_itself(
    relay: &Relay,
    pk: [u8; 32],
    alpha: &[u8; 32],
    shared: [u8; 32],
    entries: usize,
    persists: bool,
    scheduler: &PoissonScheduler,
)
    requires
        call_ensures(Relay::identity_public_key, (relay,), pk),
        call_ensures(Relay::shared_secret, (relay, alpha), shared),
        call_ensures(Relay::replay_cache_len, (relay,), entries),
        call_ensures(Relay::persists_replay, (relay,), persists),
        call_ensures(Relay::scheduler, (relay,), scheduler),
    ensures
        pk@ == x25519_public(relay@.sk),
        shared@ == x25519_shared(relay@.sk, alpha@),
        entries == relay@.replay.len(),
        persists <==> relay@.replay_path is Some,
        scheduler.mean() == relay@.mean_micros,
{
}

/// An outcome is a drop where it is one.
pub proof fn a_drop_is_a_drop(outcome: &ProcessOutcome, r: bool)
    requires
        call_ensures(ProcessOutcome::is_drop, (outcome,), r),
    ensures
        r <==> *outcome is Drop,
{
}

/// What a relay stores of its cache, it stores where it was told to, and the
/// stored bytes are never refused: they read back as the live entries of the
/// cache, each with the second at which it was seen, and as many as were
/// counted.
pub proof fn what_a_relay_stores_reads_back(
    relay: &Relay,
    saved: Option<(Vec<u8>, String)>,
    counted: Option<(Vec<u8>, usize, String)>,
)
    requires
        call_ensures(Relay::encode_replay, (relay,), saved),
        call_ensures(Relay::persist_replay, (relay,), counted),
        forall|i: int| 0 <= i < relay@.replay.len() ==> (#[trigger] relay@.replay[i]).0.len() == 16,
    ensures
        saved is Some <==> relay@.replay_path is Some,
        counted is Some <==> relay@.replay_path is Some,
        saved matches Some((buf, path)) ==> {
            &&& relay@.replay_path == Some(path@)
            &&& exists|now: int, at: u64|
                {
                    &&& is_now(now)
                    &&& is_unix_now(at)
                    &&& persist::parse_snapshot(buf@) == Ok::<_, persist::SnapshotError>(
                        #[trigger] snapshot(relay@.replay, now, at, relay@.replay_ttl),
                    )
                }
        },
        counted matches Some((buf, n, path)) ==> {
            &&& relay@.replay_path == Some(path@)
            &&& exists|now: int, at: u64|
                {
                    &&& is_now(now)
                    &&& is_unix_now(at)
                    &&& persist::parse_snapshot(buf@) == Ok::<_, persist::SnapshotError>(
                        #[trigger] snapshot(relay@.replay, now, at, relay@.replay_ttl),
                    )
                    &&& n == snapshot(relay@.replay, now, at, relay@.replay_ttl).len()
                }
        },
{
    if let Some((buf, path)) = saved {
        let (now, at) = choose|now: int, at: u64|
            {
                &&& is_now(now)
                &&& is_unix_now(at)
                &&& buf@ == persist::render_snapshot(
                    #[trigger] snapshot(relay@.replay, now, at, relay@.replay_ttl),
                )
            };
        let records = snapshot(relay@.replay, now, at, relay@.replay_ttl);
        lemma_snapshot_keys(relay@.replay, now, at, relay@.replay_ttl);
        persist::stored_snapshot_reads_back(records);
    }
    if let Some((buf, n, path)) = counted {
        let (now, at) = choose|now: int, at: u64|
            {
                let records = #[trigger] snapshot(relay@.replay, now, at, relay@.replay_ttl);
                &&& is_now(now)
                &&& is_unix_now(at)
                &&& buf@ == persist::render_snapshot(records)
                &&& n == records.len()
            };
        let records = snapshot(relay@.replay, now, at, relay@.replay_ttl);
        lemma_snapshot_keys(relay@.replay, now, at, relay@.replay_ttl);
        persist::stored_snapshot_reads_back(records);
    }
}

/// A relay that is told where to keep its cache keeps it there from then on,
/// changes nothing else about itself, and says what came of what was stored.
pub proof fn a_relay_keeps_its_cache_where_it_is_told(
    relay: Relay,
    path: String,
    stored: Option<&[u8]>,
    r: (Relay, Result<usize, persist::SnapshotError>),
)
    requires
        call_ensures(Relay::with_replay_persistence, (relay, path, stored), r),
    ensures
        r.0.wf(),
        r.0@.replay_path == Some(path@),
        r.0@.sk == relay@.sk,
        r.0@.replay_ttl == relay@.replay_ttl,
        r.0@.replay_capacity == relay@.replay_capacity,
        r.0@.mean_micros == relay@.mean_micros,
        r.0@.allowance == relay@.allowance,
        r.0@.accept_v2 == relay@.accept_v2,
        r.0@.v2_accepted == relay@.v2_accepted,
        stored is None ==> r.1 == Ok::<usize, persist::SnapshotError>(0) && r.0@.replay
            == relay@.replay,
        r.1 is Err ==> r.0@.replay == relay@.replay,
        stored matches Some(bytes) ==> (r.1 is Ok <==> persist::parse_snapshot(bytes@) is Ok),
        stored is Some && r.1 is Ok && distinct_keys(relay@.replay) && relay@.replay.len()
            <= relay@.replay_capacity ==> exists|
            now: Instant,
            at: u64,
            records: Seq<(Seq<u8>, u64)>,
        |
            {
                &&& instant_read(now)
                &&& is_unix_now(at)
                &&& persist::parse_snapshot(stored->0@) == Ok::<_, persist::SnapshotError>(records)
                &&& #[trigger] takes_over(
                    relay@.replay,
                    records,
                    now,
                    at,
                    relay@.replay_ttl,
                    relay@.replay_capacity,
                    r.0@.replay,
                )
                &&& r.0@.replay.len() == relay@.replay.len() + r.1->Ok_0
            },
{
    if stored is Some && r.1 is Ok && distinct_keys(relay@.replay) && relay@.replay.len()
        <= relay@.replay_capacity {
        let records = persist::parse_snapshot(stored->0@)->Ok_0;
        let was = relay@.replay;
        let ttl = relay@.replay_ttl;
        let room = relay@.replay_capacity;
        let (now, at, seen) = choose|now: Instant, at: u64, seen: Seq<(Seq<u8>, int)>|
            {
                &&& instant_read(now)
                &&& is_unix_now(at)
                &&& #[trigger] stamps(live_records(records, at, ttl), now, at, seen)
                &&& r.0@.replay == reloaded(was, seen, room)
                &&& r.1->Ok_0 == adopted(was, seen, room).len()
            };
        lemma_takes_over(was, records, now, at, ttl, room, seen);
        assert(takes_over(was, records, now, at, ttl, room, r.0@.replay));
    }
}

} // verus!
