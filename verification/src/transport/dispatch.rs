//! Which handler an inbound connection gets, and what becomes of each packet
//! that comes over it.

use crate::addr::{IpAddr, SocketAddrV4};
use crate::bytes::{bytes_eq, to_array32};
use crate::clock::{duration_nanos, is_now};
use crate::process::laws::{dropped_for, lemma_found, taken_on};
use crate::process::{found, outcome_of, relay_after, DropReason, Findings, OpenFailure,
    OpenedHeader, Outcome, ParsedHeader, ProcessOutcome, Relay};
use crate::rate_limit::laws::{charged_to_its_source, lemma_charged_to_its_source};
use crate::rate_limit::{source_checked, PerSourceLimiter, RateDecision};
use crate::transport::TransportError;
use std::time::Duration;
use vstd::prelude::*;

verus! {

/// Packet forwarding: `gotham/1`.
pub const MIXNET_ALPN: [u8; 8] = [0x67, 0x6f, 0x74, 0x68, 0x61, 0x6d, 0x2f, 0x31];

/// Store-and-forward mailboxes: `gotham-mbx/1`.
pub const MAILBOX_ALPN: [u8; 12] = [
    0x67, 0x6f, 0x74, 0x68, 0x61, 0x6d, 0x2d, 0x6d, 0x62, 0x78, 0x2f, 0x31,
];

/// Directory gossip: `gotham-dir/1`.
pub const GOSSIP_ALPN: [u8; 12] = [
    0x67, 0x6f, 0x74, 0x68, 0x61, 0x6d, 0x2d, 0x64, 0x69, 0x72, 0x2f, 0x31,
];

/// The tunnel that a relay without a reachable address holds open:
/// `gotham-rdv/1`.
pub const RENDEZVOUS_ALPN: [u8; 12] = [
    0x67, 0x6f, 0x74, 0x68, 0x61, 0x6d, 0x2d, 0x72, 0x64, 0x76, 0x2f, 0x31,
];

/// The authority's question whether such a tunnel is open: `gotham-rdvq/1`.
pub const RENDEZVOUS_QUERY_ALPN: [u8; 13] = [
    0x67, 0x6f, 0x74, 0x68, 0x61, 0x6d, 0x2d, 0x72, 0x64, 0x76, 0x71, 0x2f, 0x31,
];

/// How many connections are handled at once.
pub const MAX_INFLIGHT_CONNS: usize = 1024;

/// What one source may send, in millionths of a packet per second.
pub const PER_SOURCE_MAX_RATE: u64 = 200_000_000;

/// How many sources are told apart at once.
pub const PER_SOURCE_MAX_TRACKED: usize = 4096;

/// The protocols that a relay offers on a connection.
pub fn server_protocols() -> (protocols: Vec<Vec<u8>>)
    ensures
        protocols@.len() == 5,
        protocols@[0]@ == MIXNET_ALPN@,
        protocols@[1]@ == MAILBOX_ALPN@,
        protocols@[2]@ == GOSSIP_ALPN@,
        protocols@[3]@ == RENDEZVOUS_ALPN@,
        protocols@[4]@ == RENDEZVOUS_QUERY_ALPN@,
{
    let mut protocols: Vec<Vec<u8>> = Vec::new();
    protocols.push(vstd::slice::slice_to_vec(MIXNET_ALPN.as_slice()));
    protocols.push(vstd::slice::slice_to_vec(MAILBOX_ALPN.as_slice()));
    protocols.push(vstd::slice::slice_to_vec(GOSSIP_ALPN.as_slice()));
    protocols.push(vstd::slice::slice_to_vec(RENDEZVOUS_ALPN.as_slice()));
    protocols.push(vstd::slice::slice_to_vec(RENDEZVOUS_QUERY_ALPN.as_slice()));
    protocols
}

/// What to do with a connection.
#[derive(Debug, Copy, Clone, PartialEq, Eq, Structural)]
pub enum Handler {
    /// Process packets.
    Mixnet,
    /// Serve the mailbox.
    Mailbox,
    /// Gossip about the directory.
    Gossip,
    /// Hold a tunnel open.
    Tunnel,
    /// Answer whether a tunnel is open.
    TunnelQuery,
    /// Close: there is no mailbox here.
    CloseNoMailbox,
    /// Close: there is no gossip here.
    CloseNoGossip,
}

/// The handler for the protocol that was agreed on a connection. A protocol
/// that is not served is closed, and anything unknown is taken for packets.
pub open spec fn handler_for(alpn: Option<Seq<u8>>, mailbox: bool, gossip: bool) -> Handler {
    if alpn == Some(MAILBOX_ALPN@) {
        if mailbox {
            Handler::Mailbox
        } else {
            Handler::CloseNoMailbox
        }
    } else if alpn == Some(GOSSIP_ALPN@) {
        if gossip {
            Handler::Gossip
        } else {
            Handler::CloseNoGossip
        }
    } else if alpn == Some(RENDEZVOUS_ALPN@) {
        Handler::Tunnel
    } else if alpn == Some(RENDEZVOUS_QUERY_ALPN@) {
        Handler::TunnelQuery
    } else {
        Handler::Mixnet
    }
}

/// Chooses the handler of a connection: by the protocol that was agreed on it,
/// and by whether this relay hosts a mailbox and gossips.
pub fn choose_handler(alpn: Option<&[u8]>, mailbox: bool, gossip: bool) -> (handler: Handler)
    ensures
        handler == handler_for(
            match alpn {
                Some(name) => Some(name@),
                None => None,
            },
            mailbox,
            gossip,
        ),
{
    let name: &[u8] = match alpn {
        Some(name) => name,
        None => {
            return Handler::Mixnet;
        },
    };
    if bytes_eq(name, MAILBOX_ALPN.as_slice()) {
        if mailbox {
            Handler::Mailbox
        } else {
            Handler::CloseNoMailbox
        }
    } else if bytes_eq(name, GOSSIP_ALPN.as_slice()) {
        if gossip {
            Handler::Gossip
        } else {
            Handler::CloseNoGossip
        }
    } else if bytes_eq(name, RENDEZVOUS_ALPN.as_slice()) {
        Handler::Tunnel
    } else if bytes_eq(name, RENDEZVOUS_QUERY_ALPN.as_slice()) {
        Handler::TunnelQuery
    } else {
        Handler::Mixnet
    }
}

impl Handler {
    /// What a connection is told that is closed for want of a service.
    pub fn close_reason(&self) -> (reason: Option<&'static str>)
        ensures
            match *self {
                Handler::CloseNoMailbox => reason is Some && reason->0@ == "no mailbox here"@,
                Handler::CloseNoGossip => reason is Some && reason->0@ == "no gossip here"@,
                _ => reason is None,
            },
    {
        match self {
            Handler::CloseNoMailbox => Some("no mailbox here"),
            Handler::CloseNoGossip => Some("no gossip here"),
            _ => None,
        }
    }
}

/// A count of the connections that are being handled.
///
/// At the limit new connections are shed rather than queued, so that a burst
/// of slow handshakes cannot take up tasks and memory without bound.
pub struct ConnectionGate {
    in_flight: usize,
}

impl View for ConnectionGate {
    type V = nat;

    closed spec fn view(&self) -> nat {
        self.in_flight as nat
    }
}

impl ConnectionGate {
    /// No more are handled than the limit allows.
    pub open spec fn wf(self) -> bool {
        self@ <= MAX_INFLIGHT_CONNS
    }

    /// A gate with nothing in flight.
    pub fn new() -> (gate: ConnectionGate)
        ensures
            gate.wf(),
            gate@ == 0,
    {
        ConnectionGate { in_flight: 0 }
    }

    /// Takes one more connection, or sheds it at the limit.
    pub fn enter(&mut self) -> (admitted: bool)
        requires
            old(self).wf(),
        ensures
            final(self).wf(),
            admitted <==> old(self)@ < MAX_INFLIGHT_CONNS,
            final(self)@ == old(self)@ + if admitted {
                1nat
            } else {
                0nat
            },
    {
        if self.in_flight >= MAX_INFLIGHT_CONNS {
            return false;
        }
        self.in_flight = self.in_flight + 1;
        true
    }

    /// Gives up the place of a connection that has ended.
    pub fn leave(&mut self)
        requires
            old(self).wf(),
            old(self)@ > 0,
        ensures
            final(self).wf(),
            final(self)@ == old(self)@ - 1,
    {
        self.in_flight = self.in_flight - 1;
    }
}

/// What to do about one packet that came in.
pub enum PacketAction {
    /// Nothing: its source has sent too much.
    Shed,
    /// Nothing: the packet was dropped.
    Drop(DropReason),
    /// Hand the payload to the local handler after a delay.
    Deliver {
        /// How long to wait.
        delay: Duration,
        /// The payload.
        payload: Vec<u8>,
    },
    /// Nothing: there is no local handler.
    Discard,
    /// Push the packet down the tunnel of the next hop after a delay. Where
    /// that tunnel is gone the packet is dropped: such a hop is never dialed.
    Push {
        /// How long to wait.
        delay: Duration,
        /// Identity of the next hop.
        next_node_id: [u8; 32],
        /// The packet.
        packet: Vec<u8>,
    },
    /// Send the packet to the next hop after a delay.
    Dial {
        /// How long to wait.
        delay: Duration,
        /// Where the next hop listens.
        next_addr: SocketAddrV4,
        /// Identity of the next hop.
        next_node_id: [u8; 32],
        /// The packet.
        packet: Vec<u8>,
    },
}

/// Whether `action` is what an outcome calls for at a relay with or without a
/// local handler.
pub open spec fn acts_on(outcome: Outcome, has_handler: bool, action: PacketAction) -> bool {
    match outcome {
        Outcome::Drop(why) => action == PacketAction::Drop(why),
        Outcome::DeliverLocal { delay, payload } => if has_handler {
            &&& action matches PacketAction::Deliver { delay: d, payload: p }
            &&& crate::clock::duration_nanos(d) == delay
            &&& p@ == payload
        } else {
            action is Discard
        },
        Outcome::Forward { next_addr, next_node_id, delay, via_rendezvous, packet } =>
            if via_rendezvous {
            &&& action matches PacketAction::Push { delay: d, next_node_id: id, packet: p }
            &&& crate::clock::duration_nanos(d) == delay
            &&& id@ == next_node_id
            &&& p@ == packet
        } else {
            &&& action matches PacketAction::Dial {
                delay: d,
                next_addr: addr,
                next_node_id: id,
                packet: p,
            }
            &&& crate::clock::duration_nanos(d) == delay
            &&& addr == next_addr
            &&& id@ == next_node_id
            &&& p@ == packet
        },
    }
}

/// What to do about the outcome of a packet.
pub fn act_on(outcome: ProcessOutcome, has_handler: bool) -> (action: PacketAction)
    ensures
        acts_on(outcome@, has_handler, action),
{
    match outcome {
        ProcessOutcome::Drop(why) => PacketAction::Drop(why),
        ProcessOutcome::DeliverLocal { delay, payload } => {
            if has_handler {
                PacketAction::Deliver { delay, payload }
            } else {
                PacketAction::Discard
            }
        },
        ProcessOutcome::Forward { next_addr, next_node_id, delay, via_rendezvous, packet } => {
            if via_rendezvous {
                PacketAction::Push { delay, next_node_id, packet }
            } else {
                PacketAction::Dial { delay, next_addr, next_node_id, packet }
            }
        },
    }
}

/// The limiter of what each source sends, with nobody tracked. It has no daily
/// quota: that of the node covers it.
pub fn per_source_limiter() -> (limiter: PerSourceLimiter)
    ensures
        limiter.wf(),
        limiter@ == Map::<IpAddr, (crate::rate_limit::Allowance, int)>::empty(),
        limiter.source_rate() == PER_SOURCE_MAX_RATE,
        limiter.source_budget() == 0,
        limiter.capacity() == PER_SOURCE_MAX_TRACKED,
{
    PerSourceLimiter::new(PER_SOURCE_MAX_RATE, 0, PER_SOURCE_MAX_TRACKED)
}

/// Takes one packet that came over a link from `src`: sheds it where its
/// source has sent too much, before it touches what all sources share, and
/// processes it otherwise.
pub fn receive_packet<H, K, P, U, S, L>(
    limiter: &mut PerSourceLimiter,
    relay: &mut Relay,
    src: IpAddr,
    packet: &[u8],
    has_handler: bool,
    parse: P,
    open: U,
    sample: S,
    peel: L,
) -> (action: PacketAction) where
    P: FnOnce([u8; 384]) -> Option<ParsedHeader<H>>,
    U: FnOnce(H, [u8; 32]) -> Result<OpenedHeader<K>, OpenFailure>,
    S: FnOnce() -> Duration,
    L: FnOnce(K, Vec<u8>) -> Vec<u8>,

    requires
        old(limiter).wf(),
        old(relay).wf(),
        forall|header: [u8; 384]| #[trigger] call_requires(parse, (header,)),
        forall|header: H, shared: [u8; 32]| #[trigger] call_requires(open, (header, shared)),
        call_requires(sample, ()),
        forall|key: K, region: Vec<u8>| #[trigger] call_requires(peel, (key, region)),
    ensures
        final(limiter).wf(),
        final(limiter).source_rate() == old(limiter).source_rate(),
        final(limiter).source_budget() == old(limiter).source_budget(),
        final(limiter).capacity() == old(limiter).capacity(),
        final(relay).wf(),
        exists|now: int, decision: RateDecision|
            {
                &&& is_now(now)
                &&& #[trigger] source_checked(
                    old(limiter)@,
                    src,
                    now,
                    old(limiter).source_rate(),
                    old(limiter).source_budget(),
                    old(limiter).capacity(),
                    decision,
                    final(limiter)@,
                )
                &&& if decision == RateDecision::Allow {
                    exists|f: Findings<H, K>|
                        {
                            &&& #[trigger] found(
                                old(relay)@,
                                packet@,
                                f,
                                parse,
                                open,
                                sample,
                                peel,
                            )
                            &&& acts_on(
                                outcome_of(old(relay)@, packet@.len(), f),
                                has_handler,
                                action,
                            )
                            &&& final(relay)@ == relay_after(old(relay)@, packet@.len(), f)
                        }
                } else {
                    action is Shed && final(relay)@ == old(relay)@
                }
            },
{
    let decision: RateDecision = limiter.check(src, packet.len());
    proof {
        let now = choose|now: int|
            is_now(now) && #[trigger] source_checked(
                old(limiter)@,
                src,
                now,
                old(limiter).source_rate(),
                old(limiter).source_budget(),
                old(limiter).capacity(),
                decision,
                limiter@,
            );
        assert(source_checked(
            old(limiter)@,
            src,
            now,
            old(limiter).source_rate(),
            old(limiter).source_budget(),
            old(limiter).capacity(),
            decision,
            limiter@,
        ));
    }
    if !decision.is_allowed() {
        return PacketAction::Shed;
    }
    let outcome: ProcessOutcome = relay.process(packet, parse, open, sample, peel);
    act_on(outcome, has_handler)
}

/// Lets a question about tunnels through only where it comes from the
/// authority: its key must be the one that is pinned. Without a pinned key
/// nobody is answered, so that nobody else learns which relays are up.
pub fn check_querier(authority: Option<[u8; 32]>, querier: &[u8; 32]) -> (r: Result<
    (),
    TransportError,
>)
    ensures
        r is Ok <==> authority is Some && authority->0@ == querier@,
        r matches Err(e) ==> e is BadHandshake,
{
    match authority {
        Some(expected) => {
            if bytes_eq(querier.as_slice(), expected.as_slice()) {
                Ok(())
            } else {
                Err(TransportError::BadHandshake)
            }
        },
        None => Err(TransportError::BadHandshake),
    }
}

/// The identity that a question about tunnels asks after.
pub fn queried_identity(question: &[u8]) -> (r: Result<[u8; 32], TransportError>)
    ensures
        r is Ok <==> question@.len() == 32,
        r matches Ok(id) ==> id@ == question@,
        r matches Err(e) ==> e is BadHandshake,
{
    if question.len() != 32 {
        return Err(TransportError::BadHandshake);
    }
    Ok(to_array32(question))
}

/// The answer to a question about tunnels: a single byte.
pub fn hosting_answer(hosted: bool) -> (byte: u8)
    ensures
        byte == if hosted {
            1u8
        } else {
            0u8
        },
{
    if hosted {
        1
    } else {
        0
    }
}

/// Whether an answer says that the tunnel is open.
pub fn answer_says_hosted(answer: &[u8]) -> (hosted: bool)
    ensures
        hosted == (answer@.len() >= 1 && answer@[0] == 1),
{
    answer.len() >= 1 && answer[0] == 1
}

/// The names of the protocols, letter by letter.
proof fn lemma_protocol_names()
    ensures
        MIXNET_ALPN@ == seq![103u8, 111u8, 116u8, 104u8, 97u8, 109u8, 47u8, 49u8],
        MAILBOX_ALPN@ == seq![
            103u8, 111u8, 116u8, 104u8, 97u8, 109u8, 45u8, 109u8, 98u8, 120u8, 47u8, 49u8,
        ],
        GOSSIP_ALPN@ == seq![
            103u8, 111u8, 116u8, 104u8, 97u8, 109u8, 45u8, 100u8, 105u8, 114u8, 47u8, 49u8,
        ],
        RENDEZVOUS_ALPN@ == seq![
            103u8, 111u8, 116u8, 104u8, 97u8, 109u8, 45u8, 114u8, 100u8, 118u8, 47u8, 49u8,
        ],
        RENDEZVOUS_QUERY_ALPN@ == seq![
            103u8, 111u8, 116u8, 104u8, 97u8, 109u8, 45u8, 114u8, 100u8, 118u8, 113u8, 47u8, 49u8,
        ],
        MAILBOX_ALPN@ != GOSSIP_ALPN@,
        MAILBOX_ALPN@ != RENDEZVOUS_ALPN@,
        MAILBOX_ALPN@ != RENDEZVOUS_QUERY_ALPN@,
        MAILBOX_ALPN@ != MIXNET_ALPN@,
        GOSSIP_ALPN@ != RENDEZVOUS_ALPN@,
        GOSSIP_ALPN@ != RENDEZVOUS_QUERY_ALPN@,
        GOSSIP_ALPN@ != MIXNET_ALPN@,
        RENDEZVOUS_ALPN@ != RENDEZVOUS_QUERY_ALPN@,
        RENDEZVOUS_ALPN@ != MIXNET_ALPN@,
        RENDEZVOUS_QUERY_ALPN@ != MIXNET_ALPN@,
{
    let mixnet = seq![103u8, 111u8, 116u8, 104u8, 97u8, 109u8, 47u8, 49u8];
    let mailbox = seq![
        103u8, 111u8, 116u8, 104u8, 97u8, 109u8, 45u8, 109u8, 98u8, 120u8, 47u8, 49u8,
    ];
    let gossip = seq![
        103u8, 111u8, 116u8, 104u8, 97u8, 109u8, 45u8, 100u8, 105u8, 114u8, 47u8, 49u8,
    ];
    let tunnel = seq![
        103u8, 111u8, 116u8, 104u8, 97u8, 109u8, 45u8, 114u8, 100u8, 118u8, 47u8, 49u8,
    ];
    let query = seq![
        103u8, 111u8, 116u8, 104u8, 97u8, 109u8, 45u8, 114u8, 100u8, 118u8, 113u8, 47u8, 49u8,
    ];
    assert(MIXNET_ALPN@ =~= mixnet);
    assert(MAILBOX_ALPN@ =~= mailbox);
    assert(GOSSIP_ALPN@ =~= gossip);
    assert(RENDEZVOUS_ALPN@ =~= tunnel);
    assert(RENDEZVOUS_QUERY_ALPN@ =~= query);
    assert(mailbox[7] == 109 && gossip[7] == 100 && tunnel[7] == 114);
    assert(mixnet.len() == 8 && mailbox.len() == 12 && gossip.len() == 12 && tunnel.len() == 12
        && query.len() == 13);
}

/// A connection gets the handler of the protocol that was agreed on it: the
/// mailbox, gossip, a tunnel or a question about tunnels by their names, and
/// packets for every other name and for none. A mailbox and gossip are closed at
/// a relay without them, and told so; nothing else is closed.
pub proof fn a_connection_gets_its_handler(
    alpn: Option<&[u8]>,
    mailbox: bool,
    gossip: bool,
    handler: Handler,
    reason: Option<&'static str>,
)
    requires
        call_ensures(choose_handler, (alpn, mailbox, gossip), handler),
        call_ensures(Handler::close_reason, (&handler,), reason),
    ensures
        alpn is None ==> handler == Handler::Mixnet,
        alpn matches Some(name) ==> {
            let is_mailbox = name@ == seq![
                103u8, 111u8, 116u8, 104u8, 97u8, 109u8, 45u8, 109u8, 98u8, 120u8, 47u8, 49u8,
            ];
            let is_gossip = name@ == seq![
                103u8, 111u8, 116u8, 104u8, 97u8, 109u8, 45u8, 100u8, 105u8, 114u8, 47u8, 49u8,
            ];
            let is_tunnel = name@ == seq![
                103u8, 111u8, 116u8, 104u8, 97u8, 109u8, 45u8, 114u8, 100u8, 118u8, 47u8, 49u8,
            ];
            let is_query = name@ == seq![
                103u8, 111u8, 116u8, 104u8, 97u8, 109u8, 45u8, 114u8, 100u8, 118u8, 113u8, 47u8,
                49u8,
            ];
            &&& handler == Handler::Mailbox <==> is_mailbox && mailbox
            &&& handler == Handler::CloseNoMailbox <==> is_mailbox && !mailbox
            &&& handler == Handler::Gossip <==> is_gossip && gossip
            &&& handler == Handler::CloseNoGossip <==> is_gossip && !gossip
            &&& handler == Handler::Tunnel <==> is_tunnel
            &&& handler == Handler::TunnelQuery <==> is_query
            &&& handler == Handler::Mixnet <==> !is_mailbox && !is_gossip && !is_tunnel && !is_query
        },
        reason is Some <==> handler == Handler::CloseNoMailbox || handler == Handler::CloseNoGossip,
        handler == Handler::CloseNoMailbox ==> reason->0@ == "no mailbox here"@,
        handler == Handler::CloseNoGossip ==> reason->0@ == "no gossip here"@,
{
    lemma_protocol_names();
}

/// Every protocol that has a handler is offered, and the handler of packets is
/// chosen for the one that comes first.
pub proof fn every_protocol_is_offered(
    protocols: Vec<Vec<u8>>,
    name: &[u8],
    handler: Handler,
)
    requires
        call_ensures(server_protocols, (), protocols),
        call_ensures(choose_handler, (Some(name), true, true), handler),
    ensures
        protocols@.len() == 5,
        name@ == protocols@[0]@ ==> handler == Handler::Mixnet,
        name@ == protocols@[1]@ ==> handler == Handler::Mailbox,
        name@ == protocols@[2]@ ==> handler == Handler::Gossip,
        name@ == protocols@[3]@ ==> handler == Handler::Tunnel,
        name@ == protocols@[4]@ ==> handler == Handler::TunnelQuery,
        protocols@[0]@ == seq![103u8, 111u8, 116u8, 104u8, 97u8, 109u8, 47u8, 49u8],
{
    lemma_protocol_names();
}

/// A thousand and twenty-four connections are handled at once, and not one more.
/// One that is let in takes a place, and gives it up when it leaves.
pub proof fn places_are_taken_and_given_up(
    fresh: ConnectionGate,
    gate: &mut ConnectionGate,
    admitted: bool,
    after: &mut ConnectionGate,
)
    requires
        call_ensures(ConnectionGate::new, (), fresh),
        call_ensures(ConnectionGate::enter, (gate,), admitted),
        call_ensures(ConnectionGate::leave, (after,), ()),
        old(after)@ > 0,
    ensures
        fresh@ == 0,
        admitted <==> old(gate)@ < 1024,
        admitted ==> final(gate)@ == old(gate)@ + 1,
        !admitted ==> final(gate)@ == old(gate)@,
        final(after)@ == old(after)@ - 1,
{
}

/// An outcome is acted on as it says: what is to be delivered is handed to the
/// local handler, where there is one, and what is to be forwarded is pushed down
/// its tunnel or sent to its address, whole, to the hop that it is for, and after
/// its hold.
pub proof fn an_outcome_is_acted_on(
    outcome: ProcessOutcome,
    has_handler: bool,
    action: PacketAction,
)
    requires
        call_ensures(act_on, (outcome, has_handler), action),
    ensures
        done_about(outcome@, has_handler, action),
{
}

/// Whether an action does what an outcome asks for.
pub open spec fn done_about(outcome: Outcome, has_handler: bool, action: PacketAction) -> bool {
    &&& !(action is Shed)
    &&& action is Drop <==> outcome is Drop
    &&& outcome is Drop ==> action->Drop_0 == outcome->Drop_0
    &&& action is Deliver <==> outcome is DeliverLocal && has_handler
    &&& action is Discard <==> outcome is DeliverLocal && !has_handler
    &&& action is Deliver ==> duration_nanos(action->Deliver_delay) == outcome->DeliverLocal_delay
        && action->payload@ == outcome->payload
    &&& action is Push <==> outcome is Forward && outcome->via_rendezvous
    &&& action is Push ==> {
        &&& duration_nanos(action->Push_delay) == outcome->Forward_delay
        &&& action->Push_next_node_id@ == outcome->next_node_id
        &&& action->Push_packet@ == outcome->packet
    }
    &&& action is Dial <==> outcome is Forward && !outcome->via_rendezvous
    &&& action is Dial ==> {
        &&& duration_nanos(action->Dial_delay) == outcome->Forward_delay
        &&& action->next_addr == outcome->next_addr
        &&& action->Dial_next_node_id@ == outcome->next_node_id
        &&& action->Dial_packet@ == outcome->packet
    }
}

/// Each source may send two hundred packets per second, without a quota of its
/// own, and 4096 sources are told apart.
pub proof fn sources_have_the_same_limit(limiter: PerSourceLimiter)
    requires
        call_ensures(per_source_limiter, (), limiter),
    ensures
        limiter.wf(),
        forall|src: IpAddr| !limiter@.contains_key(src),
        limiter.source_rate() == 200_000_000,
        limiter.source_budget() == 0,
        limiter.capacity() == 4096,
{
}

/// A packet that comes in is shed for its source, and then touches nothing that
/// all sources share, or it is processed, and acted on as its outcome says. It
/// is shed exactly where its source has used up what it may send, and charged to
/// its source alone.
pub proof fn a_packet_is_shed_or_processed<H, K, P, U, S, L>(
    limiter: &mut PerSourceLimiter,
    relay: &mut Relay,
    src: IpAddr,
    packet: &[u8],
    has_handler: bool,
    parse: P,
    open: U,
    sample: S,
    peel: L,
    action: PacketAction,
) where
    P: FnOnce([u8; 384]) -> Option<ParsedHeader<H>>,
    U: FnOnce(H, [u8; 32]) -> Result<OpenedHeader<K>, OpenFailure>,
    S: FnOnce() -> Duration,
    L: FnOnce(K, Vec<u8>) -> Vec<u8>,

    requires
        old(limiter).wf(),
        call_ensures(
            receive_packet::<H, K, P, U, S, L>,
            (limiter, relay, src, packet, has_handler, parse, open, sample, peel),
            action,
        ),
    ensures
        action is Shed ==> final(relay)@ == old(relay)@,
        exists|now: int, decision: RateDecision|
            {
                &&& is_now(now)
                &&& #[trigger] charged_to_its_source(
                    old(limiter)@,
                    final(limiter)@,
                    src,
                    now,
                    old(limiter).source_rate(),
                    old(limiter).source_budget(),
                    old(limiter).capacity(),
                    decision,
                )
                &&& action is Shed <==> decision != RateDecision::Allow
            },
        final(limiter).source_rate() == old(limiter).source_rate(),
        final(limiter).source_budget() == old(limiter).source_budget(),
        final(limiter).capacity() == old(limiter).capacity(),
        !(action is Shed) ==> exists|outcome: Outcome|
            {
                &&& #[trigger] done_about(outcome, has_handler, action)
                &&& match outcome {
                    Outcome::Drop(why) => dropped_for(old(relay)@, packet@, why, parse, open),
                    _ => exists|
                        header: [u8; 384],
                        parsed: ParsedHeader<H>,
                        shared: [u8; 32],
                        opened: OpenedHeader<K>,
                        region: Vec<u8>,
                        peeled: Vec<u8>,
                    |
                        #[trigger] taken_on(
                            old(relay)@.sk,
                            old(relay)@.mean_micros,
                            packet@,
                            header,
                            parsed,
                            shared,
                            opened,
                            region,
                            peeled,
                            parse,
                            open,
                            sample,
                            peel,
                            outcome,
                        ),
                }
            },
{
    let before = old(limiter)@;
    let after = final(limiter)@;
    let rate = old(limiter).source_rate();
    let budget = old(limiter).source_budget();
    let room = old(limiter).capacity();
    let (now, decision) = choose|now: int, decision: RateDecision|
        {
            &&& is_now(now)
            &&& #[trigger] source_checked(before, src, now, rate, budget, room, decision, after)
            &&& if decision == RateDecision::Allow {
                exists|f: Findings<H, K>|
                    {
                        &&& #[trigger] found(old(relay)@, packet@, f, parse, open, sample, peel)
                        &&& acts_on(
                            outcome_of(old(relay)@, packet@.len(), f),
                            has_handler,
                            action,
                        )
                        &&& final(relay)@ == relay_after(old(relay)@, packet@.len(), f)
                    }
            } else {
                action is Shed && final(relay)@ == old(relay)@
            }
        };
    assert(source_checked(before, src, now, rate, budget, room, decision, after));
    assert(is_now(now));
    lemma_charged_to_its_source(before, src, now, rate, budget, room, decision, after);
    if decision == RateDecision::Allow {
        let f = choose|f: Findings<H, K>|
            {
                &&& #[trigger] found(old(relay)@, packet@, f, parse, open, sample, peel)
                &&& acts_on(outcome_of(old(relay)@, packet@.len(), f), has_handler, action)
                &&& final(relay)@ == relay_after(old(relay)@, packet@.len(), f)
            };
        let parts = lemma_found(old(relay)@, packet@, f, parse, open, sample, peel);
        let outcome = outcome_of(old(relay)@, packet@.len(), f);
        assert(done_about(outcome, has_handler, action));
    }
}

/// A question about tunnels is answered to the authority that is pinned, and to
/// nobody else.
pub proof fn only_the_authority_is_answered(
    authority: Option<[u8; 32]>,
    querier: &[u8; 32],
    r: Result<(), TransportError>,
)
    requires
        call_ensures(check_querier, (authority, querier), r),
    ensures
        r is Ok <==> authority is Some && authority->0@ == querier@,
        r is Err ==> r->Err_0 is BadHandshake,
{
}

/// A question names one identity of thirty-two bytes, and its answer says of it
/// what is the case.
pub proof fn a_question_is_answered_truly(
    question: &[u8],
    asked: Result<[u8; 32], TransportError>,
    hosted: bool,
    byte: u8,
    answer: &[u8],
    said: bool,
)
    requires
        call_ensures(queried_identity, (question,), asked),
        call_ensures(hosting_answer, (hosted,), byte),
        call_ensures(answer_says_hosted, (answer,), said),
    ensures
        asked is Ok <==> question@.len() == 32,
        asked is Ok ==> asked->Ok_0@ == question@,
        asked is Err ==> asked->Err_0 is BadHandshake,
        answer@ == seq![byte] ==> said == hosted,
        answer@.len() == 0 ==> !said,
        said ==> answer@[0] == 1,
        hosted ==> byte == 1,
        !hosted ==> byte == 0,
{
}

} // verus!
