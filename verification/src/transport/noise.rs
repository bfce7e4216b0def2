//! The Noise protocol on a link: handshakes and encrypted messages.

use crate::bytes::to_array32;
use crate::keys::x25519_public;
use crate::transport::framing::{handshake_wire, write_handshake_msg};
use crate::transport::{TransportError, MAX_HANDSHAKE_MSG};
use snow::{HandshakeState, TransportState};
use vstd::prelude::*;

verus! {

/// Noise XK, of a mixnet or control link: the responder is authenticated.
pub const NOISE_PARAMS: &'static str = "Noise_XK_25519_ChaChaPoly_BLAKE2s";

/// Noise IK, of a rendezvous tunnel: the initiator is authenticated too, and
/// the handshake proves that it holds its key.
pub const NOISE_IK_PARAMS: &'static str = "Noise_IK_25519_ChaChaPoly_BLAKE2s";

/// The authentication tag of one message.
pub const NOISE_TAG_LEN: usize = 16;

/// The longest Noise message, tag included.
pub const NOISE_MAX_MSG: usize = 65535;

#[verifier::external_type_specification]
#[verifier::external_body]
pub struct ExHandshakeState(HandshakeState);

#[verifier::external_type_specification]
#[verifier::external_body]
pub struct ExTransportState(TransportState);

#[verifier::external_type_specification]
#[verifier::external_body]
pub struct ExSnowError(snow::Error);

/// What a handshake in progress holds.
pub ghost struct Handshake {
    /// The protocol's name.
    pub params: Seq<char>,
    /// Whether this side began.
    pub initiator: bool,
    /// How many messages have passed.
    pub position: nat,
    /// This side's static secret key.
    pub local: Seq<u8>,
    /// The other side's static public key, once known.
    pub remote: Option<Seq<u8>>,
    /// The responder's static public key, which both sides know beforehand.
    pub responder: Seq<u8>,
    /// The messages that have passed.
    pub transcript: Seq<Seq<u8>>,
    /// Stands for what both sides have in common of what passed: the public
    /// keys that were sent, the chaining key and the state of the cipher. Zero
    /// in a fresh handshake.
    pub session: int,
    /// Stands for everything else, such as this side's ephemeral key.
    pub secrets: int,
}

/// What an encrypted link holds.
pub ghost struct Link {
    /// Whether both sides may send.
    pub two_way: bool,
    /// Stands for the key of what is sent.
    pub out_key: int,
    /// How many messages were sent.
    pub sent: nat,
    /// Stands for the key of what is received.
    pub in_key: int,
    /// How many messages were received.
    pub received: nat,
}

/// What a `HandshakeState` holds.
pub uninterp spec fn handshake(h: HandshakeState) -> Handshake;

/// What a `TransportState` holds.
pub uninterp spec fn link(t: TransportState) -> Link;

/// The message that takes a handshake from one state to the next. The state
/// after it holds the fresh ephemeral key that the message carries.
pub uninterp spec fn handshake_message(before: Handshake, after: Handshake) -> Seq<u8>;

/// The state that a handshake comes to by reading a message; `None` where the
/// message is not accepted.
pub uninterp spec fn handshake_read(h: Handshake, message: Seq<u8>) -> Option<Handshake>;

/// The hash over the messages of a handshake with a responder.
pub uninterp spec fn noise_hash(
    params: Seq<char>,
    responder: Seq<u8>,
    transcript: Seq<Seq<u8>>,
) -> Seq<u8>;

/// Stands for the key of what the initiator sends, or the responder, after a
/// handshake that left the two with `session` in common.
pub uninterp spec fn link_key(session: int, from_initiator: bool) -> int;

/// The message that a key makes of a plaintext, as its `count`-th.
pub uninterp spec fn noise_seal(key: int, count: nat, plain: Seq<u8>) -> Seq<u8>;

/// The plaintext that a key finds in a message, as its `count`-th; `None`
/// where the tag does not verify.
pub uninterp spec fn noise_open(key: int, count: nat, message: Seq<u8>) -> Option<Seq<u8>>;

/// How many messages a handshake takes: three for XK, two for IK.
pub open spec fn handshake_messages(params: Seq<char>) -> nat {
    if params == NOISE_IK_PARAMS@ {
        2
    } else {
        3
    }
}

/// Whether it is this side's turn to write: the two sides alternate and the
/// initiator begins.
pub open spec fn turn_to_write(h: Handshake) -> bool {
    h.position < handshake_messages(h.params) && h.initiator == (h.position % 2 == 0)
}

/// Whether it is this side's turn to read.
pub open spec fn turn_to_read(h: Handshake) -> bool {
    h.position < handshake_messages(h.params) && h.initiator != (h.position % 2 == 0)
}

/// Whether the message at this position carries the initiator's static key:
/// the first of IK, the third of XK.
pub open spec fn carries_static(h: Handshake) -> bool {
    h.position == if h.params == NOISE_IK_PARAMS@ {
        0nat
    } else {
        2nat
    }
}

/// Whether two states are the two ends of one handshake, at the same place.
pub open spec fn paired(a: Handshake, b: Handshake) -> bool {
    &&& a.params == b.params
    &&& a.initiator != b.initiator
    &&& a.position == b.position
    &&& a.responder == b.responder
    &&& a.transcript == b.transcript
    &&& a.session == b.session
}

/// Whether a handshake went on as the same one: its protocol, its role and its
/// keys are what they were.
pub open spec fn same_handshake(before: Handshake, after: Handshake) -> bool {
    &&& after.params == before.params
    &&& after.initiator == before.initiator
    &&& after.local == before.local
    &&& after.responder == before.responder
}

/// Whether one message took a handshake one place further.
pub open spec fn passed(before: Handshake, after: Handshake, message: Seq<u8>) -> bool {
    &&& same_handshake(before, after)
    &&& after.position == before.position + 1
    &&& after.transcript == before.transcript.push(message)
}

/// Whether the other end, at `peer`, accepts `message`, which took this end
/// from `before` to `after`: the two are then at the same place again, and the
/// responder has learnt the initiator's static key where the message carries
/// it.
pub open spec fn accepted_by(
    peer: Handshake,
    before: Handshake,
    after: Handshake,
    message: Seq<u8>,
) -> bool {
    &&& handshake_read(peer, message) is Some
    &&& paired(after, handshake_read(peer, message)->0)
    &&& carries_static(before) ==> handshake_read(peer, message)->0.remote == Some(
        x25519_public(before.local),
    )
}

/// Whether the name is one of the two protocols in use.
pub open spec fn known_params(params: Seq<char>) -> bool {
    params == NOISE_PARAMS@ || params == NOISE_IK_PARAMS@
}

/// `snow::Builder::build_responder`, for a protocol, with a static key: a
/// handshake with that key in which no message has passed and nothing is known
/// of the other side. It fails for want of a key or of an algorithm, and the
/// two protocols in use lack neither. Snow derives the public key from the
/// static key as X25519 does.
#[verifier::external_body]
fn begin_responder(params: &str, sk: &[u8; 32]) -> (r: Result<HandshakeState, snow::Error>)
    requires
        known_params(params@),
    ensures
        r is Ok,
        r matches Ok(h) ==> handshake(h).params == params@ && !handshake(h).initiator
            && handshake(h).position == 0 && handshake(h).local == sk@ && handshake(h).remote is None
            && handshake(h).responder == x25519_public(sk@) && handshake(h).transcript
            == Seq::<Seq<u8>>::empty() && handshake(h).session == 0,
{
    snow::Builder::new(params.parse()?).local_private_key(sk).build_responder()
}

/// `snow::Builder::build_initiator`, for a protocol, with a static key and the
/// other side's static public key: a handshake in which no message has passed.
/// It does not fail for the two protocols in use.
#[verifier::external_body]
fn begin_initiator(params: &str, sk: &[u8; 32], remote: &[u8; 32]) -> (r: Result<
    HandshakeState,
    snow::Error,
>)
    requires
        known_params(params@),
    ensures
        r is Ok,
        r matches Ok(h) ==> handshake(h).params == params@ && handshake(h).initiator
            && handshake(h).position == 0 && handshake(h).local == sk@ && handshake(h).remote
            == Some(remote@) && handshake(h).responder == remote@ && handshake(h).transcript
            == Seq::<Seq<u8>>::empty() && handshake(h).session == 0,
{
    snow::Builder::new(params.parse()?)
        .local_private_key(sk)
        .remote_public_key(remote)
        .build_initiator()
}

/// `snow::HandshakeState::write_message` with no payload: succeeds exactly on
/// this side's turn, and then one more message has passed; off its turn it
/// changes nothing. The message carries a fresh ephemeral key, so which state
/// comes after is left open, but the message is the one that leads to it. It
/// is shorter than the buffer that it is written to. The other end of the same
/// handshake accepts it: both compute the same shared secrets, as X25519 gives
/// the two owners of a pair of keys the same.
#[verifier::external_body]
fn write_step(h: &mut HandshakeState) -> (r: Result<Vec<u8>, snow::Error>)
    requires
        known_params(handshake(*old(h)).params),
    ensures
        r is Ok <==> turn_to_write(handshake(*old(h))),
        r matches Ok(message) ==> message@.len() <= MAX_HANDSHAKE_MSG && message@
            == handshake_message(handshake(*old(h)), handshake(*final(h))),
        r matches Ok(message) ==> passed(handshake(*old(h)), handshake(*final(h)), message@)
            && handshake(*final(h)).remote == handshake(*old(h)).remote,
        r matches Ok(message) ==> forall|peer: HandshakeState|
            paired(handshake(*old(h)), #[trigger] handshake(peer)) ==> accepted_by(
                handshake(peer),
                handshake(*old(h)),
                handshake(*final(h)),
                message@,
            ),
        r is Err ==> handshake(*final(h)) == handshake(*old(h)),
{
    let mut message = vec![0u8; MAX_HANDSHAKE_MSG];
    let n = h.write_message(&[], &mut message)?;
    message.truncate(n);
    Ok(message)
}

/// `snow::HandshakeState::read_message`, ignoring the payload: whether a
/// message is accepted, and the state after it, depend on the state before and
/// on the message alone. Off this side's turn it fails and changes nothing, and
/// where it succeeds one more message has passed. The responder knows the
/// initiator's static key, of thirty-two bytes, once it accepted the message
/// that carries it.
#[verifier::external_body]
fn read_step(h: &mut HandshakeState, message: &[u8]) -> (r: Result<(), snow::Error>)
    requires
        known_params(handshake(*old(h)).params),
    ensures
        r is Ok <==> handshake_read(handshake(*old(h)), message@) is Some,
        r is Ok ==> turn_to_read(handshake(*old(h))),
        r is Ok ==> handshake_read(handshake(*old(h)), message@) == Some(handshake(*final(h))),
        r is Ok ==> passed(handshake(*old(h)), handshake(*final(h)), message@),
        r is Ok && carries_static(handshake(*old(h))) ==> handshake(*final(h)).remote is Some
            && handshake(*final(h)).remote->0.len() == 32,
        r is Ok && !carries_static(handshake(*old(h))) ==> handshake(*final(h)).remote
            == handshake(*old(h)).remote,
        r is Err ==> same_handshake(handshake(*old(h)), handshake(*final(h))) && handshake(
            *final(h),
        ).position == handshake(*old(h)).position && handshake(*final(h)).transcript
            == handshake(*old(h)).transcript,
        !turn_to_read(handshake(*old(h))) ==> handshake(*final(h)) == handshake(*old(h)),
{
    let mut payload = vec![0u8; MAX_HANDSHAKE_MSG];
    h.read_message(message, &mut payload).map(|_| ())
}

/// `snow::HandshakeState::get_remote_static`: the other side's static key, if
/// known.
#[verifier::external_body]
fn remote_static(h: &HandshakeState) -> (r: Option<Vec<u8>>)
    ensures
        match r {
            Some(key) => handshake(*h).remote == Some(key@),
            None => handshake(*h).remote is None,
        },
{
    h.get_remote_static().map(|key| key.to_vec())
}

/// `snow::HandshakeState::get_handshake_hash`: the hash over what has passed.
/// Beside the messages only the protocol's name and the responder's public key
/// go into it, and the two sides put them in alike.
#[verifier::external_body]
fn handshake_hash(h: &HandshakeState) -> (r: Vec<u8>)
    requires
        known_params(handshake(*h).params),
    ensures
        r@ == noise_hash(
            handshake(*h).params,
            handshake(*h).responder,
            handshake(*h).transcript,
        ),
{
    h.get_handshake_hash().to_vec()
}

/// `snow::HandshakeState::into_transport_mode`: succeeds exactly where every
/// message has passed, and gives a link that has carried nothing yet. XK and
/// IK let both sides send. The keys of the two directions come from what the
/// two sides have in common.
#[verifier::external_body]
fn into_link(h: HandshakeState) -> (r: Result<TransportState, snow::Error>)
    requires
        known_params(handshake(h).params),
    ensures
        r is Ok <==> handshake(h).position == handshake_messages(handshake(h).params),
        r matches Ok(t) ==> link(t).two_way && link(t).sent == 0 && link(t).received == 0
            && link(t).out_key == link_key(handshake(h).session, handshake(h).initiator) && link(
            t,
        ).in_key == link_key(handshake(h).session, !handshake(h).initiator),
{
    h.into_transport_mode()
}

/// `snow::TransportState::write_message`: encrypts one message. On a two-way
/// link it fails exactly where the message would be too long for the protocol
/// or the counter is used up, and then changes nothing. The key that made a
/// message gives the plaintext back.
#[verifier::external_body]
fn write_sealed(t: &mut TransportState, plain: &[u8]) -> (r: Result<Vec<u8>, snow::Error>)
    ensures
        link(*old(t)).two_way ==> (r is Ok <==> plain@.len() + NOISE_TAG_LEN <= NOISE_MAX_MSG
            && link(*old(t)).sent < u64::MAX),
        r matches Ok(message) ==> {
            let before = link(*old(t));
            &&& message@ == noise_seal(before.out_key, before.sent, plain@)
            &&& message@.len() == plain@.len() + NOISE_TAG_LEN
            &&& noise_open(before.out_key, before.sent, message@) == Some(plain@)
            &&& link(*final(t)) == (Link { sent: before.sent + 1, ..before })
        },
        r is Err ==> link(*final(t)) == link(*old(t)),
{
    let mut message = vec![0u8; plain.len() + NOISE_TAG_LEN];
    let n = t.write_message(plain, &mut message)?;
    message.truncate(n);
    Ok(message)
}

/// `snow::TransportState::read_message`: decrypts one message. On a two-way
/// link it fails exactly where the message is too short or too long for the
/// protocol, its tag does not verify or the counter is used up, and then
/// changes nothing.
#[verifier::external_body]
fn read_sealed(t: &mut TransportState, message: &[u8]) -> (r: Result<Vec<u8>, snow::Error>)
    ensures
        link(*old(t)).two_way ==> (r is Ok <==> NOISE_TAG_LEN <= message@.len() <= NOISE_MAX_MSG
            && link(*old(t)).received < u64::MAX && noise_open(
            link(*old(t)).in_key,
            link(*old(t)).received,
            message@,
        ) is Some),
        r matches Ok(plain) ==> {
            let before = link(*old(t));
            &&& noise_open(before.in_key, before.received, message@) == Some(plain@)
            &&& message@.len() == plain@.len() + NOISE_TAG_LEN
            &&& link(*final(t)) == (Link { received: before.received + 1, ..before })
        },
        r is Err ==> link(*final(t)) == link(*old(t)),
{
    let mut plain = vec![0u8; message.len()];
    let n = t.read_message(message, &mut plain)?;
    plain.truncate(n);
    Ok(plain)
}

/// What a handshake has to do next.
#[derive(Debug, Copy, Clone, PartialEq, Eq, Structural)]
pub enum HandshakeStep {
    /// Send a message to the other side.
    Write,
    /// Wait for a message of the other side.
    Read,
    /// Every message has passed.
    Finish,
}

/// A handshake in progress.
pub struct NoiseHandshake {
    state: HandshakeState,
    ik: bool,
    initiator: bool,
    position: usize,
    proven: Option<[u8; 32]>,
}

impl View for NoiseHandshake {
    type V = Handshake;

    closed spec fn view(&self) -> Handshake {
        handshake(self.state)
    }
}

/// An encrypted link.
pub struct NoiseLink {
    state: TransportState,
}

impl View for NoiseLink {
    type V = Link;

    closed spec fn view(&self) -> Link {
        link(self.state)
    }
}

/// What a finished handshake leaves.
pub struct Established {
    /// The encrypted link.
    pub link: NoiseLink,
    /// The hash over the handshake, which the two sides share. An
    /// authenticator computed over it cannot be carried from one connection to
    /// another.
    pub binding: Vec<u8>,
    /// For the responder of an IK handshake, the static key that the initiator
    /// proved to hold.
    pub initiator_key: Option<[u8; 32]>,
}

/// Whether a handshake with this responder key begins here: no message has
/// passed.
pub open spec fn begun(
    h: Handshake,
    params: Seq<char>,
    initiator: bool,
    local: Seq<u8>,
    responder: Seq<u8>,
) -> bool {
    &&& h.params == params
    &&& h.initiator == initiator
    &&& h.position == 0
    &&& h.local == local
    &&& h.remote == if initiator {
        Some(responder)
    } else {
        None
    }
    &&& h.responder == responder
    &&& h.transcript == Seq::<Seq<u8>>::empty()
    &&& h.session == 0
}

/// Whether a link and a hash are what a finished handshake leaves.
pub open spec fn established(h: Handshake, link: Link, binding: Seq<u8>) -> bool {
    &&& link == (Link {
        two_way: true,
        out_key: link_key(h.session, h.initiator),
        sent: 0,
        in_key: link_key(h.session, !h.initiator),
        received: 0,
    })
    &&& binding == noise_hash(h.params, h.responder, h.transcript)
}

/// The two sides of one handshake begin as its two ends, where the initiator
/// has pinned the public key of the responder.
pub proof fn fresh_ends_are_paired(
    a: Handshake,
    b: Handshake,
    params: Seq<char>,
    initiator_sk: Seq<u8>,
    responder_sk: Seq<u8>,
)
    requires
        begun(a, params, true, initiator_sk, x25519_public(responder_sk)),
        begun(b, params, false, responder_sk, x25519_public(responder_sk)),
    ensures
        paired(a, b),
        paired(b, a),
{
}

/// Two sides that completed one handshake share its hash, and what either
/// sends the other can read: each has the key of the other's direction.
pub proof fn completed_ends_share_the_link(
    a: Handshake,
    b: Handshake,
    link_a: Link,
    link_b: Link,
    binding_a: Seq<u8>,
    binding_b: Seq<u8>,
)
    requires
        paired(a, b),
        established(a, link_a, binding_a),
        established(b, link_b, binding_b),
    ensures
        binding_a == binding_b,
        link_a.out_key == link_b.in_key,
        link_a.in_key == link_b.out_key,
        link_a.sent == link_b.received,
        link_a.received == link_b.sent,
{
}

/// Begins the responder's side of an XK handshake.
pub fn noise_responder_handshake(static_sk: &[u8; 32]) -> (r: Result<
    NoiseHandshake,
    TransportError,
>)
    ensures
        r matches Ok(h) && h.wf() && begun(
            h@,
            NOISE_PARAMS@,
            false,
            static_sk@,
            x25519_public(static_sk@),
        ),
{
    match begin_responder(NOISE_PARAMS, static_sk) {
        Ok(state) => {
            proof {
                lemma_params_differ();
            }
            Ok(NoiseHandshake { state, ik: false, initiator: false, position: 0, proven: None })
        },
        Err(e) => Err(TransportError::Noise(e)),
    }
}

/// Begins the initiator's side of an XK handshake with the relay whose public
/// key is pinned.
pub fn noise_initiator_handshake(initiator_sk: &[u8; 32], server_static_pk: &[u8; 32]) -> (r:
    Result<NoiseHandshake, TransportError>)
    ensures
        r matches Ok(h) && h.wf() && begun(
            h@,
            NOISE_PARAMS@,
            true,
            initiator_sk@,
            server_static_pk@,
        ),
{
    match begin_initiator(NOISE_PARAMS, initiator_sk, server_static_pk) {
        Ok(state) => {
            proof {
                lemma_params_differ();
            }
            Ok(NoiseHandshake { state, ik: false, initiator: true, position: 0, proven: None })
        },
        Err(e) => Err(TransportError::Noise(e)),
    }
}

/// Begins the responder's side of an IK handshake, which learns and proves the
/// initiator's key.
pub fn noise_ik_responder_handshake(static_sk: &[u8; 32]) -> (r: Result<
    NoiseHandshake,
    TransportError,
>)
    ensures
        r matches Ok(h) && h.wf() && begun(
            h@,
            NOISE_IK_PARAMS@,
            false,
            static_sk@,
            x25519_public(static_sk@),
        ),
{
    match begin_responder(NOISE_IK_PARAMS, static_sk) {
        Ok(state) => Ok(
            NoiseHandshake { state, ik: true, initiator: false, position: 0, proven: None },
        ),
        Err(e) => Err(TransportError::Noise(e)),
    }
}

/// Begins the initiator's side of an IK handshake with the relay whose public
/// key is pinned.
pub fn noise_ik_initiator_handshake(initiator_sk: &[u8; 32], responder_static_pk: &[u8; 32]) -> (r:
    Result<NoiseHandshake, TransportError>)
    ensures
        r matches Ok(h) && h.wf() && begun(
            h@,
            NOISE_IK_PARAMS@,
            true,
            initiator_sk@,
            responder_static_pk@,
        ),
{
    match begin_initiator(NOISE_IK_PARAMS, initiator_sk, responder_static_pk) {
        Ok(state) => Ok(
            NoiseHandshake { state, ik: true, initiator: true, position: 0, proven: None },
        ),
        Err(e) => Err(TransportError::Noise(e)),
    }
}

/// The two protocols have different names.
proof fn lemma_params_differ()
    ensures
        NOISE_PARAMS@ != NOISE_IK_PARAMS@,
{
    reveal_strlit("Noise_XK_25519_ChaChaPoly_BLAKE2s");
    reveal_strlit("Noise_IK_25519_ChaChaPoly_BLAKE2s");
    assert(NOISE_PARAMS@[6] == 'X');
    assert(NOISE_IK_PARAMS@[6] == 'I');
}

impl NoiseHandshake {
    /// The handshake is one of the two in use, its progress is counted, and
    /// the responder of an IK handshake knows a key of thirty-two bytes once
    /// the first message has passed.
    pub closed spec fn wf(self) -> bool {
        &&& self.ik == (self@.params == NOISE_IK_PARAMS@)
        &&& known_params(self@.params)
        &&& self.initiator == self@.initiator
        &&& self.position == self@.position
        &&& self.position <= 3
        &&& self.ik && !self.initiator && self.position > 0 ==> self.proven is Some
            && self@.remote == Some(self.proven->0@)
        &&& !(self.ik && !self.initiator) ==> self.proven is None
    }

    /// What is to be done next.
    pub fn next_step(&self) -> (step: HandshakeStep)
        requires
            self.wf(),
        ensures
            step == HandshakeStep::Write <==> turn_to_write(self@),
            step == HandshakeStep::Read <==> turn_to_read(self@),
    {
        let total: usize = if self.ik {
            2
        } else {
            3
        };
        if self.position >= total {
            HandshakeStep::Finish
        } else if self.initiator == (self.position % 2 == 0) {
            HandshakeStep::Write
        } else {
            HandshakeStep::Read
        }
    }

    /// The next message to send, framed; fails out of turn and then changes
    /// nothing. The other end of the same handshake accepts the message.
    pub fn write_message(&mut self) -> (r: Result<Vec<u8>, TransportError>)
        requires
            old(self).wf(),
        ensures
            final(self).wf(),
            r is Ok <==> turn_to_write(old(self)@),
            r matches Ok(wire) ==> {
                let message = handshake_message(old(self)@, final(self)@);
                &&& message.len() <= MAX_HANDSHAKE_MSG
                &&& wire@ == handshake_wire(message)
                &&& passed(old(self)@, final(self)@, message)
                &&& final(self)@.remote == old(self)@.remote
                &&& forall|peer: NoiseHandshake|
                    paired(old(self)@, #[trigger] peer@) ==> accepted_by(
                        peer@,
                        old(self)@,
                        final(self)@,
                        message,
                    )
            },
            r matches Err(e) ==> e is Noise && final(self)@ == old(self)@,
    {
        match write_step(&mut self.state) {
            Ok(message) => {
                self.position = self.position + 1;
                write_handshake_msg(message.as_slice())
            },
            Err(e) => Err(TransportError::Noise(e)),
        }
    }

    /// Takes a message of the other side; fails out of turn and then changes
    /// nothing. The responder of an IK handshake takes the first message only
    /// where it proves a key of thirty-two bytes.
    pub fn read_message(&mut self, message: &[u8]) -> (r: Result<(), TransportError>)
        requires
            old(self).wf(),
        ensures
            final(self).wf(),
            r is Ok <==> handshake_read(old(self)@, message@) is Some,
            r is Ok ==> {
                &&& turn_to_read(old(self)@)
                &&& handshake_read(old(self)@, message@) == Some(final(self)@)
                &&& passed(old(self)@, final(self)@, message@)
            },
            r matches Err(e) ==> {
                &&& e is Noise
                &&& same_handshake(old(self)@, final(self)@)
                &&& final(self)@.position == old(self)@.position
                &&& final(self)@.transcript == old(self)@.transcript
            },
            !turn_to_read(old(self)@) ==> r is Err && final(self)@ == old(self)@,
    {
        let first: bool = self.position == 0;
        match read_step(&mut self.state, message) {
            Ok(()) => {},
            Err(e) => {
                return Err(TransportError::Noise(e));
            },
        }
        self.position = self.position + 1;
        if self.ik && !self.initiator && first {
            match remote_static(&self.state) {
                Some(key) => {
                    if key.len() != 32 {
                        return Err(TransportError::BadHandshake);
                    }
                    self.proven = Some(to_array32(key.as_slice()));
                },
                None => {
                    return Err(TransportError::BadHandshake);
                },
            }
        }
        Ok(())
    }

    /// The encrypted link; fails before every message has passed.
    pub fn finish(self) -> (r: Result<Established, TransportError>)
        requires
            self.wf(),
        ensures
            r is Ok <==> self@.position == handshake_messages(self@.params),
            r matches Ok(e) ==> {
                &&& e.link.wf()
                &&& established(self@, e.link@, e.binding@)
                &&& match e.initiator_key {
                    Some(key) => self@.remote == Some(key@),
                    None => true,
                }
                &&& e.initiator_key is Some <==> self@.params == NOISE_IK_PARAMS@
                    && !self@.initiator
            },
            r matches Err(e) ==> e is Noise,
    {
        let binding: Vec<u8> = handshake_hash(&self.state);
        let initiator_key: Option<[u8; 32]> = self.proven;
        match into_link(self.state) {
            Ok(state) => Ok(Established { link: NoiseLink { state }, binding, initiator_key }),
            Err(e) => Err(TransportError::Noise(e)),
        }
    }
}

impl NoiseLink {
    /// Both sides of the link may send.
    pub open spec fn wf(self) -> bool {
        self@.two_way
    }

    /// Encrypts one message.
    pub fn seal(&mut self, plain: &[u8]) -> (r: Result<Vec<u8>, TransportError>)
        requires
            old(self).wf(),
        ensures
            final(self).wf(),
            r is Ok <==> plain@.len() + NOISE_TAG_LEN <= NOISE_MAX_MSG && old(self)@.sent
                < u64::MAX,
            r matches Ok(message) ==> {
                &&& message@ == noise_seal(old(self)@.out_key, old(self)@.sent, plain@)
                &&& opens(old(self)@.out_key, old(self)@.sent, plain@)
                &&& final(self)@ == (Link { sent: old(self)@.sent + 1, ..old(self)@ })
            },
            r matches Err(e) ==> e is Noise && final(self)@ == old(self)@,
    {
        match write_sealed(&mut self.state, plain) {
            Ok(message) => Ok(message),
            Err(e) => Err(TransportError::Noise(e)),
        }
    }

    /// Decrypts one message.
    pub fn open(&mut self, message: &[u8]) -> (r: Result<Vec<u8>, TransportError>)
        requires
            old(self).wf(),
        ensures
            final(self).wf(),
            r is Ok <==> NOISE_TAG_LEN <= message@.len() <= NOISE_MAX_MSG && old(self)@.received
                < u64::MAX && noise_open(
                old(self)@.in_key,
                old(self)@.received,
                message@,
            ) is Some,
            r matches Ok(plain) ==> {
                &&& noise_open(old(self)@.in_key, old(self)@.received, message@) == Some(plain@)
                &&& message@.len() == plain@.len() + NOISE_TAG_LEN
                &&& final(self)@ == (Link { received: old(self)@.received + 1, ..old(self)@ })
            },
            r matches Err(e) ==> e is Noise && final(self)@ == old(self)@,
    {
        match read_sealed(&mut self.state, message) {
            Ok(plain) => Ok(plain),
            Err(e) => Err(TransportError::Noise(e)),
        }
    }
}

/// Whether the message that a key makes of a plaintext is longer by the tag
/// and gives the plaintext back.
pub open spec fn opens(key: int, count: nat, plain: Seq<u8>) -> bool {
    &&& noise_seal(key, count, plain).len() == plain.len() + NOISE_TAG_LEN
    &&& noise_open(key, count, noise_seal(key, count, plain)) == Some(plain)
}

/// A handshake begins with the protocol, the role and the keys that were asked
/// for: XK for links, IK for tunnels; the initiator knows the key of the
/// responder, and the responder knows nobody yet. It does not fail.
pub proof fn a_handshake_begins_as_asked(
    sk: &[u8; 32],
    pk: &[u8; 32],
    xk_responder: Result<NoiseHandshake, TransportError>,
    xk_initiator: Result<NoiseHandshake, TransportError>,
    ik_responder: Result<NoiseHandshake, TransportError>,
    ik_initiator: Result<NoiseHandshake, TransportError>,
)
    requires
        call_ensures(noise_responder_handshake, (sk,), xk_responder),
        call_ensures(noise_initiator_handshake, (sk, pk), xk_initiator),
        call_ensures(noise_ik_responder_handshake, (sk,), ik_responder),
        call_ensures(noise_ik_initiator_handshake, (sk, pk), ik_initiator),
    ensures
        xk_responder is Ok && xk_responder->Ok_0.wf(),
        xk_responder->Ok_0@.params == "Noise_XK_25519_ChaChaPoly_BLAKE2s"@,
        !xk_responder->Ok_0@.initiator,
        xk_responder->Ok_0@.position == 0,
        xk_responder->Ok_0@.local == sk@,
        xk_responder->Ok_0@.remote is None,
        xk_responder->Ok_0@.responder == x25519_public(sk@),
        xk_initiator is Ok && xk_initiator->Ok_0.wf(),
        xk_initiator->Ok_0@.params == "Noise_XK_25519_ChaChaPoly_BLAKE2s"@,
        xk_initiator->Ok_0@.initiator,
        xk_initiator->Ok_0@.position == 0,
        xk_initiator->Ok_0@.local == sk@,
        xk_initiator->Ok_0@.remote == Some(pk@),
        xk_initiator->Ok_0@.responder == pk@,
        ik_responder is Ok && ik_responder->Ok_0.wf(),
        ik_responder->Ok_0@.params == "Noise_IK_25519_ChaChaPoly_BLAKE2s"@,
        !ik_responder->Ok_0@.initiator,
        ik_responder->Ok_0@.position == 0,
        ik_responder->Ok_0@.local == sk@,
        ik_responder->Ok_0@.remote is None,
        ik_responder->Ok_0@.responder == x25519_public(sk@),
        ik_initiator is Ok && ik_initiator->Ok_0.wf(),
        ik_initiator->Ok_0@.params == "Noise_IK_25519_ChaChaPoly_BLAKE2s"@,
        ik_initiator->Ok_0@.initiator,
        ik_initiator->Ok_0@.position == 0,
        ik_initiator->Ok_0@.local == sk@,
        ik_initiator->Ok_0@.remote == Some(pk@),
        ik_initiator->Ok_0@.responder == pk@,
{
}

/// The two sides of a handshake take turns, the initiator first, for three
/// messages of XK and two of IK, and are done after them: whenever one has to
/// write, the other has to read, and both are done together.
pub proof fn the_sides_take_turns(
    h: &NoiseHandshake,
    step: HandshakeStep,
    peer: &NoiseHandshake,
    its_step: HandshakeStep,
)
    requires
        h.wf(),
        call_ensures(NoiseHandshake::next_step, (h,), step),
        call_ensures(NoiseHandshake::next_step, (peer,), its_step),
    ensures
        ({
            let total: nat = if h@.params == "Noise_IK_25519_ChaChaPoly_BLAKE2s"@ {
                2
            } else {
                3
            };
            &&& step == HandshakeStep::Finish <==> h@.position >= total
            &&& h@.position < total && h@.initiator ==> (step == HandshakeStep::Write
                <==> h@.position % 2 == 0)
            &&& h@.position < total && !h@.initiator ==> (step == HandshakeStep::Write
                <==> h@.position % 2 == 1)
        }),
        paired(h@, peer@) ==> {
            &&& step == HandshakeStep::Write <==> its_step == HandshakeStep::Read
            &&& step == HandshakeStep::Read <==> its_step == HandshakeStep::Write
            &&& step == HandshakeStep::Finish <==> its_step == HandshakeStep::Finish
        },
{
}

/// A message is written on this side's turn and on no other, and takes the
/// handshake one place on. The other end of the same handshake reads it, and the
/// two are then at the same place again, with the initiator's key proved to the
/// responder by the first message of IK.
pub proof fn a_handshake_message_is_read_by_the_other_end(
    h: &mut NoiseHandshake,
    sent: Result<Vec<u8>, TransportError>,
    peer: &mut NoiseHandshake,
    message: &[u8],
    read: Result<(), TransportError>,
)
    requires
        call_ensures(NoiseHandshake::write_message, (h,), sent),
        call_ensures(NoiseHandshake::read_message, (peer, message), read),
        paired(old(h)@, old(peer)@),
        sent is Ok ==> sent->Ok_0@ == handshake_wire(message@),
        sent is Ok ==> message@.len() <= 1024,
    ensures
        ({
            let total: nat = if old(h)@.params == "Noise_IK_25519_ChaChaPoly_BLAKE2s"@ {
                2
            } else {
                3
            };
            sent is Ok <==> old(h)@.position < total && old(h)@.initiator == (old(h)@.position % 2
                == 0)
        }),
        sent is Err ==> sent->Err_0 is Noise && final(h)@ == old(h)@,
        sent is Ok ==> {
            &&& read is Ok
            &&& paired(final(h)@, final(peer)@)
            &&& final(h)@.position == old(h)@.position + 1
            &&& final(h)@.local == old(h)@.local
            &&& final(peer)@.local == old(peer)@.local
            &&& old(h)@.params == "Noise_IK_25519_ChaChaPoly_BLAKE2s"@ && old(h)@.position == 0
                ==> final(peer)@.remote == Some(x25519_public(old(h)@.local))
        },
{
    if sent is Ok {
        let written = handshake_message(old(h)@, final(h)@);
        lemma_same_wire(written, message@);
        assert(paired(old(h)@, old(peer)@));
        assert(accepted_by(old(peer)@, old(h)@, final(h)@, written));
    }
}

/// Whether a handshake kept its protocol, its role and its keys.
pub open spec fn keeps_its_ends(before: Handshake, after: Handshake) -> bool {
    &&& before.params == after.params
    &&& before.initiator == after.initiator
    &&& before.local == after.local
    &&& before.responder == after.responder
}

/// A handshake keeps its protocol, its role and its keys, whatever is written or
/// read. A message that was written or taken is the newest of its transcript, and
/// one that was not leaves its place and its transcript as they were.
pub proof fn a_handshake_stays_what_it_is(
    writer: &mut NoiseHandshake,
    sent: Result<Vec<u8>, TransportError>,
    reader: &mut NoiseHandshake,
    message: &[u8],
    read: Result<(), TransportError>,
)
    requires
        call_ensures(NoiseHandshake::write_message, (writer,), sent),
        call_ensures(NoiseHandshake::read_message, (reader, message), read),
    ensures
        keeps_its_ends(old(writer)@, final(writer)@),
        keeps_its_ends(old(reader)@, final(reader)@),
        sent matches Ok(wire) ==> {
            &&& final(writer)@.position == old(writer)@.position + 1
            &&& final(writer)@.transcript.len() == old(writer)@.transcript.len() + 1
            &&& final(writer)@.transcript.drop_last() == old(writer)@.transcript
            &&& wire@ == handshake_wire(final(writer)@.transcript.last())
            &&& final(writer)@.remote == old(writer)@.remote
        },
        sent is Err ==> final(writer)@ == old(writer)@,
        read is Ok ==> {
            &&& final(reader)@.position == old(reader)@.position + 1
            &&& final(reader)@.transcript == old(reader)@.transcript.push(message@)
        },
        read is Err ==> {
            &&& read->Err_0 is Noise
            &&& final(reader)@.position == old(reader)@.position
            &&& final(reader)@.transcript == old(reader)@.transcript
        },
{
    if sent is Ok {
        assert(final(writer)@.transcript.drop_last() =~= old(writer)@.transcript);
    }
}

/// A message that comes out of turn is refused and changes nothing.
pub proof fn a_message_out_of_turn_is_refused(
    h: &mut NoiseHandshake,
    message: &[u8],
    read: Result<(), TransportError>,
)
    requires
        call_ensures(NoiseHandshake::read_message, (h, message), read),
    ensures
        ({
            let total: nat = if old(h)@.params == "Noise_IK_25519_ChaChaPoly_BLAKE2s"@ {
                2
            } else {
                3
            };
            old(h)@.position >= total || old(h)@.initiator == (old(h)@.position % 2 == 0)
                ==> read is Err && final(h)@ == old(h)@
        }),
{
}

/// Messages that are framed alike are alike.
proof fn lemma_same_wire(a: Seq<u8>, b: Seq<u8>)
    requires
        a.len() <= 1024,
        b.len() <= 1024,
        handshake_wire(a) == handshake_wire(b),
    ensures
        a == b,
{
    crate::transport::framing::handshake_message_reads_back(a);
    crate::transport::framing::handshake_message_reads_back(b);
}

/// A link comes out of a handshake whose messages have all passed, and of no
/// other: it has carried nothing, and the two ends have each other's keys, the
/// same hash, and for IK the responder has the key that the initiator proved.
pub proof fn a_finished_handshake_leaves_a_link(
    h: NoiseHandshake,
    here: Result<Established, TransportError>,
    peer: NoiseHandshake,
    there: Result<Established, TransportError>,
)
    requires
        call_ensures(NoiseHandshake::finish, (h,), here),
        call_ensures(NoiseHandshake::finish, (peer,), there),
        paired(h@, peer@),
    ensures
        ({
            let ik = h@.params == "Noise_IK_25519_ChaChaPoly_BLAKE2s"@;
            let total: nat = if ik {
                2
            } else {
                3
            };
            &&& here is Ok <==> h@.position == total
            &&& here is Err ==> here->Err_0 is Noise
            &&& here is Ok ==> {
                let e = here->Ok_0;
                let f = there->Ok_0;
                &&& there is Ok
                &&& e.link@.sent == 0 && e.link@.received == 0 && e.link@.two_way
                &&& e.link@.out_key == f.link@.in_key
                &&& e.link@.in_key == f.link@.out_key
                &&& e.binding@ == f.binding@
                &&& e.initiator_key is Some <==> ik && !h@.initiator
                &&& e.initiator_key matches Some(key) ==> h@.remote == Some(key@)
            }
        }),
{
    if here is Ok {
        completed_ends_share_the_link(
            h@,
            peer@,
            here->Ok_0.link@,
            there->Ok_0.link@,
            here->Ok_0.binding@,
            there->Ok_0.binding@,
        );
    }
}

/// What one end of a link seals, the other opens, as long as both have carried as
/// many messages; each counts as one. A message is sixteen bytes longer than what
/// it carries, and at most 65535 bytes long.
pub proof fn what_is_sealed_is_opened(
    here: &mut NoiseLink,
    plain: &[u8],
    sealed: Result<Vec<u8>, TransportError>,
    there: &mut NoiseLink,
    message: &[u8],
    opened: Result<Vec<u8>, TransportError>,
)
    requires
        call_ensures(NoiseLink::seal, (here, plain), sealed),
        call_ensures(NoiseLink::open, (there, message), opened),
    ensures
        sealed is Ok <==> plain@.len() <= 65519 && old(here)@.sent < u64::MAX,
        sealed is Ok ==> sealed->Ok_0@.len() == plain@.len() + 16 && final(here)@ == (Link {
            sent: old(here)@.sent + 1,
            ..old(here)@
        }),
        sealed is Err ==> sealed->Err_0 is Noise && final(here)@ == old(here)@,
        opened is Ok ==> message@.len() == opened->Ok_0@.len() + 16 && final(there)@ == (Link {
            received: old(there)@.received + 1,
            ..old(there)@
        }),
        opened is Err ==> opened->Err_0 is Noise && final(there)@ == old(there)@,
        sealed is Ok && message@ == sealed->Ok_0@ && old(there)@.in_key == old(here)@.out_key
            && old(there)@.received == old(here)@.sent ==> opened is Ok && opened->Ok_0@ == plain@,
{
}

} // verus!
