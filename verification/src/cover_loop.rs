//! Cover traffic: packets leave at random times whether or not there is
//! anything to say.
//!
//! At each tick of a Poisson process a client sends one packet: a queued
//! message where there is one, and a decoy otherwise. When to tick and which
//! of the two to send are drawn by the caller.

use crate::bytes::{be_bytes, be_read_u16, be_value, lemma_be_bytes_len, lemma_be_limits,
    lemma_be_round_trip};
use crate::client::MAX_PAYLOAD_SIZE;
use crate::keys::{public_key, x25519_public};
use crate::transport::delivery::{frame_envelope, framed_envelope};
use std::collections::VecDeque;
use vstd::prelude::*;

verus! {

/// Length of the payload that is sent in place of a decoy that could not be
/// sealed.
pub const DUMMY_PAYLOAD_SIZE: usize = 32;

/// The shortest body of a decoy.
pub const COVER_BODY_MIN: usize = 64;

/// A length that the body of a decoy stays below. A decoy that was always as
/// long as can be would give itself away.
pub const COVER_BODY_MAX: usize = 1024;

/// The length of a decoy's body for two random bytes: any from the shortest up,
/// short of the longest.
pub open spec fn drawn_body_len(pick: Seq<u8>) -> nat {
    COVER_BODY_MIN as nat + be_value(pick) % (COVER_BODY_MAX - COVER_BODY_MIN) as nat
}

/// The length of a decoy's body for two random bytes, over the range that
/// ordinary messages take.
pub fn cover_body_len(pick: [u8; 2]) -> (len: usize)
    ensures
        len == drawn_body_len(pick@),
        COVER_BODY_MIN <= len < COVER_BODY_MAX,
{
    let n: usize = be_read_u16(pick.as_slice()) as usize;
    COVER_BODY_MIN + n % (COVER_BODY_MAX - COVER_BODY_MIN)
}

/// The payload of a decoy: a body of random bytes sealed like any other, for a
/// recipient whose secret key nobody keeps. The body is as long as `pick` says.
///
/// The last hop sees the payload. A decoy that was not a sealed envelope
/// behind its length would be told from a message there. `seal` is handed the
/// keys of a throwaway recipient and a throwaway sender, and the body. Should
/// it fail, random bytes are sent instead: a gap in the stream would be seen
/// too.
pub fn build_cover_payload<E>(
    recipient_sk: &[u8; 32],
    sender_sk: &[u8; 32],
    pick: [u8; 2],
    random: &[u8; 1024],
    fallback: [u8; 32],
    seal: E,
) -> (payload: Vec<u8>) where E: FnOnce(&[u8; 32], &[u8; 32], &[u8]) -> Option<Vec<u8>>
    requires
        forall|recipient: &[u8; 32], sender: &[u8; 32], body: &[u8]| #[trigger]
            call_requires(seal, (recipient, sender, body)),
    ensures
        exists|recipient: [u8; 32], sender: [u8; 32], body: &[u8], sealed: Option<Vec<u8>>|
            #![trigger call_ensures(seal, (&recipient, &sender, body), sealed)]
            {
                &&& recipient@ == x25519_public(recipient_sk@)
                &&& sender@ == x25519_public(sender_sk@)
                &&& body@ == random@.take(drawn_body_len(pick@) as int)
                &&& call_ensures(seal, (&recipient, &sender, body), sealed)
                &&& payload@ == if sealed is Some && sealed->0@.len() + 4 <= MAX_PAYLOAD_SIZE {
                    framed_envelope(sealed->0@)
                } else {
                    fallback@
                }
            },
{
    let recipient: [u8; 32] = public_key(recipient_sk);
    let sender: [u8; 32] = public_key(sender_sk);
    let len: usize = cover_body_len(pick);
    let body: &[u8] = vstd::slice::slice_subrange(random.as_slice(), 0, len);
    assert(body@ =~= random@.take(len as int));
    let sealed = seal(&recipient, &sender, body);
    assert(call_ensures(seal, (&recipient, &sender, body), sealed));
    if let Some(envelope) = sealed {
        if let Some(framed) = frame_envelope(envelope.as_slice()) {
            return framed;
        }
    }
    vstd::slice::slice_to_vec(fallback.as_slice())
}

/// A packet that waits for its tick, with `D` to name a relay and `N` to tell
/// its sender how it went.
pub struct QueuedPacket<D, N> {
    /// The payload, sealed and framed.
    pub payload: Vec<u8>,
    /// How many hops to send it along; the usual number where unset.
    pub hops: Option<usize>,
    /// The last hop that it must take, for a message to a mailbox host.
    pub exit: Option<D>,
    /// Whom to tell how it went.
    pub done: Option<N>,
}

/// A message that waits for its tick: payload, hops, and whom to tell.
pub type QueuedMessage<N> = (Vec<u8>, Option<usize>, Option<N>);

impl<D, N> From<QueuedMessage<N>> for QueuedPacket<D, N> {
    /// An ordinary message as a packet. It may take any last hop.
    fn from(message: QueuedMessage<N>) -> (packet: QueuedPacket<D, N>) {
        let (payload, hops, done) = message;
        QueuedPacket { payload, hops, exit: None, done }
    }
}

impl<D, N> vstd::std_specs::convert::FromSpecImpl<QueuedMessage<N>> for QueuedPacket<D, N> {
    open spec fn obeys_from_spec() -> bool {
        true
    }

    open spec fn from_spec(message: QueuedMessage<N>) -> QueuedPacket<D, N> {
        QueuedPacket { payload: message.0, hops: message.1, exit: None, done: message.2 }
    }
}

/// What a tick is for.
#[derive(Debug, Copy, Clone, PartialEq, Eq, Structural)]
pub enum CoverIntent {
    /// A queued message.
    Real,
    /// A decoy.
    Drop,
    /// A decoy that would come back. It is sent as any other decoy.
    Loop,
}

/// What to send at a tick.
pub enum Emission<D, N> {
    /// A queued packet, along this many hops.
    Real {
        /// The packet.
        packet: QueuedPacket<D, N>,
        /// How many hops to send it along.
        hops: usize,
    },
    /// A decoy, along this many hops.
    Decoy {
        /// How many hops to send it along.
        hops: usize,
    },
}

/// Whether there is a message to send.
pub fn has_real<D, N>(queue: &VecDeque<QueuedPacket<D, N>>) -> (r: bool)
    ensures
        r == (queue@.len() > 0),
{
    queue.len() > 0
}

/// What to send at a tick, and what stays in the queue: for a message the
/// first in the queue, along its own number of hops or the usual one, and for
/// anything else a decoy along the usual number. A queue that was emptied since
/// the intent was drawn makes for a decoy too: a gap in the stream would be
/// seen.
pub fn next_emission<D, N>(
    queue: &mut VecDeque<QueuedPacket<D, N>>,
    intent: CoverIntent,
    default_hop_count: usize,
) -> (emission: Emission<D, N>)
    ensures
        match intent {
            CoverIntent::Real => if old(queue)@.len() > 0 {
                &&& final(queue)@ == old(queue)@.drop_first()
                &&& emission == (Emission::Real {
                    packet: old(queue)@[0],
                    hops: match old(queue)@[0].hops {
                        Some(n) => n,
                        None => default_hop_count,
                    },
                })
            } else {
                final(queue)@ == old(queue)@ && emission == (Emission::<D, N>::Decoy {
                    hops: default_hop_count,
                })
            },
            _ => final(queue)@ == old(queue)@ && emission == (Emission::<D, N>::Decoy {
                hops: default_hop_count,
            }),
        },
{
    match intent {
        CoverIntent::Real => {
            let ghost before = queue@;
            match queue.pop_front() {
                Some(packet) => {
                    assert(queue@ =~= before.drop_first());
                    let hops: usize = match packet.hops {
                        Some(n) => n,
                        None => default_hop_count,
                    };
                    Emission::Real { packet, hops }
                },
                None => Emission::Decoy { hops: default_hop_count },
            }
        },
        CoverIntent::Drop => Emission::Decoy { hops: default_hop_count },
        CoverIntent::Loop => Emission::Decoy { hops: default_hop_count },
    }
}

/// What the sender of a message is told where sending it failed.
pub fn failure_text(forced_exit: bool, error: &str) -> (text: String)
    ensures
        text@ == if forced_exit {
            "cover loop deposit send: "@ + error@
        } else {
            "cover loop real send: "@ + error@
        },
{
    if forced_exit {
        "cover loop deposit send: ".to_owned().concat(error)
    } else {
        "cover loop real send: ".to_owned().concat(error)
    }
}

/// The queue after ticks with these intents.
pub open spec fn queue_after<D, N>(
    queue: Seq<QueuedPacket<D, N>>,
    intents: Seq<CoverIntent>,
) -> Seq<QueuedPacket<D, N>>
    decreases intents.len(),
{
    if intents.len() == 0 {
        queue
    } else {
        let before = queue_after(queue, intents.drop_last());
        if intents.last() == CoverIntent::Real && before.len() > 0 {
            before.drop_first()
        } else {
            before
        }
    }
}

/// How many ticks were for a message.
pub open spec fn real_ticks(intents: Seq<CoverIntent>) -> nat
    decreases intents.len(),
{
    if intents.len() == 0 {
        0
    } else {
        real_ticks(intents.drop_last()) + if intents.last() == CoverIntent::Real {
            1nat
        } else {
            0nat
        }
    }
}

/// Messages leave in the order in which they were queued, one for each tick
/// that is for a message, and none is lost: what has not left is still queued.
pub proof fn messages_leave_in_order<D, N>(
    queue: Seq<QueuedPacket<D, N>>,
    intents: Seq<CoverIntent>,
)
    ensures
        ({
            let sent = if real_ticks(intents) <= queue.len() {
                real_ticks(intents)
            } else {
                queue.len()
            };
            queue_after(queue, intents) == queue.skip(sent as int)
        }),
    decreases intents.len(),
{
    if intents.len() == 0 {
        assert(queue.skip(0) =~= queue);
    } else {
        messages_leave_in_order(queue, intents.drop_last());
        let n = real_ticks(intents.drop_last());
        let before = queue_after(queue, intents.drop_last());
        if intents.last() == CoverIntent::Real && before.len() > 0 {
            assert(before.drop_first() =~= queue.skip(n as int + 1));
        }
    }
}

/// A decoy cannot be told from a message by its form: its payload is an envelope
/// behind its length, of a body of random bytes, sealed for a recipient and by a
/// sender whose keys are those of the secrets that were given. The body is from
/// 64 to 1023 bytes long, and every length in between comes up. What cannot be
/// sealed, or does not fit, is replaced by thirty-two bytes.
pub proof fn a_decoy_looks_like_a_message<E>(
    recipient_sk: &[u8; 32],
    sender_sk: &[u8; 32],
    pick: [u8; 2],
    random: &[u8; 1024],
    fallback: [u8; 32],
    seal: E,
    payload: Vec<u8>,
) where E: FnOnce(&[u8; 32], &[u8; 32], &[u8]) -> Option<Vec<u8>>
    requires
        call_ensures(
            build_cover_payload::<E>,
            (recipient_sk, sender_sk, pick, random, fallback, seal),
            payload,
        ),
    ensures
        exists|recipient: [u8; 32], sender: [u8; 32], body: &[u8], sealed: Option<Vec<u8>>|
            #![trigger call_ensures(seal, (&recipient, &sender, body), sealed)]
            {
                &&& recipient@ == x25519_public(recipient_sk@)
                &&& sender@ == x25519_public(sender_sk@)
                &&& body@.len() == 64 + (256 * pick@[0] + pick@[1]) % 960
                &&& forall|i: int| 0 <= i < body@.len() ==> #[trigger] body@[i] == random@[i]
                &&& call_ensures(seal, (&recipient, &sender, body), sealed)
                &&& if sealed is Some && sealed->0@.len() <= 1660 {
                    &&& payload@.len() == 4 + sealed->0@.len()
                    &&& be_value(payload@.take(4)) == sealed->0@.len()
                    &&& payload@.skip(4) == sealed->0@
                } else {
                    payload@ == fallback@
                }
            },
{
    let (recipient, sender, body, sealed) = choose|
        recipient: [u8; 32],
        sender: [u8; 32],
        body: &[u8],
        sealed: Option<Vec<u8>>,
    |
        #![trigger call_ensures(seal, (&recipient, &sender, body), sealed)]
        {
            &&& recipient@ == x25519_public(recipient_sk@)
            &&& sender@ == x25519_public(sender_sk@)
            &&& body@ == random@.take(drawn_body_len(pick@) as int)
            &&& call_ensures(seal, (&recipient, &sender, body), sealed)
            &&& payload@ == if sealed is Some && sealed->0@.len() + 4 <= MAX_PAYLOAD_SIZE {
                framed_envelope(sealed->0@)
            } else {
                fallback@
            }
        };
    assert(call_ensures(seal, (&recipient, &sender, body), sealed));
    lemma_two_bytes(pick@);
    if sealed is Some && sealed->0@.len() <= 1660 {
        let envelope = sealed->0@;
        lemma_be_bytes_len(envelope.len(), 4);
        lemma_be_limits();
        lemma_be_round_trip(envelope.len(), 4);
        assert(payload@.take(4) =~= be_bytes(envelope.len(), 4));
        assert(payload@.skip(4) =~= envelope);
    }
}

/// The number that two bytes spell.
proof fn lemma_two_bytes(pick: Seq<u8>)
    requires
        pick.len() == 2,
    ensures
        be_value(pick) == 256 * pick[0] + pick[1],
{
    let front = pick.drop_last();
    assert(front.drop_last() =~= Seq::<u8>::empty());
    assert(be_value(front.drop_last()) == 0);
    assert(be_value(front) == pick[0] as nat);
}

/// The length of a decoy's body, by the two bytes that it is drawn with.
pub proof fn a_body_length_is_drawn(pick: [u8; 2], len: usize)
    requires
        call_ensures(cover_body_len, (pick,), len),
    ensures
        64 <= len < 1024,
        len == 64 + (256 * pick@[0] + pick@[1]) % 960,
{
    lemma_two_bytes(pick@);
}

/// Something leaves at every tick. For a tick that is for a message it is the
/// first in the queue, whole, along its own number of hops or the usual one, and
/// only that one leaves the queue. For any other tick, and for an empty queue,
/// it is a decoy along the usual number, and the queue stays as it was.
pub proof fn something_leaves_at_every_tick<D, N>(
    queue: &mut VecDeque<QueuedPacket<D, N>>,
    intent: CoverIntent,
    default_hop_count: usize,
    emission: Emission<D, N>,
    waiting: bool,
)
    requires
        call_ensures(next_emission::<D, N>, (queue, intent, default_hop_count), emission),
        call_ensures(has_real::<D, N>, (&*old(queue),), waiting),
    ensures
        waiting <==> old(queue)@.len() > 0,
        intent == CoverIntent::Real && waiting <==> emission is Real,
        emission is Decoy ==> emission->Decoy_hops == default_hop_count && final(queue)@ == old(
            queue,
        )@,
        emission is Real ==> {
            &&& final(queue)@.len() == old(queue)@.len() - 1
            &&& old(queue)@ == seq![emission->packet] + final(queue)@
            &&& emission->packet.hops is Some ==> emission->Real_hops == emission->packet.hops->0
            &&& emission->packet.hops is None ==> emission->Real_hops == default_hop_count
        },
{
    if emission is Real {
        assert(old(queue)@ =~= seq![emission->packet] + final(queue)@);
    }
}

/// A message becomes a packet with all that it brings, and may take any exit.
pub proof fn a_message_is_queued_whole<D, N>(message: QueuedMessage<N>)
    ensures
        ({
            let packet = <QueuedPacket<D, N> as vstd::std_specs::convert::FromSpec<
                QueuedMessage<N>,
            >>::from_spec(message);
            &&& packet.payload == message.0
            &&& packet.hops == message.1
            &&& packet.done == message.2
            &&& packet.exit is None
        }),
{
}

/// A sender is told what failed, and which kind of message it was.
pub proof fn a_sender_is_told_what_failed(forced_exit: bool, error: &str, text: String)
    requires
        call_ensures(failure_text, (forced_exit, error), text),
    ensures
        forced_exit ==> text@ == "cover loop deposit send: "@ + error@,
        !forced_exit ==> text@ == "cover loop real send: "@ + error@,
{
}

/// A message is queued as it is: its payload, its hops and whom to tell, with no
/// last hop forced.
pub proof fn a_message_is_queued_as_it_is<D, N>(message: QueuedMessage<N>, packet: QueuedPacket<D, N>)
    requires
        call_ensures(<QueuedPacket<D, N> as From<QueuedMessage<N>>>::from, (message,), packet),
    ensures
        packet.payload == message.0,
        packet.hops == message.1,
        packet.done == message.2,
        packet.exit is None,
{
}

} // verus!
