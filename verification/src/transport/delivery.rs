//! Sealed envelopes in the payload of a packet.
//!
//! A sealed envelope has no fixed length, and the payload region has. An
//! envelope is therefore sent behind four bytes that give its length, and
//! zeros fill the rest of the region.

use crate::bytes::{be_append, be_bytes, be_read_u32, be_value, lemma_be_bytes_len, lemma_be_limits,
    lemma_be_round_trip};
use crate::client::{padded, MAX_PAYLOAD_SIZE};
use vstd::prelude::*;

verus! {

/// An envelope behind its length.
pub open spec fn framed_envelope(envelope: Seq<u8>) -> Seq<u8> {
    be_bytes(envelope.len(), 4) + envelope
}

/// The envelope at the front of a payload, where its length fits the payload.
pub open spec fn envelope_of(payload: Seq<u8>) -> Option<Seq<u8>> {
    if payload.len() < 4 || 4 + be_value(payload.take(4)) > payload.len() {
        None
    } else {
        Some(payload.subrange(4, 4 + be_value(payload.take(4)) as int))
    }
}

/// Puts the length of an envelope before it; `None` where the two do not fit
/// one packet.
pub fn frame_envelope(envelope: &[u8]) -> (r: Option<Vec<u8>>)
    ensures
        r is Some <==> envelope@.len() + 4 <= MAX_PAYLOAD_SIZE,
        r matches Some(framed) ==> framed@ == framed_envelope(envelope@),
{
    if envelope.len() > MAX_PAYLOAD_SIZE - 4 {
        return None;
    }
    let mut framed: Vec<u8> = Vec::with_capacity(envelope.len() + 4);
    be_append(&mut framed, envelope.len() as u128, 4);
    framed.extend_from_slice(envelope);
    assert(framed@ =~= framed_envelope(envelope@));
    Some(framed)
}

/// The envelope at the front of a delivered payload; `None` where the payload
/// holds none.
pub fn unframe_envelope(payload: &[u8]) -> (r: Option<Vec<u8>>)
    ensures
        match r {
            Some(envelope) => envelope_of(payload@) == Some(envelope@),
            None => envelope_of(payload@) is None,
        },
{
    if payload.len() < 4 {
        return None;
    }
    let prefix: &[u8] = vstd::slice::slice_subrange(payload, 0, 4);
    assert(prefix@ =~= payload@.take(4));
    let len: u32 = be_read_u32(prefix);
    if len as u64 > (payload.len() - 4) as u64 {
        return None;
    }
    let end: usize = 4 + len as usize;
    Some(vstd::slice::slice_to_vec(vstd::slice::slice_subrange(payload, 4, end)))
}

/// Whether `r` is what opening a delivered payload gives: nothing where it holds
/// no envelope, and what `unseal` makes of its envelope otherwise.
pub open spec fn delivery_opens<U>(
    payload: Seq<u8>,
    unseal: U,
    r: Option<([u8; 32], Vec<u8>)>,
) -> bool where U: FnOnce(Vec<u8>) -> Option<([u8; 32], Vec<u8>)> {
    match envelope_of(payload) {
        None => r is None,
        Some(inside) => exists|envelope: Vec<u8>|
            envelope@ == inside && #[trigger] call_ensures(unseal, (envelope,), r),
    }
}

/// Opens a delivered payload: hands its envelope to `unseal` and returns the
/// sender and the body that come out. A payload without an envelope, and an
/// envelope that does not unseal, are dropped silently.
pub fn open_delivery<U>(payload: &[u8], unseal: U) -> (r: Option<([u8; 32], Vec<u8>)>) where
    U: FnOnce(Vec<u8>) -> Option<([u8; 32], Vec<u8>)>,

    requires
        forall|envelope: Vec<u8>| #[trigger] call_requires(unseal, (envelope,)),
    ensures
        delivery_opens(payload@, unseal, r),
{
    match unframe_envelope(payload) {
        None => None,
        Some(envelope) => unseal(envelope),
    }
}

/// An envelope that was framed and sent in the payload of a packet is found at
/// the other end, whatever zeros follow it.
pub proof fn envelope_reads_back(envelope: Seq<u8>)
    requires
        envelope.len() + 4 <= MAX_PAYLOAD_SIZE,
    ensures
        envelope_of(padded(framed_envelope(envelope))) == Some(envelope),
{
    lemma_be_bytes_len(envelope.len(), 4);
    lemma_be_limits();
    lemma_be_round_trip(envelope.len(), 4);
    let payload = padded(framed_envelope(envelope));
    assert(payload.take(4) =~= be_bytes(envelope.len(), 4));
    assert(payload.subrange(4, 4 + envelope.len() as int) =~= envelope);
}

/// An envelope is framed by its length in four bytes, most significant first,
/// where the two fit 1664 bytes, and is found again behind that length whatever
/// follows it.
pub proof fn a_framed_envelope_is_found_again(
    envelope: &[u8],
    framed: Option<Vec<u8>>,
    delivered: &[u8],
    rest: Seq<u8>,
    found: Option<Vec<u8>>,
)
    requires
        call_ensures(frame_envelope, (envelope,), framed),
        framed is Some ==> delivered@ == framed->0@ + rest,
        call_ensures(unframe_envelope, (delivered,), found),
    ensures
        framed is Some <==> envelope@.len() <= 1660,
        framed is Some ==> {
            &&& framed->0@.len() == 4 + envelope@.len()
            &&& be_value(framed->0@.take(4)) == envelope@.len()
            &&& framed->0@.skip(4) == envelope@
            &&& found is Some
            &&& found->0@ == envelope@
        },
{
    if framed is Some {
        lemma_be_bytes_len(envelope@.len(), 4);
        lemma_be_limits();
        lemma_be_round_trip(envelope@.len(), 4);
        assert(framed->0@.take(4) =~= be_bytes(envelope@.len(), 4));
        assert(framed->0@.skip(4) =~= envelope@);
        assert(delivered@.take(4) =~= be_bytes(envelope@.len(), 4));
        assert(delivered@.subrange(4, 4 + envelope@.len() as int) =~= envelope@);
    }
}

/// What is found in a payload stands behind its first four bytes and is as long
/// as they say. A payload that is shorter than that holds nothing.
pub proof fn an_envelope_is_as_long_as_it_says(payload: &[u8], found: Option<Vec<u8>>)
    requires
        call_ensures(unframe_envelope, (payload,), found),
    ensures
        found is Some <==> payload@.len() >= 4 && 4 + be_value(payload@.take(4)) <= payload@.len(),
        found matches Some(envelope) ==> envelope@.len() == be_value(payload@.take(4)) && forall|
            i: int,
        |
            0 <= i < envelope@.len() ==> #[trigger] envelope@[i] == payload@[4 + i],
{
}

/// A delivery is opened with what unsealing makes of the envelope in it, and
/// holds nothing where there is none.
pub proof fn a_delivery_is_what_unsealing_makes_of_it<U>(
    payload: &[u8],
    unseal: U,
    found: Option<Vec<u8>>,
    r: Option<([u8; 32], Vec<u8>)>,
) where U: FnOnce(Vec<u8>) -> Option<([u8; 32], Vec<u8>)>
    requires
        call_ensures(unframe_envelope, (payload,), found),
        call_ensures(open_delivery::<U>, (payload, unseal), r),
    ensures
        found is None ==> r is None,
        found matches Some(inside) ==> exists|envelope: Vec<u8>|
            envelope@ == inside@ && #[trigger] call_ensures(unseal, (envelope,), r),
{
}

} // verus!
