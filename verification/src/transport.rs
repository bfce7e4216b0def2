//! The link layer: QUIC streams with Noise encryption on top.
//!
//! A packet of 2048 bytes becomes one Noise message of 2064 bytes on a QUIC
//! stream. TLS gives reliable streams that look like any other on the wire;
//! Noise authenticates the relay by the key that the directory lists for it.
//!
//! The sockets are the caller's. Here stand the bytes that go over them and
//! the decisions that are taken on what comes back.

use std::time::Duration;
use vstd::prelude::*;

pub mod delivery;
pub mod dispatch;
pub mod framing;
pub mod mailbox;
pub mod noise;

verus! {

/// The longest handshake message that is sent or accepted.
pub const MAX_HANDSHAKE_MSG: usize = 1024;

/// One encrypted packet on the wire: the packet and the tag of the message.
pub const FRAME_LEN: usize = 2064;

/// Plaintext bytes in one message of a blob, well below what one message may
/// hold.
pub const NOISE_CHUNK: usize = 32768;

/// The longest blob of the mailbox protocol: 16 MiB.
pub const MAX_MAILBOX_FRAME: usize = 16777216;

/// The longest blob of the gossip protocol: 4 MiB. It bounds how many
/// signatures a peer can have verified in one round.
pub const MAX_GOSSIP_FRAME: usize = 4194304;

/// Why a link failed.
pub enum TransportError {
    /// Socket input or output failed.
    Io(String),
    /// A QUIC connection could not be started.
    Connect(String),
    /// A QUIC connection was reset or timed out.
    Connection(String),
    /// A QUIC stream could not be written.
    Write(String),
    /// A QUIC stream ended before the bytes that were due.
    Read(String),
    /// TLS failed.
    Rustls(String),
    /// A certificate could not be made.
    Rcgen(String),
    /// Noise failed.
    Noise(snow::Error),
    /// A message broke a rule of the protocol.
    BadHandshake,
    /// Nothing answered within this time.
    Unreachable(Duration),
}

/// The text of an error of the Noise layer.
pub uninterp spec fn noise_error_text(e: snow::Error) -> Seq<char>;

/// The text of a length of time, with its unit.
pub uninterp spec fn duration_text(d: Duration) -> Seq<char>;

/// `to_string` on `snow::Error`: its text, which depends on the error alone.
#[verifier::external_body]
fn show_noise_error(e: &snow::Error) -> (text: String)
    ensures
        text@ == noise_error_text(*e),
{
    e.to_string()
}

/// The `Debug` form of a `Duration`: a number with its unit, which depends on
/// the length alone.
#[verifier::external_body]
fn show_duration(d: Duration) -> (text: String)
    ensures
        text@ == duration_text(d),
{
    format!("{:?}", d)
}

/// The text of an error.
pub open spec fn error_text(e: TransportError) -> Seq<char> {
    match e {
        TransportError::Io(why) => "io: "@ + why@,
        TransportError::Connect(why) => "quic connect: "@ + why@,
        TransportError::Connection(why) => "quic connection: "@ + why@,
        TransportError::Write(why) => "quic write: "@ + why@,
        TransportError::Read(why) => "quic read: "@ + why@,
        TransportError::Rustls(why) => "rustls: "@ + why@,
        TransportError::Rcgen(why) => "rcgen: "@ + why@,
        TransportError::Noise(why) => "noise: "@ + noise_error_text(why),
        TransportError::BadHandshake => "malformed handshake message"@,
        TransportError::Unreachable(waited) => "no response within "@ + duration_text(waited)
            + " — nothing is reachable at that address. Check that the UDP port is open in your provider's firewall (cloud security list / security group), not only on the host itself."@,
    }
}

impl TransportError {
    /// The error in words. That nothing answered points at a firewall and not
    /// at the protocol, which is where the cause nearly always lies.
    pub fn message(&self) -> (text: String)
        ensures
            text@ == error_text(*self),
    {
        match self {
            TransportError::Io(why) => "io: ".to_owned().concat(why.as_str()),
            TransportError::Connect(why) => "quic connect: ".to_owned().concat(why.as_str()),
            TransportError::Connection(why) => "quic connection: ".to_owned().concat(
                why.as_str(),
            ),
            TransportError::Write(why) => "quic write: ".to_owned().concat(why.as_str()),
            TransportError::Read(why) => "quic read: ".to_owned().concat(why.as_str()),
            TransportError::Rustls(why) => "rustls: ".to_owned().concat(why.as_str()),
            TransportError::Rcgen(why) => "rcgen: ".to_owned().concat(why.as_str()),
            TransportError::Noise(why) => "noise: ".to_owned().concat(
                show_noise_error(why).as_str(),
            ),
            TransportError::BadHandshake => "malformed handshake message".to_owned(),
            TransportError::Unreachable(waited) => "no response within ".to_owned().concat(
                show_duration(*waited).as_str(),
            ).concat(
                " — nothing is reachable at that address. Check that the UDP port is open in your provider's firewall (cloud security list / security group), not only on the host itself.",
            ),
        }
    }

    /// Whether the error is how a peer ends a stream: the serving loop then
    /// stops quietly instead of failing.
    pub fn ends_stream(&self) -> (ends: bool)
        ensures
            ends == (self is Read || self is Io),
    {
        match self {
            TransportError::Read(_) => true,
            TransportError::Io(_) => true,
            _ => false,
        }
    }
}

/// The result of an exchange that was given so much time: what came of it, or
/// that nothing answered where `None` came of it in that time. A peer that is
/// silent is not taken for one that broke the protocol.
pub fn within<T>(reply: Option<Result<T, TransportError>>, timeout: Duration) -> (r: Result<
    T,
    TransportError,
>)
    ensures
        r == match reply {
            Some(result) => result,
            None => Err(TransportError::Unreachable(timeout)),
        },
{
    match reply {
        Some(result) => result,
        None => Err(TransportError::Unreachable(timeout)),
    }
}

/// An error is said with what it is about, and each kind in words of its own.
pub proof fn an_error_is_said_with_what_it_is_about(e: &TransportError, text: String)
    requires
        call_ensures(TransportError::message, (e,), text),
    ensures
        match *e {
            TransportError::Io(why) => text@ == "io: "@ + why@,
            TransportError::Connect(why) => text@ == "quic connect: "@ + why@,
            TransportError::Connection(why) => text@ == "quic connection: "@ + why@,
            TransportError::Write(why) => text@ == "quic write: "@ + why@,
            TransportError::Read(why) => text@ == "quic read: "@ + why@,
            TransportError::Rustls(why) => text@ == "rustls: "@ + why@,
            TransportError::Rcgen(why) => text@ == "rcgen: "@ + why@,
            TransportError::Noise(why) => text@ == "noise: "@ + noise_error_text(why),
            TransportError::BadHandshake => text@ == "malformed handshake message"@,
            TransportError::Unreachable(waited) => crate::text::occurs(
                text@,
                duration_text(waited),
            ),
        },
{
    if let TransportError::Unreachable(waited) = *e {
        let at = "no response within "@.len() as int;
        let shown = duration_text(waited);
        assert(text@.subrange(at, at + shown.len() as int) =~= shown);
        assert(crate::text::occurs_at(text@, shown, at));
    }
}

/// A stream ends where its bytes end or its socket fails, and not where the
/// protocol was broken or nothing answered.
pub proof fn a_stream_ends_with_its_bytes(e: &TransportError, ends: bool)
    requires
        call_ensures(TransportError::ends_stream, (e,), ends),
    ensures
        ends <==> *e is Read || *e is Io,
{
}

/// What came in time is what came of it, good or bad; nothing in time is
/// unreachable for just that time.
pub proof fn silence_is_unreachable<T>(
    reply: Option<Result<T, TransportError>>,
    timeout: Duration,
    r: Result<T, TransportError>,
)
    requires
        call_ensures(within::<T>, (reply, timeout), r),
    ensures
        reply is Some ==> r == reply->0,
        reply is None ==> r is Err && r->Err_0 is Unreachable && r->Err_0->Unreachable_0 == timeout,
{
}

} // verus!
