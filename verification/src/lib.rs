//! A relay of the Gotham mixnet.
//!
//! - [`process`] takes packets: what is dropped, forwarded or delivered
//! - [`replay`] remembers which packets were seen, across restarts too
//! - [`rate_limit`] caps what a relay and each of its sources may cost
//! - [`delay`] bounds how long packets are held
//! - [`client`] makes the packets that a sender ships
//! - [`cover_loop`] decides what leaves at each tick of cover traffic
//! - [`transport`] frames what goes over a link and decides what is served
//! - [`pool`] keeps outbound connections
//! - [`enroll_client`] announces a relay to the directory authorities
//! - [`doctor`] tells whether a relay is in use
//! - [`settings`] and [`keyfile`] read what the operator gives

pub mod addr;
pub mod bytes;
pub mod client;
pub mod clock;
pub mod cover_loop;
pub mod delay;
pub mod doctor;
pub mod enroll_client;
pub mod keyfile;
pub mod keys;
pub mod pool;
pub mod process;
pub mod rate_limit;
pub mod replay;
pub mod settings;
pub mod text;
pub mod transport;

pub use client::{ClientError, GothamClient, MAX_PAYLOAD_SIZE};
pub use cover_loop::{QueuedMessage, QueuedPacket};
pub use delay::PoissonScheduler;
pub use pool::ConnectionPool;
pub use process::{DropReason, ProcessOutcome, Relay};
pub use rate_limit::{RateDecision, RateLimiter, ThrottleReason};
pub use replay::{ReplayCache, ReplayCheck};
pub use transport::mailbox::{allow_unauthenticated_mailbox_fetch,
    set_allow_unauthenticated_mailbox_fetch};
pub use transport::TransportError;
