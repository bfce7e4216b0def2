//! Store-and-forward mailboxes: what a host does about each request.
//!
//! A fetch removes what it returns, and the address of a mailbox follows from
//! its owner's public key. Without proof that the requester holds the secret
//! key, anyone who was ever handed the public key could delete the owner's
//! messages. A fetch therefore carries such a proof, bound to the connection
//! or to the reply block it came with.

use crate::client::MAX_PAYLOAD_SIZE;
use crate::keys::{x25519, x25519_shared};
use vstd::prelude::*;

verus! {

/// Bytes drained in answer to a direct fetch.
pub const MAILBOX_FETCH_BUDGET: usize = 1_048_576;

/// Bytes drained in answer to a fetch through the mixnet. The reply has to fit
/// one packet, with room for its own framing.
pub const SURB_FETCH_BUDGET: usize = MAX_PAYLOAD_SIZE - 256;

/// Requests that are served on one connection.
///
/// The peer is not authenticated and drives the connection. This leaves ample
/// room to drain a full mailbox and makes a flooder pay for a handshake every
/// so often.
pub const MAX_MAILBOX_REQUESTS_PER_CONN: usize = 512;

/// Whether a host serves fetches without proof. Off unless the operator turns
/// it on for clients that cannot prove anything yet.
pub struct FetchPolicy {
    allow_unauthenticated: bool,
}

impl View for FetchPolicy {
    type V = bool;

    closed spec fn view(&self) -> bool {
        self.allow_unauthenticated
    }
}

impl FetchPolicy {
    /// The policy that refuses every fetch without proof.
    pub fn new() -> (policy: FetchPolicy)
        ensures
            !policy@,
    {
        FetchPolicy { allow_unauthenticated: false }
    }
}

/// Allows or forbids fetches without proof.
pub fn set_allow_unauthenticated_mailbox_fetch(policy: &mut FetchPolicy, yes: bool)
    ensures
        final(policy)@ == yes,
{
    policy.allow_unauthenticated = yes;
}

/// Whether fetches without proof are allowed.
pub fn allow_unauthenticated_mailbox_fetch(policy: &FetchPolicy) -> (yes: bool)
    ensures
        yes == policy@,
{
    policy.allow_unauthenticated
}

/// A proof of possession: the public key it is about, and the tag.
pub struct FetchProof<A> {
    /// The owner's public key.
    pub pk: [u8; 32],
    /// The tag that only the owner and the host can compute.
    pub tag: A,
}

/// A request to a mailbox host, with mailboxes named by `I`.
pub enum MailboxRequest<I, A> {
    /// Store a sealed message.
    Deposit {
        /// The mailbox.
        id: I,
        /// The sealed message.
        sealed: Vec<u8>,
        /// How long to keep it.
        ttl_secs: u64,
    },
    /// Hand out and remove messages.
    Fetch {
        /// The mailbox.
        id: I,
        /// Proof that the requester owns it.
        auth: Option<FetchProof<A>>,
    },
    /// Hand out and remove messages, and reply through the mixnet.
    FetchWithSurb {
        /// The mailbox.
        id: I,
        /// The single-use reply block.
        surb: Vec<u8>,
        /// Proof that the requester owns the mailbox.
        auth: Option<FetchProof<A>>,
    },
}

/// What a host answers where it does not serve a request.
#[derive(Debug, Copy, Clone, PartialEq, Eq, Structural)]
pub enum MailboxRefusal {
    /// The connection has used up its requests.
    RateLimited,
    /// The requester has not proved that it owns the mailbox.
    Unauthorized,
    /// The request does not parse or does not belong here.
    Malformed,
}

/// What a host does about a request on a direct connection.
pub enum MailboxStep<I> {
    /// Store a message and say how that went.
    Deposit {
        /// The mailbox.
        id: I,
        /// The sealed message.
        sealed: Vec<u8>,
        /// How long to keep it.
        ttl_secs: u64,
    },
    /// Drain up to this many bytes and send them.
    Drain {
        /// The mailbox.
        id: I,
        /// How much to drain at most.
        budget: usize,
        /// Whether ownership was proved. Without it the operator is warned.
        proven: bool,
    },
    /// Answer with a refusal.
    Refuse(MailboxRefusal),
    /// Answer with a refusal if the connection still takes it, and close.
    Close(MailboxRefusal),
}

/// Whether `step` is what a host does about a request on a direct connection
/// on which `served` requests have been served. `shared` and `verify` stand
/// for the check of a proof: `verify` is handed the tag, the secret that the
/// host shares with the owner, the hash that binds the connection, and the
/// mailbox.
pub open spec fn mailbox_step<I, A, V>(
    served: nat,
    sk: Seq<u8>,
    binding: Vec<u8>,
    allow: bool,
    request: Option<MailboxRequest<I, A>>,
    verify: V,
    step: MailboxStep<I>,
) -> bool where V: FnOnce(A, [u8; 32], &Vec<u8>, I) -> bool {
    if served >= MAX_MAILBOX_REQUESTS_PER_CONN {
        step == MailboxStep::<I>::Close(MailboxRefusal::RateLimited)
    } else {
        match request {
            Some(MailboxRequest::Deposit { id, sealed, ttl_secs }) => step
                == (MailboxStep::Deposit { id, sealed, ttl_secs }),
            Some(MailboxRequest::Fetch { id, auth: Some(proof) }) => exists|
                shared: [u8; 32],
                good: bool,
            |
                #![trigger call_ensures(verify, (proof.tag, shared, &binding, id), good)]
                {
                    &&& shared@ == x25519_shared(sk, proof.pk@)
                    &&& call_ensures(verify, (proof.tag, shared, &binding, id), good)
                    &&& step == if good {
                        MailboxStep::Drain { id, budget: MAILBOX_FETCH_BUDGET, proven: true }
                    } else {
                        MailboxStep::Refuse(MailboxRefusal::Unauthorized)
                    }
                },
            Some(MailboxRequest::Fetch { id, auth: None }) => step == if allow {
                MailboxStep::Drain { id, budget: MAILBOX_FETCH_BUDGET, proven: false }
            } else {
                MailboxStep::Refuse(MailboxRefusal::Unauthorized)
            },
            Some(MailboxRequest::FetchWithSurb { .. }) => step == MailboxStep::<I>::Refuse(
                MailboxRefusal::Malformed,
            ),
            None => step == MailboxStep::<I>::Refuse(MailboxRefusal::Malformed),
        }
    }
}

/// One direct connection to a mailbox host.
pub struct MailboxSession {
    static_sk: [u8; 32],
    binding: Vec<u8>,
    allow_unauthenticated: bool,
    served: usize,
}

impl MailboxSession {
    /// How many requests have been served.
    pub closed spec fn requests_served(self) -> nat {
        self.served as nat
    }

    /// The host's secret key.
    pub closed spec fn secret(self) -> Seq<u8> {
        self.static_sk@
    }

    /// The hash that binds the connection.
    pub closed spec fn bound_to(self) -> Vec<u8> {
        self.binding
    }

    /// Whether fetches without proof are served.
    pub closed spec fn allows_unauthenticated(self) -> bool {
        self.allow_unauthenticated
    }

    /// No more requests have been served than a connection may make.
    pub open spec fn wf(self) -> bool {
        self.requests_served() <= MAX_MAILBOX_REQUESTS_PER_CONN
    }

    /// A connection on which nothing has been served, with the hash of its
    /// handshake.
    pub fn new(static_sk: [u8; 32], binding: Vec<u8>, allow_unauthenticated: bool) -> (session:
        MailboxSession)
        ensures
            session.wf(),
            session.requests_served() == 0,
            session.secret() == static_sk@,
            session.bound_to() == binding,
            session.allows_unauthenticated() == allow_unauthenticated,
    {
        MailboxSession { static_sk, binding, allow_unauthenticated, served: 0 }
    }

    /// Decides what to do about the next request; `None` stands for one that
    /// does not parse. `verify` checks a proof.
    ///
    /// A proof that is there is checked even where none is needed, and a bad
    /// one is refused. A fetch through the mixnet makes no sense on a
    /// connection whose client is in plain sight, and is refused too.
    pub fn on_request<I, A, V>(
        &mut self,
        request: Option<MailboxRequest<I, A>>,
        verify: V,
    ) -> (step: MailboxStep<I>) where I: Copy, V: FnOnce(A, [u8; 32], &Vec<u8>, I) -> bool
        requires
            old(self).wf(),
            forall|tag: A, shared: [u8; 32], binding: &Vec<u8>, id: I| #[trigger]
                call_requires(verify, (tag, shared, binding, id)),
        ensures
            final(self).wf(),
            mailbox_step(
                old(self).requests_served(),
                old(self).secret(),
                old(self).bound_to(),
                old(self).allows_unauthenticated(),
                request,
                verify,
                step,
            ),
            final(self).secret() == old(self).secret(),
            final(self).bound_to() == old(self).bound_to(),
            final(self).allows_unauthenticated() == old(self).allows_unauthenticated(),
            final(self).requests_served() == if old(self).requests_served()
                < MAX_MAILBOX_REQUESTS_PER_CONN {
                old(self).requests_served() + 1
            } else {
                old(self).requests_served()
            },
    {
        if self.served >= MAX_MAILBOX_REQUESTS_PER_CONN {
            return MailboxStep::Close(MailboxRefusal::RateLimited);
        }
        self.served = self.served + 1;
        match request {
            Some(MailboxRequest::Deposit { id, sealed, ttl_secs }) => MailboxStep::Deposit {
                id,
                sealed,
                ttl_secs,
            },
            Some(MailboxRequest::Fetch { id, auth }) => match auth {
                Some(proof) => {
                    let shared: [u8; 32] = x25519(self.static_sk, proof.pk);
                    let good: bool = verify(proof.tag, shared, &self.binding, id);
                    assert(call_ensures(verify, (proof.tag, shared, &self.binding, id), good));
                    if good {
                        MailboxStep::Drain { id, budget: MAILBOX_FETCH_BUDGET, proven: true }
                    } else {
                        MailboxStep::Refuse(MailboxRefusal::Unauthorized)
                    }
                },
                None => {
                    if self.allow_unauthenticated {
                        MailboxStep::Drain { id, budget: MAILBOX_FETCH_BUDGET, proven: false }
                    } else {
                        MailboxStep::Refuse(MailboxRefusal::Unauthorized)
                    }
                },
            },
            Some(MailboxRequest::FetchWithSurb { id: _, surb: _, auth: _ }) => MailboxStep::Refuse(
                MailboxRefusal::Malformed,
            ),
            None => MailboxStep::Refuse(MailboxRefusal::Malformed),
        }
    }
}

/// The only request that a host honours that takes deposits from the mixnet
/// alone: a fetch needs a reply, which a one-way packet cannot bring.
pub fn deposit_only<I, A>(request: Option<MailboxRequest<I, A>>) -> (r: Option<(I, Vec<u8>, u64)>)
    ensures
        r == match request {
            Some(MailboxRequest::Deposit { id, sealed, ttl_secs }) => Some((id, sealed, ttl_secs)),
            _ => None,
        },
{
    match request {
        Some(MailboxRequest::Deposit { id, sealed, ttl_secs }) => Some((id, sealed, ttl_secs)),
        _ => None,
    }
}

/// Why a fetch from the mixnet is passed over in silence.
#[derive(Debug, Copy, Clone, PartialEq, Eq, Structural)]
pub enum ServiceRefusal {
    /// It carries no proof.
    MissingProof,
    /// Its proof does not hold.
    BadProof,
    /// Its reply block does not parse.
    MalformedSurb,
}

/// What a host does about a request from the mixnet.
pub enum ServiceStep<I, B> {
    /// Store a message.
    Deposit {
        /// The mailbox.
        id: I,
        /// The sealed message.
        sealed: Vec<u8>,
        /// How long to keep it.
        ttl_secs: u64,
    },
    /// Drain up to this many bytes and reply along the block.
    Drain {
        /// The mailbox.
        id: I,
        /// The reply block.
        surb: B,
        /// How much to drain at most.
        budget: usize,
    },
    /// Pass over a fetch.
    Refuse(ServiceRefusal),
    /// Pass over anything else.
    Ignore,
}

/// Whether `step` is what a host does about a request from the mixnet.
/// `verify` is handed the tag, the secret that the host shares with the owner,
/// the reply block and the mailbox; `parse_surb` parses a reply block.
pub open spec fn service_step<I, A, B, V, P>(
    sk: Seq<u8>,
    request: Option<MailboxRequest<I, A>>,
    verify: V,
    parse_surb: P,
    step: ServiceStep<I, B>,
) -> bool where
    V: FnOnce(A, [u8; 32], &Vec<u8>, I) -> bool,
    P: FnOnce(&Vec<u8>) -> Option<B>,
 {
    match request {
        Some(MailboxRequest::Deposit { id, sealed, ttl_secs }) => step == (ServiceStep::<
            I,
            B,
        >::Deposit { id, sealed, ttl_secs }),
        Some(MailboxRequest::FetchWithSurb { id, surb, auth: None }) => step == ServiceStep::<
            I,
            B,
        >::Refuse(ServiceRefusal::MissingProof),
        Some(MailboxRequest::FetchWithSurb { id, surb, auth: Some(proof) }) => exists|
            shared: [u8; 32],
            good: bool,
        |
            #![trigger call_ensures(verify, (proof.tag, shared, &surb, id), good)]
            {
                &&& shared@ == x25519_shared(sk, proof.pk@)
                &&& call_ensures(verify, (proof.tag, shared, &surb, id), good)
                &&& if !good {
                    step == ServiceStep::<I, B>::Refuse(ServiceRefusal::BadProof)
                } else {
                    exists|block: Option<B>| #[trigger]
                        call_ensures(parse_surb, (&surb,), block) && step == match block {
                            Some(surb) => ServiceStep::Drain {
                                id,
                                surb,
                                budget: SURB_FETCH_BUDGET,
                            },
                            None => ServiceStep::Refuse(ServiceRefusal::MalformedSurb),
                        }
                }
            },
        _ => step == ServiceStep::<I, B>::Ignore,
    }
}

/// Decides what to do about a request from the mixnet; `None` stands for one
/// that does not parse.
///
/// The proof comes first: a fetch drains the mailbox. It is bound to the reply
/// block, so that a captured proof cannot be put onto a block that leads
/// elsewhere.
pub fn on_mixnet_request<I, A, B, V, P>(
    host_sk: &[u8; 32],
    request: Option<MailboxRequest<I, A>>,
    verify: V,
    parse_surb: P,
) -> (step: ServiceStep<I, B>) where
    I: Copy,
    V: FnOnce(A, [u8; 32], &Vec<u8>, I) -> bool,
    P: FnOnce(&Vec<u8>) -> Option<B>,

    requires
        forall|tag: A, shared: [u8; 32], surb: &Vec<u8>, id: I| #[trigger]
            call_requires(verify, (tag, shared, surb, id)),
        forall|surb: &Vec<u8>| #[trigger] call_requires(parse_surb, (surb,)),
    ensures
        service_step(host_sk@, request, verify, parse_surb, step),
{
    match request {
        Some(MailboxRequest::Deposit { id, sealed, ttl_secs }) => ServiceStep::Deposit {
            id,
            sealed,
            ttl_secs,
        },
        Some(MailboxRequest::FetchWithSurb { id, surb, auth }) => match auth {
            None => ServiceStep::Refuse(ServiceRefusal::MissingProof),
            Some(proof) => {
                let shared: [u8; 32] = x25519(*host_sk, proof.pk);
                let good: bool = verify(proof.tag, shared, &surb, id);
                assert(call_ensures(verify, (proof.tag, shared, &surb, id), good));
                if !good {
                    return ServiceStep::Refuse(ServiceRefusal::BadProof);
                }
                let block = parse_surb(&surb);
                assert(call_ensures(parse_surb, (&surb,), block));
                match block {
                    Some(surb) => ServiceStep::Drain { id, surb, budget: SURB_FETCH_BUDGET },
                    None => ServiceStep::Refuse(ServiceRefusal::MalformedSurb),
                }
            },
        },
        _ => ServiceStep::Ignore,
    }
}

/// Whether a drained batch is worth a reply. A reply with nothing in it would
/// still tell that someone asked after this mailbox.
pub fn worth_replying(batch: &Vec<Vec<u8>>) -> (reply: bool)
    ensures
        reply == (batch@.len() > 0),
{
    batch.len() > 0
}

/// What to put back into the mailbox after a reply was tried: nothing where it
/// was shipped, and the whole batch, in its order, where it was not.
pub fn to_redeposit(batch: Vec<Vec<u8>>, shipped: bool) -> (back: Vec<Vec<u8>>)
    ensures
        shipped ==> back@.len() == 0,
        !shipped ==> back == batch,
{
    if shipped {
        Vec::new()
    } else {
        batch
    }
}

/// A fetch on a direct connection never drains a mailbox without a proof that
/// holds, unless the operator allowed that and no proof was offered.
pub proof fn drains_are_proven<I, A, V>(
    served: nat,
    sk: Seq<u8>,
    binding: Vec<u8>,
    allow: bool,
    request: Option<MailboxRequest<I, A>>,
    verify: V,
    step: MailboxStep<I>,
) where V: FnOnce(A, [u8; 32], &Vec<u8>, I) -> bool
    requires
        mailbox_step(served, sk, binding, allow, request, verify, step),
        step is Drain,
    ensures
        request matches Some(MailboxRequest::Fetch { id, auth }) && match auth {
            Some(proof) => exists|shared: [u8; 32]|
                #![trigger call_ensures(verify, (proof.tag, shared, &binding, id), true)]
                shared@ == x25519_shared(sk, proof.pk@) && call_ensures(
                    verify,
                    (proof.tag, shared, &binding, id),
                    true,
                ),
            None => allow,
        },
{
}

/// A fetch from the mixnet never drains a mailbox without a proof that holds
/// for the very reply block that it carries.
pub proof fn mixnet_drains_are_proven<I, A, B, V, P>(
    sk: Seq<u8>,
    request: Option<MailboxRequest<I, A>>,
    verify: V,
    parse_surb: P,
    step: ServiceStep<I, B>,
) where V: FnOnce(A, [u8; 32], &Vec<u8>, I) -> bool, P: FnOnce(&Vec<u8>) -> Option<B>
    requires
        service_step(sk, request, verify, parse_surb, step),
        step is Drain,
    ensures
        request matches Some(MailboxRequest::FetchWithSurb { id, surb, auth }) && auth is Some
            && exists|shared: [u8; 32]|
            #![trigger call_ensures(verify, (auth->0.tag, shared, &surb, id), true)]
            shared@ == x25519_shared(sk, auth->0.pk@) && call_ensures(
                verify,
                (auth->0.tag, shared, &surb, id),
                true,
            ),
{
}

/// What is deposited is what was sent, whichever way it came: on a direct
/// connection that has requests left, and through the mixnet, a request to
/// deposit makes for a deposit into the mailbox that it names, of the bytes
/// that it carries, for the time that it asks. Both ways store the same, and so
/// does a host that takes nothing but deposits.
pub proof fn what_is_deposited_is_what_was_sent<I: Copy, A, B, V, W, P>(
    session: &mut MailboxSession,
    host_sk: &[u8; 32],
    id: I,
    sealed: Vec<u8>,
    ttl_secs: u64,
    verify: V,
    verify_surb: W,
    parse_surb: P,
    direct: MailboxStep<I>,
    mixed: ServiceStep<I, B>,
    only: Option<(I, Vec<u8>, u64)>,
) where
    V: FnOnce(A, [u8; 32], &Vec<u8>, I) -> bool,
    W: FnOnce(A, [u8; 32], &Vec<u8>, I) -> bool,
    P: FnOnce(&Vec<u8>) -> Option<B>,

    requires
        old(session).requests_served() < 512,
        call_ensures(
            MailboxSession::on_request::<I, A, V>,
            (session, Some(MailboxRequest::Deposit { id, sealed, ttl_secs }), verify),
            direct,
        ),
        call_ensures(
            on_mixnet_request::<I, A, B, W, P>,
            (
                host_sk,
                Some(MailboxRequest::Deposit { id, sealed, ttl_secs }),
                verify_surb,
                parse_surb,
            ),
            mixed,
        ),
        call_ensures(
            deposit_only::<I, A>,
            (Some(MailboxRequest::Deposit { id, sealed, ttl_secs }),),
            only,
        ),
    ensures
        direct is Deposit,
        direct->Deposit_id == id,
        direct->Deposit_sealed@ == sealed@,
        direct->Deposit_ttl_secs == ttl_secs,
        mixed is Deposit,
        mixed->Deposit_id == id,
        mixed->Deposit_sealed@ == sealed@,
        mixed->Deposit_ttl_secs == ttl_secs,
        only is Some,
        (only->0).0 == id,
        (only->0).1@ == sealed@,
        (only->0).2 == ttl_secs,
{
}

/// A host that takes nothing but deposits takes nothing but deposits.
pub proof fn nothing_but_deposits_is_taken<I, A>(
    request: Option<MailboxRequest<I, A>>,
    only: Option<(I, Vec<u8>, u64)>,
)
    requires
        call_ensures(deposit_only::<I, A>, (request,), only),
    ensures
        only is Some ==> request is Some && request->0 is Deposit,
{
}

/// What a request on a direct connection comes to, beside a deposit: a fetch
/// drains the mailbox that it names, up to a mebibyte, where the owner's tag
/// holds for this very connection and mailbox, or where it has no tag and the
/// operator allows that. Every other request is refused. A connection is closed
/// at its 513th request, and every one before counts.
pub proof fn a_direct_request_is_answered<I: Copy, A, V>(
    session: &mut MailboxSession,
    request: Option<MailboxRequest<I, A>>,
    verify: V,
    step: MailboxStep<I>,
) where V: FnOnce(A, [u8; 32], &Vec<u8>, I) -> bool
    requires
        call_ensures(MailboxSession::on_request::<I, A, V>, (session, request, verify), step),
    ensures
        old(session).requests_served() >= 512 ==> step == MailboxStep::<I>::Close(
            MailboxRefusal::RateLimited,
        ) && final(session).requests_served() == old(session).requests_served(),
        old(session).requests_served() < 512 ==> {
            let sk = old(session).secret();
            let binding = old(session).bound_to();
            &&& final(session).requests_served() == old(session).requests_served() + 1
            &&& !(step is Close)
            &&& step is Deposit ==> request is Some && request->0 is Deposit
            &&& request is None ==> step == MailboxStep::<I>::Refuse(MailboxRefusal::Malformed)
            &&& request matches Some(MailboxRequest::FetchWithSurb { .. }) ==> step
                == MailboxStep::<I>::Refuse(MailboxRefusal::Malformed)
            &&& request matches Some(MailboxRequest::Fetch { id, auth: None }) ==> {
                &&& old(session).allows_unauthenticated() ==> step is Drain && step->Drain_id == id
                    && step->budget == 1_048_576 && !step->proven
                &&& !old(session).allows_unauthenticated() ==> step == MailboxStep::<I>::Refuse(
                    MailboxRefusal::Unauthorized,
                )
            }
            &&& request matches Some(MailboxRequest::Fetch { id, auth: Some(proof) }) ==> exists|
                shared: [u8; 32],
                good: bool,
            |
                #![trigger call_ensures(verify, (proof.tag, shared, &binding, id), good)]
                {
                    &&& shared@ == x25519_shared(sk, proof.pk@)
                    &&& call_ensures(verify, (proof.tag, shared, &binding, id), good)
                    &&& good ==> step is Drain && step->Drain_id == id && step->budget == 1_048_576
                        && step->proven
                    &&& !good ==> step == MailboxStep::<I>::Refuse(MailboxRefusal::Unauthorized)
                }
        },
        final(session).secret() == old(session).secret(),
        final(session).bound_to() == old(session).bound_to(),
        final(session).allows_unauthenticated() == old(session).allows_unauthenticated(),
{
    if old(session).requests_served() < 512 {
        let sk = old(session).secret();
        let binding = old(session).bound_to();
        if let Some(MailboxRequest::Fetch { id, auth: Some(proof) }) = request {
            let (shared, good) = choose|shared: [u8; 32], good: bool|
                #![trigger call_ensures(verify, (proof.tag, shared, &binding, id), good)]
                {
                    &&& shared@ == x25519_shared(sk, proof.pk@)
                    &&& call_ensures(verify, (proof.tag, shared, &binding, id), good)
                    &&& step == if good {
                        MailboxStep::Drain { id, budget: MAILBOX_FETCH_BUDGET, proven: true }
                    } else {
                        MailboxStep::Refuse(MailboxRefusal::Unauthorized)
                    }
                };
            assert(call_ensures(verify, (proof.tag, shared, &binding, id), good));
        }
    }
}

/// What a request from the mixnet comes to, beside a deposit: a fetch with a
/// reply block drains the mailbox that it names, up to what one packet carries
/// back, along the block that it brought, where the owner's tag holds for that
/// very block and mailbox. Any other fetch is passed over, with its reason, and
/// so is everything else.
pub proof fn a_mixnet_request_is_answered<I: Copy, A, B, V, P>(
    host_sk: &[u8; 32],
    request: Option<MailboxRequest<I, A>>,
    verify: V,
    parse_surb: P,
    step: ServiceStep<I, B>,
) where V: FnOnce(A, [u8; 32], &Vec<u8>, I) -> bool, P: FnOnce(&Vec<u8>) -> Option<B>
    requires
        call_ensures(
            on_mixnet_request::<I, A, B, V, P>,
            (host_sk, request, verify, parse_surb),
            step,
        ),
    ensures
        step is Deposit ==> request is Some && request->0 is Deposit,
        request is None ==> step is Ignore,
        request matches Some(MailboxRequest::Fetch { .. }) ==> step is Ignore,
        request matches Some(MailboxRequest::FetchWithSurb { auth: None, .. }) ==> step
            == ServiceStep::<I, B>::Refuse(ServiceRefusal::MissingProof),
        request matches Some(MailboxRequest::FetchWithSurb { id, surb, auth: Some(proof) })
            ==> exists|shared: [u8; 32], good: bool|
            #![trigger call_ensures(verify, (proof.tag, shared, &surb, id), good)]
            {
                &&& shared@ == x25519_shared(host_sk@, proof.pk@)
                &&& call_ensures(verify, (proof.tag, shared, &surb, id), good)
                &&& !good ==> step == ServiceStep::<I, B>::Refuse(ServiceRefusal::BadProof)
                &&& good ==> exists|block: Option<B>| #[trigger]
                    call_ensures(parse_surb, (&surb,), block) && {
                        &&& block is None ==> step == ServiceStep::<I, B>::Refuse(
                            ServiceRefusal::MalformedSurb,
                        )
                        &&& block is Some ==> step is Drain && step->Drain_id == id && step->surb
                            == block->0 && step->budget == 1408
                    }
            },
{
    if let Some(MailboxRequest::FetchWithSurb { id, surb, auth: Some(proof) }) = request {
        let (shared, good) = choose|shared: [u8; 32], good: bool|
            #![trigger call_ensures(verify, (proof.tag, shared, &surb, id), good)]
            {
                &&& shared@ == x25519_shared(host_sk@, proof.pk@)
                &&& call_ensures(verify, (proof.tag, shared, &surb, id), good)
                &&& if !good {
                    step == ServiceStep::<I, B>::Refuse(ServiceRefusal::BadProof)
                } else {
                    exists|block: Option<B>| #[trigger]
                        call_ensures(parse_surb, (&surb,), block) && step == match block {
                            Some(surb) => ServiceStep::Drain {
                                id,
                                surb,
                                budget: SURB_FETCH_BUDGET,
                            },
                            None => ServiceStep::Refuse(ServiceRefusal::MalformedSurb),
                        }
                }
            };
        assert(call_ensures(verify, (proof.tag, shared, &surb, id), good));
    }
}

/// A connection starts with nothing served and keeps what it was opened with.
pub proof fn a_session_starts_unused(
    static_sk: [u8; 32],
    binding: Vec<u8>,
    allow_unauthenticated: bool,
    session: MailboxSession,
)
    requires
        call_ensures(MailboxSession::new, (static_sk, binding, allow_unauthenticated), session),
    ensures
        session.wf(),
        session.requests_served() == 0,
        session.secret() == static_sk@,
        session.bound_to()@ == binding@,
        session.allows_unauthenticated() == allow_unauthenticated,
{
}

/// No message is lost or doubled by a reply: a batch with something in it is
/// replied with, and what was drained is put back, all of it and in its order,
/// exactly where the reply was not shipped.
pub proof fn a_batch_is_shipped_or_put_back(
    batch: Vec<Vec<u8>>,
    shipped: bool,
    reply: bool,
    back: Vec<Vec<u8>>,
)
    requires
        call_ensures(worth_replying, (&batch,), reply),
        call_ensures(to_redeposit, (batch, shipped), back),
    ensures
        reply <==> batch@.len() > 0,
        shipped ==> back@.len() == 0,
        !shipped ==> back@.len() == batch@.len() && forall|i: int|
            0 <= i < batch@.len() ==> (#[trigger] back@[i])@ == batch@[i]@,
{
}

/// Fetches without proof are refused until the operator allows them, and what
/// the operator said last holds.
pub proof fn the_operator_decides_on_unproven_fetches(
    fresh: FetchPolicy,
    policy: &mut FetchPolicy,
    yes: bool,
    asked: &FetchPolicy,
    answer: bool,
)
    requires
        call_ensures(FetchPolicy::new, (), fresh),
        call_ensures(set_allow_unauthenticated_mailbox_fetch, (policy, yes), ()),
        call_ensures(allow_unauthenticated_mailbox_fetch, (asked,), answer),
    ensures
        asked@ == fresh@ ==> !answer,
        asked@ == final(policy)@ ==> answer == yes,
{
}

} // verus!
