//! Enrollment with the directory authorities.
//!
//! A relay announces itself to every authority it knows, and again on every
//! heartbeat, so that the network forms itself. A failure is never fatal: the
//! relay goes on forwarding packets and tries again.

use crate::clock::{duration_nanos, now_wall, unix_nanos, unix_secs, unix_secs_at, wall_read,
    NANOS_PER_SEC};
use crate::keyfile::{encode_hex, hex_key, hex_of, hex_reads_back, parse_hex_key, unhex};
use crate::keys::{x25519, x25519_shared};
use crate::text::{contains, copy_text, lowered, occurs, occurs_at, same_text, to_lower, trim,
    trim_slashes, trimmed, without_slashes};
use std::time::{Duration, SystemTime};
use vstd::prelude::*;

verus! {

/// How long a relay behind a rendezvous point waits before it first enrolls,
/// in seconds. The authority asks the rendezvous point about the tunnel, which
/// is being opened meanwhile.
pub const TUNNEL_GRACE_SECS: u64 = 3;

/// The first wait after a round that listed nothing, in seconds.
pub const FIRST_ENROLL_RETRY_SECS: u64 = 5;

/// The longest wait after a round that listed nothing, in seconds.
pub const FIRST_ENROLL_RETRY_MAX_SECS: u64 = 60;

/// The place of a relay on a path.
#[derive(Debug, Copy, Clone, PartialEq, Eq, Structural)]
pub enum RelayTier {
    /// The first hop.
    Entry,
    /// A middle hop, which sees neither the client nor the recipient.
    Mix,
    /// The last hop.
    Exit,
}

/// The tier that a name stands for. No name stands for the middle hop, the
/// safest for volunteers.
pub open spec fn tier_named(name: Seq<char>) -> Option<RelayTier> {
    if name == "entry"@ {
        Some(RelayTier::Entry)
    } else if name == "mix"@ || name == ""@ {
        Some(RelayTier::Mix)
    } else if name == "exit"@ {
        Some(RelayTier::Exit)
    } else {
        None
    }
}

/// Reads a tier, with white space around it and in capitals or not.
pub fn parse_tier(s: &str) -> (r: Result<RelayTier, String>)
    ensures
        match tier_named(lowered(trimmed(s@))) {
            Some(tier) => r == Ok::<RelayTier, String>(tier),
            None => r is Err && r->Err_0@ == "unknown tier `"@ + lowered(trimmed(s@))
                + "` — use entry|mix|exit"@,
        },
{
    let bare: String = trim(s);
    let name: String = to_lower(bare.as_str());
    if same_text(name.as_str(), "entry") {
        Ok(RelayTier::Entry)
    } else if same_text(name.as_str(), "mix") || same_text(name.as_str(), "") {
        Ok(RelayTier::Mix)
    } else if same_text(name.as_str(), "exit") {
        Ok(RelayTier::Exit)
    } else {
        Err(
            "unknown tier `".to_owned().concat(name.as_str()).concat("` — use entry|mix|exit"),
        )
    }
}

/// What enrollment needs to know.
pub struct EnrollConfig {
    /// Base URL of the first authority.
    pub authority_url: String,
    /// Base URLs of further authorities. Each is sent the same enrollment, so
    /// that what they attest adds up to a quorum.
    pub extra_authority_urls: Vec<String>,
    /// The address that peers reach this relay on.
    pub advertise_addr: String,
    /// This relay's X25519 public key, in hexadecimal.
    pub kem_pubkey_hex: String,
    /// The tier that the operator is willing to serve.
    pub tier: RelayTier,
    /// A bearer token that the operator was given.
    pub token: Option<String>,
    /// The country of the relay.
    pub country: Option<String>,
    /// The name of its operator.
    pub operator: Option<String>,
    /// The time between heartbeats.
    pub heartbeat: Duration,
    /// The key of the rendezvous point, in hexadecimal, for a relay that can
    /// be reached only through it.
    pub rendezvous: Option<String>,
    /// Whether this relay is willing to be a rendezvous point.
    pub rendezvous_capable: bool,
    /// Whether this relay hosts mailboxes.
    pub mailbox: bool,
    /// This relay's X25519 secret key.
    pub relay_sk: [u8; 32],
    /// The key of the first authority that possession is proved against, where
    /// the operator pinned it.
    pub authority_pop_pk: Option<[u8; 32]>,
}

/// What a relay sends an authority.
pub struct RelayEnrollment {
    /// The relay's X25519 public key, in hexadecimal.
    pub kem_pubkey_hex: String,
    /// The address that peers reach the relay on; empty for a relay behind a
    /// rendezvous point.
    pub addr: String,
    /// The tier that the relay serves.
    pub tier: RelayTier,
    /// The country of the relay.
    pub country: Option<String>,
    /// The name of its operator.
    pub operator: Option<String>,
    /// A number that grows from one enrollment to the next.
    pub seq: u64,
    /// The epoch that the authorities are asked to attest.
    pub attest_epoch: Option<u64>,
    /// The key of the rendezvous point, in hexadecimal.
    pub rendezvous: Option<String>,
    /// Whether the relay is willing to be a rendezvous point.
    pub rendezvous_capable: bool,
    /// Whether the relay hosts mailboxes.
    pub mailbox: bool,
    /// The proof that the relay holds its secret key, in hexadecimal.
    pub pop_proof: Option<String>,
}

/// An enrollment, once more.
fn copy_enrollment(e: &RelayEnrollment) -> (copy: RelayEnrollment)
    ensures
        copy == *e,
{
    RelayEnrollment {
        kem_pubkey_hex: e.kem_pubkey_hex.clone(),
        addr: e.addr.clone(),
        tier: e.tier,
        country: copy_text(&e.country),
        operator: copy_text(&e.operator),
        seq: e.seq,
        attest_epoch: e.attest_epoch,
        rendezvous: copy_text(&e.rendezvous),
        rendezvous_capable: e.rendezvous_capable,
        mailbox: e.mailbox,
        pop_proof: copy_text(&e.pop_proof),
    }
}

/// Whether `e` is what every authority is sent for this number and epoch,
/// before the proof that is its own. A relay behind a rendezvous point
/// advertises no address.
pub open spec fn is_base_enrollment(
    cfg: EnrollConfig,
    seq: u64,
    epoch: u64,
    e: RelayEnrollment,
) -> bool {
    &&& e.kem_pubkey_hex == cfg.kem_pubkey_hex
    &&& e.addr@ == if cfg.rendezvous is Some {
        Seq::empty()
    } else {
        cfg.advertise_addr@
    }
    &&& e.tier == cfg.tier
    &&& e.country == cfg.country
    &&& e.operator == cfg.operator
    &&& e.seq == seq
    &&& e.attest_epoch == Some(epoch)
    &&& e.rendezvous == cfg.rendezvous
    &&& e.rendezvous_capable == cfg.rendezvous_capable
    &&& e.mailbox == cfg.mailbox
    &&& e.pop_proof is None
}

/// The enrollment that every authority is sent, without a proof.
pub fn base_enrollment(cfg: &EnrollConfig, seq: u64, epoch: u64) -> (e: RelayEnrollment)
    ensures
        is_base_enrollment(*cfg, seq, epoch, e),
{
    let addr: String = if cfg.rendezvous.is_some() {
        String::new()
    } else {
        cfg.advertise_addr.clone()
    };
    RelayEnrollment {
        kem_pubkey_hex: cfg.kem_pubkey_hex.clone(),
        addr,
        tier: cfg.tier,
        country: copy_text(&cfg.country),
        operator: copy_text(&cfg.operator),
        seq,
        attest_epoch: Some(epoch),
        rendezvous: copy_text(&cfg.rendezvous),
        rendezvous_capable: cfg.rendezvous_capable,
        mailbox: cfg.mailbox,
        pop_proof: None,
    }
}

/// Whether `proven` is `e` with the proof for the authority whose key is
/// `pop_pk`: the tag, in hexadecimal, that `tag` computes from the secret
/// shared with the authority over the whole of `e`. A relay whose own key is
/// malformed cannot prove anything, and sends `e` as it is.
pub open spec fn is_proven<T>(
    e: RelayEnrollment,
    cfg: EnrollConfig,
    pop_pk: Seq<u8>,
    tag: T,
    proven: RelayEnrollment,
) -> bool where T: FnOnce(&[u8; 32], &RelayEnrollment) -> Vec<u8> {
    if hex_key(cfg.kem_pubkey_hex@) is None {
        proven == e
    } else {
        exists|shared: [u8; 32], bytes: Vec<u8>|
            #![trigger call_ensures(tag, (&shared, &e), bytes)]
            {
                &&& shared@ == x25519_shared(cfg.relay_sk@, pop_pk)
                &&& call_ensures(tag, (&shared, &e), bytes)
                &&& proven.pop_proof is Some
                &&& proven.pop_proof->0@ == hex_of(bytes@)
                &&& proven == (RelayEnrollment { pop_proof: proven.pop_proof, ..e })
            }
    }
}

/// Attaches the proof of possession for one authority. It covers the whole
/// enrollment, so that nothing of it can be changed on the way, and is
/// therefore attached last.
pub fn attach_pop_proof<T>(
    e: RelayEnrollment,
    cfg: &EnrollConfig,
    pop_pk: [u8; 32],
    tag: T,
) -> (proven: RelayEnrollment) where T: FnOnce(&[u8; 32], &RelayEnrollment) -> Vec<u8>
    requires
        forall|shared: &[u8; 32], e: &RelayEnrollment| #[trigger] call_requires(tag, (shared, e)),
    ensures
        is_proven(e, *cfg, pop_pk@, tag, proven),
{
    if parse_hex_key(cfg.kem_pubkey_hex.as_str()).is_none() {
        return e;
    }
    let shared: [u8; 32] = x25519(cfg.relay_sk, pop_pk);
    let bytes: Vec<u8> = tag(&shared, &e);
    assert(call_ensures(tag, (&shared, &e), bytes));
    let mut proven = e;
    proven.pop_proof = Some(encode_hex(bytes.as_slice()));
    proven
}

/// One authority that a relay enrolls with.
pub struct AuthorityTarget {
    /// Its base URL.
    pub base_url: String,
    /// Where enrollments are sent.
    pub enroll_url: String,
    /// The key that possession is proved against, once known.
    pub pop_pk: Option<[u8; 32]>,
    /// Whether the operator pinned that key.
    pub pinned: bool,
}

/// Whether `t` stands for the authority at `url` with this pinned key, if any.
pub open spec fn is_target(url: Seq<char>, pinned: Option<[u8; 32]>, t: AuthorityTarget) -> bool {
    &&& t.base_url@ == without_slashes(url)
    &&& t.enroll_url@ == without_slashes(url) + "/enroll"@
    &&& t.pop_pk == pinned
    &&& t.pinned == pinned is Some
}

/// The authority at `url`.
fn target(url: &str, pinned: Option<[u8; 32]>) -> (t: AuthorityTarget)
    ensures
        is_target(url@, pinned, t),
{
    let base_url: String = trim_slashes(url);
    let enroll_url: String = base_url.clone().concat("/enroll");
    AuthorityTarget { base_url, enroll_url, pop_pk: pinned, pinned: pinned.is_some() }
}

/// The URL of an authority's proof key.
pub fn pop_url(base_url: &str) -> (url: String)
    ensures
        url@ == without_slashes(base_url@) + "/pop"@,
{
    trim_slashes(base_url).concat("/pop")
}

/// What an authority answered to an enrollment.
pub enum EnrollReply {
    /// It took it.
    Accepted,
    /// It refused it, with these words.
    Rejected(String),
    /// Nothing came back.
    Failed,
}

/// How far enrollment has come.
pub ghost struct EnrollState {
    /// The authorities.
    pub targets: Seq<AuthorityTarget>,
    /// The number of the next enrollment.
    pub seq: nat,
    /// Whether some authority has ever taken one.
    pub settled: bool,
    /// The next wait after a round that listed nothing, in seconds.
    pub retry_secs: nat,
    /// Whether some authority took one in this round.
    pub any_ok: bool,
}

/// The enrollment of a relay, round after round. In each, every authority is
/// sent the same number and epoch.
pub struct EnrollLoop {
    targets: Vec<AuthorityTarget>,
    seq: u64,
    settled: bool,
    retry_secs: u64,
    any_ok: bool,
}

impl View for EnrollLoop {
    type V = EnrollState;

    closed spec fn view(&self) -> EnrollState {
        EnrollState {
            targets: self.targets@,
            seq: self.seq as nat,
            settled: self.settled,
            retry_secs: self.retry_secs as nat,
            any_ok: self.any_ok,
        }
    }
}

/// The state after an authority answered.
pub open spec fn after_reply(s: EnrollState, i: int, reply: EnrollReply) -> EnrollState {
    match reply {
        EnrollReply::Accepted => EnrollState { any_ok: true, ..s },
        EnrollReply::Rejected(body) => if !s.targets[i].pinned && occurs(
            body@,
            "possession proof"@,
        ) {
            EnrollState {
                targets: s.targets.update(i, AuthorityTarget { pop_pk: None, ..s.targets[i] }),
                ..s
            }
        } else {
            s
        },
        EnrollReply::Failed => s,
    }
}

/// The state after a round.
pub open spec fn after_round(s: EnrollState) -> EnrollState {
    let settled = s.settled || s.any_ok;
    EnrollState {
        targets: s.targets,
        seq: if s.seq < u64::MAX {
            s.seq + 1
        } else {
            s.seq
        },
        settled,
        retry_secs: if settled {
            s.retry_secs
        } else if s.retry_secs * 2 <= FIRST_ENROLL_RETRY_MAX_SECS {
            s.retry_secs * 2
        } else {
            FIRST_ENROLL_RETRY_MAX_SECS as nat
        },
        any_ok: false,
    }
}

/// How long to wait after a round, in nanoseconds: the heartbeat once some
/// authority has taken an enrollment, and less before, because until then the
/// relay is of no use.
pub open spec fn wait_after(s: EnrollState, heartbeat: nat) -> nat {
    if s.settled || s.any_ok {
        heartbeat
    } else {
        s.retry_secs * NANOS_PER_SEC as nat
    }
}

impl EnrollLoop {
    /// The wait after a failed round is bounded.
    pub open spec fn wf(self) -> bool {
        self@.retry_secs <= FIRST_ENROLL_RETRY_MAX_SECS
    }

    /// Enrollment with the authorities of `cfg`, the first with its pinned key
    /// and every other with none. The numbers begin with the wall clock, so
    /// that a relay that restarts begins above where it stopped.
    pub fn new(cfg: &EnrollConfig, now_unix: u64) -> (enroll: EnrollLoop)
        ensures
            enroll.wf(),
            enroll@.seq == now_unix,
            !enroll@.settled,
            !enroll@.any_ok,
            enroll@.retry_secs == FIRST_ENROLL_RETRY_SECS,
            enroll@.targets.len() == 1 + cfg.extra_authority_urls@.len(),
            is_target(cfg.authority_url@, cfg.authority_pop_pk, enroll@.targets[0]),
            forall|i: int|
                #![trigger cfg.extra_authority_urls@[i]]
                0 <= i < cfg.extra_authority_urls@.len() ==> is_target(
                    cfg.extra_authority_urls@[i]@,
                    None,
                    enroll@.targets[i + 1],
                ),
    {
        let mut targets: Vec<AuthorityTarget> = Vec::new();
        targets.push(target(cfg.authority_url.as_str(), cfg.authority_pop_pk));
        let mut i: usize = 0;
        while i < cfg.extra_authority_urls.len()
            invariant
                i <= cfg.extra_authority_urls@.len(),
                targets@.len() == i + 1,
                is_target(cfg.authority_url@, cfg.authority_pop_pk, targets@[0]),
                forall|j: int|
                    #![trigger cfg.extra_authority_urls@[j]]
                    0 <= j < i ==> is_target(
                        cfg.extra_authority_urls@[j]@,
                        None,
                        targets@[j + 1],
                    ),
            decreases cfg.extra_authority_urls@.len() - i,
        {
            let ghost before = targets@;
            targets.push(target(cfg.extra_authority_urls[i].as_str(), None));
            assert forall|j: int|
                #![trigger cfg.extra_authority_urls@[j]]
                0 <= j < i + 1 implies is_target(
                cfg.extra_authority_urls@[j]@,
                None,
                targets@[j + 1],
            ) by {
                if j < i {
                    assert(targets@[j + 1] == before[j + 1]);
                }
            }
            i = i + 1;
        }
        EnrollLoop {
            targets,
            seq: now_unix,
            settled: false,
            retry_secs: FIRST_ENROLL_RETRY_SECS,
            any_ok: false,
        }
    }

    /// How many authorities there are.
    pub fn authorities(&self) -> (n: usize)
        ensures
            n == self@.targets.len(),
    {
        self.targets.len()
    }

    /// The number of the next enrollment.
    pub fn seq(&self) -> (seq: u64)
        ensures
            seq == self@.seq,
    {
        self.seq
    }

    /// The `i`-th authority.
    pub fn authority(&self, i: usize) -> (t: &AuthorityTarget)
        requires
            i < self@.targets.len(),
        ensures
            *t == self@.targets[i as int],
    {
        &self.targets[i]
    }

    /// Whether the proof key of the `i`-th authority has yet to be fetched.
    pub fn needs_pop_key(&self, i: usize) -> (needs: bool)
        requires
            i < self@.targets.len(),
        ensures
            needs == (self@.targets[i as int].pop_pk is None),
    {
        self.targets[i].pop_pk.is_none()
    }

    /// Takes what fetching the proof key of the `i`-th authority gave.
    pub fn fetched_pop_key(&mut self, i: usize, key: Option<[u8; 32]>)
        requires
            old(self).wf(),
            i < old(self)@.targets.len(),
            old(self)@.targets[i as int].pop_pk is None,
        ensures
            final(self).wf(),
            final(self)@ == (EnrollState {
                targets: old(self)@.targets.update(
                    i as int,
                    AuthorityTarget { pop_pk: key, ..old(self)@.targets[i as int] },
                ),
                ..old(self)@
            }),
    {
        let ghost before = self@.targets;
        self.targets[i].pop_pk = key;
        assert(self@.targets =~= before.update(
            i as int,
            AuthorityTarget { pop_pk: key, ..before[i as int] },
        ));
    }

    /// What to send the `i`-th authority: the enrollment that all are sent,
    /// with the proof for this one where its key is known.
    pub fn enrollment_for<T>(
        &self,
        i: usize,
        cfg: &EnrollConfig,
        base: &RelayEnrollment,
        tag: T,
    ) -> (e: RelayEnrollment) where T: FnOnce(&[u8; 32], &RelayEnrollment) -> Vec<u8>
        requires
            i < self@.targets.len(),
            forall|shared: &[u8; 32], e: &RelayEnrollment| #[trigger]
                call_requires(tag, (shared, e)),
        ensures
            match self@.targets[i as int].pop_pk {
                Some(key) => is_proven(*base, *cfg, key@, tag, e),
                None => e == *base,
            },
    {
        let copy: RelayEnrollment = copy_enrollment(base);
        match self.targets[i].pop_pk {
            Some(key) => attach_pop_proof(copy, cfg, key, tag),
            None => copy,
        }
    }

    /// Takes what the `i`-th authority answered. A proof key that was fetched
    /// is forgotten where the authority refused the proof, and fetched again
    /// in the next round; one that was pinned is kept.
    pub fn on_reply(&mut self, i: usize, reply: EnrollReply)
        requires
            old(self).wf(),
            i < old(self)@.targets.len(),
        ensures
            final(self).wf(),
            final(self)@ == after_reply(old(self)@, i as int, reply),
    {
        let ghost before = self@.targets;
        match reply {
            EnrollReply::Accepted => {
                self.any_ok = true;
            },
            EnrollReply::Rejected(body) => {
                if !self.targets[i].pinned && contains(body.as_str(), "possession proof") {
                    self.targets[i].pop_pk = None;
                    assert(self@.targets =~= before.update(
                        i as int,
                        AuthorityTarget { pop_pk: None, ..before[i as int] },
                    ));
                }
            },
            EnrollReply::Failed => {},
        }
    }

    /// Ends the round and says how long to wait before the next.
    pub fn end_round(&mut self, cfg: &EnrollConfig) -> (wait: Duration)
        requires
            old(self).wf(),
        ensures
            final(self).wf(),
            final(self)@ == after_round(old(self)@),
            duration_nanos(wait) == wait_after(old(self)@, duration_nanos(cfg.heartbeat)),
    {
        self.seq = self.seq.saturating_add(1);
        if self.any_ok {
            self.settled = true;
        }
        self.any_ok = false;
        if self.settled {
            return cfg.heartbeat;
        }
        let wait: Duration = Duration::from_secs(self.retry_secs);
        self.retry_secs = if self.retry_secs * 2 <= FIRST_ENROLL_RETRY_MAX_SECS {
            self.retry_secs * 2
        } else {
            FIRST_ENROLL_RETRY_MAX_SECS
        };
        wait
    }
}

/// How long to wait before the first round.
pub fn first_wait(cfg: &EnrollConfig) -> (wait: Duration)
    ensures
        duration_nanos(wait) == if cfg.rendezvous is Some {
            TUNNEL_GRACE_SECS * NANOS_PER_SEC
        } else {
            0
        },
{
    if cfg.rendezvous.is_some() {
        Duration::from_secs(TUNNEL_GRACE_SECS)
    } else {
        Duration::from_secs(0)
    }
}

/// The wall clock in whole seconds since the Unix epoch; one for a clock set
/// before it.
pub fn now_unix() -> (secs: u64)
    ensures
        exists|t: SystemTime|
            #[trigger] wall_read(t) && secs == if unix_nanos(t) < 0 {
                1
            } else {
                unix_secs(t)
            },
{
    let t: SystemTime = now_wall();
    unix_secs_at(t, 1)
}

/// The numbers of enrollments grow from round to round for as long as a `u64`
/// can count, so that none is taken for a repetition of an earlier one.
pub proof fn numbers_grow(s: EnrollState)
    requires
        s.seq < u64::MAX,
    ensures
        after_round(s).seq > s.seq,
{
}

/// The state after rounds in each of which some authority took an enrollment
/// or none did.
pub open spec fn after_rounds(s: EnrollState, taken: Seq<bool>) -> EnrollState
    decreases taken.len(),
{
    if taken.len() == 0 {
        s
    } else {
        after_round(
            EnrollState { any_ok: taken.last(), ..after_rounds(s, taken.drop_last()) },
        )
    }
}

/// How long was waited after those rounds, in nanoseconds.
pub open spec fn waited(s: EnrollState, taken: Seq<bool>, heartbeat: nat) -> nat
    decreases taken.len(),
{
    if taken.len() == 0 {
        0
    } else {
        waited(s, taken.drop_last(), heartbeat) + wait_after(
            EnrollState { any_ok: taken.last(), ..after_rounds(s, taken.drop_last()) },
            heartbeat,
        )
    }
}

/// The numbers do not outrun the clock: each round takes up one number and at
/// least one second, so that a relay which stops after some rounds and begins
/// anew with the seconds of the clock begins above every number it has used.
pub proof fn numbers_do_not_outrun_the_clock(
    s: EnrollState,
    taken: Seq<bool>,
    heartbeat: nat,
)
    requires
        FIRST_ENROLL_RETRY_SECS <= s.retry_secs <= FIRST_ENROLL_RETRY_MAX_SECS,
        s.seq + taken.len() <= u64::MAX,
        heartbeat >= NANOS_PER_SEC,
    ensures
        after_rounds(s, taken).seq == s.seq + taken.len(),
        taken.len() * NANOS_PER_SEC <= waited(s, taken, heartbeat),
        FIRST_ENROLL_RETRY_SECS <= after_rounds(s, taken).retry_secs
            <= FIRST_ENROLL_RETRY_MAX_SECS,
    decreases taken.len(),
{
    if taken.len() > 0 {
        numbers_do_not_outrun_the_clock(s, taken.drop_last(), heartbeat);
    }
}

/// A pinned key outlasts whatever an authority answers and whatever is
/// fetched: nothing that this relay does replaces it.
pub proof fn pinned_keys_are_kept(s: EnrollState, i: int, j: int, reply: EnrollReply)
    requires
        0 <= i < s.targets.len(),
        0 <= j < s.targets.len(),
        s.targets[j].pinned,
    ensures
        after_reply(s, i, reply).targets[j] == s.targets[j],
        after_round(after_reply(s, i, reply)).targets[j] == s.targets[j],
{
}

/// Until a relay is listed the waits double from five seconds to a minute and
/// stay there; once it is listed it waits a heartbeat, and stays listed in its
/// own eyes.
pub proof fn waits_back_off(s: EnrollState, heartbeat: nat)
    requires
        FIRST_ENROLL_RETRY_SECS <= s.retry_secs <= FIRST_ENROLL_RETRY_MAX_SECS,
    ensures
        ({
            let next = after_round(s);
            &&& s.settled ==> next.settled && wait_after(s, heartbeat) == heartbeat
            &&& s.any_ok ==> next.settled
            &&& !next.settled ==> {
                &&& wait_after(s, heartbeat) == s.retry_secs * NANOS_PER_SEC
                &&& s.retry_secs <= next.retry_secs <= FIRST_ENROLL_RETRY_MAX_SECS
                &&& next.retry_secs == s.retry_secs ==> s.retry_secs
                    == FIRST_ENROLL_RETRY_MAX_SECS
            }
        }),
{
}

/// All authorities are sent one number and one epoch: whatever proof is
/// attached for one of them, the rest of the enrollment is what every other is
/// sent.
pub proof fn authorities_are_sent_the_same<T>(
    cfg: EnrollConfig,
    base: RelayEnrollment,
    key: Seq<u8>,
    tag: T,
    sent: RelayEnrollment,
) where T: FnOnce(&[u8; 32], &RelayEnrollment) -> Vec<u8>
    requires
        is_proven(base, cfg, key, tag, sent),
    ensures
        sent == (RelayEnrollment { pop_proof: sent.pop_proof, ..base }),
        sent.seq == base.seq,
        sent.attest_epoch == base.attest_epoch,
{
}

/// An enrollment tells an authority what the operator configured, and nothing
/// else: whatever authority it is for and whatever proof it carries, its key,
/// tier, country, operator, mailbox and rendezvous settings are those of the
/// configuration, its number and epoch those of the round, and its address the
/// one to advertise, or none for a relay behind a rendezvous point. The tier is
/// the one that the operator's own word was read as.
pub proof fn an_enrollment_tells_what_was_configured<T>(
    word: &str,
    tier: Result<RelayTier, String>,
    cfg: &EnrollConfig,
    seq: u64,
    epoch: u64,
    base: RelayEnrollment,
    rounds: &EnrollLoop,
    i: usize,
    tag: T,
    sent: RelayEnrollment,
) where T: FnOnce(&[u8; 32], &RelayEnrollment) -> Vec<u8>
    requires
        call_ensures(parse_tier, (word,), tier),
        tier == Ok::<RelayTier, String>(cfg.tier),
        call_ensures(base_enrollment, (cfg, seq, epoch), base),
        call_ensures(EnrollLoop::enrollment_for::<T>, (rounds, i, cfg, &base, tag), sent),
    ensures
        sent.tier == cfg.tier,
        Ok::<RelayTier, String>(sent.tier) == tier,
        sent.tier == RelayTier::Entry <==> lowered(trimmed(word@)) == "entry"@,
        sent.tier == RelayTier::Exit <==> lowered(trimmed(word@)) == "exit"@,
        sent.kem_pubkey_hex@ == cfg.kem_pubkey_hex@,
        cfg.rendezvous is None ==> sent.addr@ == cfg.advertise_addr@,
        cfg.rendezvous is Some ==> sent.addr@.len() == 0,
        sent.country == cfg.country,
        sent.operator == cfg.operator,
        sent.rendezvous == cfg.rendezvous,
        sent.rendezvous_capable == cfg.rendezvous_capable,
        sent.mailbox == cfg.mailbox,
        sent.seq == seq,
        sent.attest_epoch == Some(epoch),
        base.pop_proof is None,
{
    lemma_tier_words_differ();
    match rounds@.targets[i as int].pop_pk {
        Some(key) => {
            if hex_key(cfg.kem_pubkey_hex@) is Some {
                authorities_are_sent_the_same(*cfg, base, key@, tag, sent);
            }
        },
        None => {},
    }
}

/// The words for the tiers differ.
proof fn lemma_tier_words_differ()
    ensures
        "entry"@ != "exit"@,
        "entry"@ != "mix"@,
        "exit"@ != "mix"@,
        "entry"@ != ""@,
        "exit"@ != ""@,
        "mix"@ != ""@,
{
    reveal_strlit("entry");
    reveal_strlit("exit");
    reveal_strlit("mix");
    reveal_strlit("");
    assert("entry"@.len() == 5 && "exit"@.len() == 4 && "mix"@.len() == 3 && ""@.len() == 0);
}

/// Two configurations that differ in what the operator set are told apart by
/// the enrollments that they make.
pub proof fn configurations_are_told_apart(
    cfg: &EnrollConfig,
    other: &EnrollConfig,
    seq: u64,
    epoch: u64,
    e: RelayEnrollment,
    f: RelayEnrollment,
)
    requires
        call_ensures(base_enrollment, (cfg, seq, epoch), e),
        call_ensures(base_enrollment, (other, seq, epoch), f),
    ensures
        cfg.tier != other.tier ==> e.tier != f.tier,
        cfg.country != other.country ==> e.country != f.country,
        cfg.operator != other.operator ==> e.operator != f.operator,
        cfg.kem_pubkey_hex != other.kem_pubkey_hex ==> e.kem_pubkey_hex != f.kem_pubkey_hex,
        cfg.mailbox != other.mailbox ==> e.mailbox != f.mailbox,
        cfg.rendezvous != other.rendezvous ==> e.rendezvous != f.rendezvous,
        cfg.rendezvous_capable != other.rendezvous_capable ==> e.rendezvous_capable
            != f.rendezvous_capable,
        cfg.rendezvous is None && other.rendezvous is None && cfg.advertise_addr@
            != other.advertise_addr@ ==> e.addr@ != f.addr@,
{
}

/// A tier is read from its word, with white space around it and in capitals or
/// not; no word at all stands for the middle hop, and any other is refused and
/// named.
pub proof fn a_tier_is_read_from_its_word(word: &str, r: Result<RelayTier, String>)
    requires
        call_ensures(parse_tier, (word,), r),
    ensures
        ({
            let bare = lowered(trimmed(word@));
            &&& bare == "entry"@ <==> r == Ok::<RelayTier, String>(RelayTier::Entry)
            &&& bare == "exit"@ <==> r == Ok::<RelayTier, String>(RelayTier::Exit)
            &&& bare == "mix"@ || bare == ""@ <==> r == Ok::<RelayTier, String>(RelayTier::Mix)
            &&& r matches Err(why) ==> occurs(why@, bare)
        }),
{
    lemma_tier_words_differ();
    let bare = lowered(trimmed(word@));
    if let Err(why) = r {
        let at = "unknown tier `"@.len() as int;
        assert(why@.subrange(at, at + bare.len() as int) =~= bare);
        assert(occurs_at(why@, bare, at));
    }
}

/// The proof that is attached for an authority is the tag over the whole
/// enrollment, with the secret that the relay shares with that authority, in
/// hexadecimal. Nothing else changes. A relay whose own key is malformed proves
/// nothing.
pub proof fn a_proof_is_over_the_whole_enrollment<T>(
    e: RelayEnrollment,
    cfg: &EnrollConfig,
    pop_pk: [u8; 32],
    tag: T,
    proven: RelayEnrollment,
) where T: FnOnce(&[u8; 32], &RelayEnrollment) -> Vec<u8>
    requires
        call_ensures(attach_pop_proof::<T>, (e, cfg, pop_pk, tag), proven),
    ensures
        proven == (RelayEnrollment { pop_proof: proven.pop_proof, ..e }),
        hex_key(cfg.kem_pubkey_hex@) is None ==> proven.pop_proof == e.pop_proof,
        hex_key(cfg.kem_pubkey_hex@) is Some ==> proven.pop_proof is Some && exists|
            shared: [u8; 32],
            bytes: Vec<u8>,
        |
            #![trigger call_ensures(tag, (&shared, &e), bytes)]
            {
                &&& shared@ == x25519_shared(cfg.relay_sk@, pop_pk@)
                &&& call_ensures(tag, (&shared, &e), bytes)
                &&& unhex(proven.pop_proof->0@) == bytes@
            },
{
    if hex_key(cfg.kem_pubkey_hex@) is Some {
        let (shared, bytes) = choose|shared: [u8; 32], bytes: Vec<u8>|
            #![trigger call_ensures(tag, (&shared, &e), bytes)]
            {
                &&& shared@ == x25519_shared(cfg.relay_sk@, pop_pk@)
                &&& call_ensures(tag, (&shared, &e), bytes)
                &&& proven.pop_proof is Some
                &&& proven.pop_proof->0@ == hex_of(bytes@)
                &&& proven == (RelayEnrollment { pop_proof: proven.pop_proof, ..e })
            };
        hex_reads_back(bytes@);
        assert(call_ensures(tag, (&shared, &e), bytes));
    }
}

/// An authority is sent a proof exactly where its key is known, and the same
/// enrollment as every other where it is not.
pub proof fn a_proof_needs_the_key<T>(
    rounds: &EnrollLoop,
    i: usize,
    cfg: &EnrollConfig,
    base: &RelayEnrollment,
    tag: T,
    sent: RelayEnrollment,
    needs: bool,
    target: &AuthorityTarget,
) where T: FnOnce(&[u8; 32], &RelayEnrollment) -> Vec<u8>
    requires
        base.pop_proof is None,
        hex_key(cfg.kem_pubkey_hex@) is Some,
        call_ensures(EnrollLoop::enrollment_for::<T>, (rounds, i, cfg, base, tag), sent),
        call_ensures(EnrollLoop::needs_pop_key, (rounds, i), needs),
        call_ensures(EnrollLoop::authority, (rounds, i), target),
    ensures
        *target == rounds@.targets[i as int],
        needs <==> rounds@.targets[i as int].pop_pk is None,
        sent.pop_proof is Some <==> !needs,
        needs ==> sent == *base,
{
}

/// Enrollment begins with every authority that the operator named, in order,
/// the first with its pinned key; its numbers begin with the clock, its waits
/// with five seconds.
pub proof fn enrollment_begins_with_all_authorities(
    cfg: &EnrollConfig,
    now_unix: u64,
    rounds: EnrollLoop,
    n: usize,
    seq: u64,
)
    requires
        call_ensures(EnrollLoop::new, (cfg, now_unix), rounds),
        call_ensures(EnrollLoop::authorities, (&rounds,), n),
        call_ensures(EnrollLoop::seq, (&rounds,), seq),
    ensures
        rounds.wf(),
        n == 1 + cfg.extra_authority_urls@.len(),
        seq == now_unix,
        rounds@.retry_secs == 5,
        !rounds@.settled,
        !rounds@.any_ok,
        rounds@.targets.len() == n,
        rounds@.targets[0].base_url@ == without_slashes(cfg.authority_url@),
        rounds@.targets[0].enroll_url@ == without_slashes(cfg.authority_url@) + "/enroll"@,
        rounds@.targets[0].pop_pk == cfg.authority_pop_pk,
        rounds@.targets[0].pinned <==> cfg.authority_pop_pk is Some,
        forall|i: int|
            #![trigger cfg.extra_authority_urls@[i]]
            0 <= i < cfg.extra_authority_urls@.len() ==> {
                let t = rounds@.targets[i + 1];
                &&& t.base_url@ == without_slashes(cfg.extra_authority_urls@[i]@)
                &&& t.enroll_url@ == without_slashes(cfg.extra_authority_urls@[i]@) + "/enroll"@
                &&& t.pop_pk is None
                &&& !t.pinned
            },
{
}

/// An authority is itself: what is asked of it and fetched for it stays with
/// it, and with no other.
pub proof fn a_fetched_key_is_its_own(
    rounds: &mut EnrollLoop,
    i: usize,
    key: Option<[u8; 32]>,
    other: int,
)
    requires
        i < old(rounds)@.targets.len(),
        0 <= other < old(rounds)@.targets.len(),
        call_ensures(EnrollLoop::fetched_pop_key, (rounds, i, key), ()),
    ensures
        final(rounds)@.targets.len() == old(rounds)@.targets.len(),
        final(rounds)@.targets[i as int].pop_pk == key,
        final(rounds)@.targets[i as int].base_url == old(rounds)@.targets[i as int].base_url,
        final(rounds)@.targets[i as int].enroll_url == old(rounds)@.targets[i as int].enroll_url,
        final(rounds)@.targets[i as int].pinned == old(rounds)@.targets[i as int].pinned,
        other != i ==> final(rounds)@.targets[other] == old(rounds)@.targets[other],
        final(rounds)@.seq == old(rounds)@.seq,
        final(rounds)@.settled == old(rounds)@.settled,
        final(rounds)@.any_ok == old(rounds)@.any_ok,
        final(rounds)@.retry_secs == old(rounds)@.retry_secs,
{
}

/// What an answer does: an enrollment that was taken lists the relay in this
/// round; a refusal of the proof has a key fetched anew that was not pinned; and
/// nothing else changes anything.
pub proof fn an_answer_is_taken_as_it_is(rounds: &mut EnrollLoop, i: usize, reply: EnrollReply)
    requires
        i < old(rounds)@.targets.len(),
        call_ensures(EnrollLoop::on_reply, (rounds, i, reply), ()),
    ensures
        final(rounds)@.any_ok <==> old(rounds)@.any_ok || reply is Accepted,
        final(rounds)@.seq == old(rounds)@.seq,
        final(rounds)@.settled == old(rounds)@.settled,
        final(rounds)@.retry_secs == old(rounds)@.retry_secs,
        ({
            let was = old(rounds)@.targets[i as int];
            let now = final(rounds)@.targets[i as int];
            let refused = reply matches EnrollReply::Rejected(body) && occurs(
                body@,
                "possession proof"@,
            );
            &&& now.base_url == was.base_url
            &&& now.enroll_url == was.enroll_url
            &&& now.pinned == was.pinned
            &&& refused && !was.pinned ==> now.pop_pk is None
            &&& !refused || was.pinned ==> now.pop_pk == was.pop_pk
        }),
        final(rounds)@.targets.len() == old(rounds)@.targets.len(),
        forall|j: int|
            0 <= j < old(rounds)@.targets.len() && j != i ==> #[trigger] final(rounds)@.targets[j]
                == old(rounds)@.targets[j],
{
}

/// How a round ends: with the next number, and with a wait. Once some authority
/// has ever taken an enrollment, the wait is the heartbeat. Before, it is what
/// was due, and twice that is due next, up to a minute.
pub proof fn a_round_ends_with_a_wait(
    rounds: &mut EnrollLoop,
    cfg: &EnrollConfig,
    wait: Duration,
)
    requires
        call_ensures(EnrollLoop::end_round, (rounds, cfg), wait),
    ensures
        old(rounds)@.seq < u64::MAX ==> final(rounds)@.seq == old(rounds)@.seq + 1,
        old(rounds)@.seq >= u64::MAX ==> final(rounds)@.seq == old(rounds)@.seq,
        final(rounds)@.targets == old(rounds)@.targets,
        !final(rounds)@.any_ok,
        final(rounds)@.settled <==> old(rounds)@.settled || old(rounds)@.any_ok,
        final(rounds)@.settled ==> duration_nanos(wait) == duration_nanos(cfg.heartbeat)
            && final(rounds)@.retry_secs == old(rounds)@.retry_secs,
        !final(rounds)@.settled ==> duration_nanos(wait) == old(rounds)@.retry_secs
            * 1_000_000_000,
        !final(rounds)@.settled && old(rounds)@.retry_secs <= 30 ==> final(rounds)@.retry_secs == 2
            * old(rounds)@.retry_secs,
        !final(rounds)@.settled && old(rounds)@.retry_secs > 30 ==> final(rounds)@.retry_secs == 60,
{
}

/// A relay behind a rendezvous point waits three seconds for its tunnel before
/// it first enrolls, and any other does not wait.
pub proof fn a_tunnel_is_waited_for(cfg: &EnrollConfig, wait: Duration)
    requires
        call_ensures(first_wait, (cfg,), wait),
    ensures
        cfg.rendezvous is Some ==> duration_nanos(wait) == 3_000_000_000,
        cfg.rendezvous is None ==> duration_nanos(wait) == 0,
{
}

/// The key of an authority is published beside its enrollment point.
pub proof fn keys_are_published_beside(base_url: &str, url: String)
    requires
        call_ensures(pop_url, (base_url,), url),
    ensures
        url@ == without_slashes(base_url@) + "/pop"@,
{
}

/// Numbers begin with the seconds since the epoch, and with one where the clock
/// is set before it.
pub proof fn numbers_begin_with_the_clock(secs: u64)
    requires
        call_ensures(now_unix, (), secs),
    ensures
        exists|t: SystemTime|
            #[trigger] wall_read(t) && {
                &&& unix_nanos(t) < 0 ==> secs == 1
                &&& unix_nanos(t) >= 0 ==> secs * 1_000_000_000 <= unix_nanos(t) < (secs + 1)
                    * 1_000_000_000
            },
{
    let t = choose|t: SystemTime|
        #[trigger] wall_read(t) && secs == if unix_nanos(t) < 0 {
            1
        } else {
            unix_secs(t)
        };
    assert(wall_read(t));
    if unix_nanos(t) >= 0 {
        vstd::arithmetic::div_mod::lemma_fundamental_div_mod(unix_nanos(t), NANOS_PER_SEC as int);
        vstd::arithmetic::div_mod::lemma_mod_bound(unix_nanos(t), NANOS_PER_SEC as int);
    }
}

} // verus!
