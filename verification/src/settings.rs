//! The operator's settings: what is accepted, what is refused and with which
//! words, and the relay list that a directory is signed over.
//!
//! Reading files, parsing socket addresses and asking a router are handed in
//! by the caller.

use crate::bytes::to_array32;
use crate::enroll_client::RelayTier;
use crate::keyfile::{decode_hex, hex_key, is_hex, parse_hex_key};
use crate::text::{characters, copy_text, find_char, occurs, occurs_at, same_text, text_of, trim,
    trimmed};
use vstd::prelude::*;

verus! {

/// The shortest time between two rounds of gossip, in seconds.
pub const MIN_GOSSIP_INTERVAL_SECS: u64 = 5;

/// The shortest time between two heartbeats, in seconds.
pub const MIN_HEARTBEAT_SECS: u64 = 1;

/// A number of seconds, but at least `least`.
pub fn at_least(secs: u64, least: u64) -> (r: u64)
    ensures
        r == if secs < least {
            least
        } else {
            secs
        },
{
    if secs < least {
        least
    } else {
        secs
    }
}

/// The address to listen on, from a numeric host and a port. `parse` parses an
/// IP address. Names are not resolved: relays address each other by IP.
pub fn parse_listen_addr<A, P>(host: &str, port: u16, parse: P) -> (r: Result<(A, u16), String>) where
    P: FnOnce(&String) -> Option<A>,

    requires
        forall|text: &String| #[trigger] call_requires(parse, (text,)),
    ensures
        exists|text: String, ip: Option<A>|
            #![trigger call_ensures(parse, (&text,), ip)]
            {
                &&& text@ == trimmed(host@)
                &&& call_ensures(parse, (&text,), ip)
                &&& match ip {
                    Some(ip) => r == Ok::<(A, u16), String>((ip, port)),
                    None => r is Err && r->Err_0@
                        == "--listen-host must be a numeric IP (v4/v6), got `"@ + host@ + "`"@,
                }
            },
{
    let text: String = trim(host);
    let ip = parse(&text);
    assert(call_ensures(parse, (&text,), ip));
    match ip {
        Some(ip) => Ok((ip, port)),
        None => Err(
            "--listen-host must be a numeric IP (v4/v6), got `".to_owned().concat(host).concat("`"),
        ),
    }
}

/// Where peers are told to reach a relay.
pub enum Advertise {
    /// Nowhere: it is reached through a rendezvous point.
    Nowhere,
    /// At this address.
    At(String),
    /// At the address that the router gives.
    AskRouter,
}

/// Decides where peers are told to reach a relay: nowhere for one behind a
/// rendezvous point, at the address that was given, which must parse, and
/// otherwise at what the router gives, unless it may not be asked.
pub fn plan_advertise<P>(
    behind_rendezvous: bool,
    given: Option<String>,
    no_upnp: bool,
    parses: P,
) -> (r: Result<Advertise, String>) where P: FnOnce(&String) -> bool
    requires
        forall|text: &String| #[trigger] call_requires(parses, (text,)),
    ensures
        if behind_rendezvous {
            r == Ok::<Advertise, String>(Advertise::Nowhere)
        } else {
            match given {
                Some(addr) => exists|good: bool| #[trigger]
                    call_ensures(parses, (&addr,), good) && if good {
                        r == Ok::<Advertise, String>(Advertise::At(addr))
                    } else {
                        r is Err && r->Err_0@ == "--advertise-addr must be ip:port, got `"@ + addr@
                            + "`"@
                    },
                None => if no_upnp {
                    r is Err && r->Err_0@
                        == "--advertise-addr is required with --authority-url (UPnP disabled via --no-upnp)"@
                } else {
                    r == Ok::<Advertise, String>(Advertise::AskRouter)
                },
            }
        },
{
    if behind_rendezvous {
        return Ok(Advertise::Nowhere);
    }
    match given {
        Some(addr) => {
            let good: bool = parses(&addr);
            assert(call_ensures(parses, (&addr,), good));
            if good {
                Ok(Advertise::At(addr))
            } else {
                Err(
                    "--advertise-addr must be ip:port, got `".to_owned().concat(
                        addr.as_str(),
                    ).concat("`"),
                )
            }
        },
        None => {
            if no_upnp {
                Err(
                    "--advertise-addr is required with --authority-url (UPnP disabled via --no-upnp)".to_owned(),
                )
            } else {
                Ok(Advertise::AskRouter)
            }
        },
    }
}

/// Whether `r` is the rendezvous point that a key and an address stand for.
pub open spec fn rendezvous_dialed<A, P>(
    key: Option<String>,
    addr: Option<String>,
    parse: P,
    r: Result<Option<(A, [u8; 32])>, String>,
) -> bool where P: FnOnce(&String) -> Option<A> {
    match (key, addr) {
        (None, None) => r is Ok && r->Ok_0 is None,
        (Some(k), Some(a)) => match hex_key(k@) {
            None => r is Err && r->Err_0@ == "--rendezvous-key must be 32-byte hex"@,
            Some(pk) => exists|dial: Option<A>| #[trigger]
                call_ensures(parse, (&a,), dial) && match dial {
                    None => r is Err && r->Err_0@ == "--rendezvous-addr must be ip:port"@,
                    Some(dial) => r is Ok && r->Ok_0 is Some && (r->Ok_0->0).0 == dial
                        && (r->Ok_0->0).1@ == pk,
                },
        },
        _ => r is Err && r->Err_0@
            == "--rendezvous-key and --rendezvous-addr must be set together"@,
    }
}

/// The rendezvous point to dial, if one is set: its key and its address are
/// set together or not at all. A relay that is reached only through one cannot
/// offer to be one.
pub fn rendezvous_dial<A, P>(
    key: &Option<String>,
    addr: &Option<String>,
    capable: bool,
    parse: P,
) -> (r: Result<Option<(A, [u8; 32])>, String>) where P: FnOnce(&String) -> Option<A>
    requires
        forall|text: &String| #[trigger] call_requires(parse, (text,)),
    ensures
        if key is Some && capable {
            r is Err && r->Err_0@
                == "--rendezvous-key and --rendezvous-capable are mutually exclusive"@
        } else {
            rendezvous_dialed(*key, *addr, parse, r)
        },
{
    if key.is_some() && capable {
        return Err(
            "--rendezvous-key and --rendezvous-capable are mutually exclusive".to_owned(),
        );
    }
    match (key, addr) {
        (None, None) => Ok(None),
        (Some(k), Some(a)) => {
            let pk: [u8; 32] = match parse_hex_key(k.as_str()) {
                Some(pk) => pk,
                None => {
                    return Err("--rendezvous-key must be 32-byte hex".to_owned());
                },
            };
            let dial = parse(a);
            assert(call_ensures(parse, (a,), dial));
            match dial {
                Some(dial) => Ok(Some((dial, pk))),
                None => Err("--rendezvous-addr must be ip:port".to_owned()),
            }
        },
        _ => Err("--rendezvous-key and --rendezvous-addr must be set together".to_owned()),
    }
}

/// What a relay offers over gossip.
#[derive(Debug, Copy, Clone, PartialEq, Eq, Structural)]
pub enum Capabilities {
    /// To be a first hop.
    Entry,
    /// To be a middle hop.
    Mix,
    /// To be a last hop.
    Exit,
    /// To be any hop.
    All,
}

/// The capabilities that a name stands for.
pub open spec fn capabilities_named(name: Seq<char>) -> Option<Capabilities> {
    if name == "entry"@ {
        Some(Capabilities::Entry)
    } else if name == "mix"@ {
        Some(Capabilities::Mix)
    } else if name == "exit"@ {
        Some(Capabilities::Exit)
    } else if name == "all"@ {
        Some(Capabilities::All)
    } else {
        None
    }
}

/// The capabilities that a name stands for.
fn parse_capabilities(name: &str) -> (r: Option<Capabilities>)
    ensures
        r == capabilities_named(name@),
{
    if same_text(name, "entry") {
        Some(Capabilities::Entry)
    } else if same_text(name, "mix") {
        Some(Capabilities::Mix)
    } else if same_text(name, "exit") {
        Some(Capabilities::Exit)
    } else if same_text(name, "all") {
        Some(Capabilities::All)
    } else {
        None
    }
}

/// Where `@` first stands in a text, or the end of it.
pub open spec fn split_point(s: Seq<char>) -> int
    decreases s.len(),
{
    if s.len() == 0 || s[0] == '@' {
        0
    } else {
        1 + split_point(s.drop_first())
    }
}

/// The first `@` is where it was found.
proof fn lemma_split_point(s: Seq<char>, at: int)
    requires
        0 <= at <= s.len(),
        forall|i: int| 0 <= i < at ==> s[i] != '@',
        at < s.len() ==> s[at] == '@',
    ensures
        split_point(s) == at,
    decreases s.len(),
{
    if at > 0 {
        let rest = s.drop_first();
        assert forall|i: int| 0 <= i < at - 1 implies rest[i] != '@' by {
            assert(rest[i] == s[i + 1]);
        }
        lemma_split_point(rest, at - 1);
    }
}

/// Whether `r` is what a gossip seed stands for: an address and a key, written
/// `address@key`.
pub open spec fn seed_parsed<A, P>(seed: Seq<char>, parse: P, r: Result<(A, [u8; 32]), String>) -> bool where
    P: Fn(&String) -> Option<A>,
 {
    let at = split_point(seed);
    if at >= seed.len() {
        r is Err && r->Err_0@ == "--gossip-seed `"@ + seed + "` must be ip:port@<kem-hex>"@
    } else {
        let kem = seed.skip(at + 1);
        exists|text: String, addr: Option<A>|
            #![trigger call_ensures(parse, (&text,), addr)]
            {
                &&& text@ == seed.take(at)
                &&& call_ensures(parse, (&text,), addr)
                &&& match addr {
                    None => r is Err && r->Err_0@ == "bad --gossip-seed addr `"@ + seed.take(at)
                        + "`"@,
                    Some(addr) => if !is_hex(kem) {
                        r is Err && r->Err_0@ == "--gossip-seed kem is not hex"@
                    } else if kem.len() != 64 {
                        r is Err && r->Err_0@ == "--gossip-seed kem must be 32 bytes"@
                    } else {
                        r is Ok && r->Ok_0.0 == addr && hex_key(kem) == Some(r->Ok_0.1@)
                    },
                }
            }
    }
}

/// Reads a gossip seed.
pub fn parse_gossip_seed<A, P>(seed: &str, parse: &P) -> (r: Result<(A, [u8; 32]), String>) where
    P: Fn(&String) -> Option<A>,

    requires
        forall|text: &String| #[trigger] call_requires(*parse, (text,)),
    ensures
        seed_parsed(seed@, *parse, r),
{
    let chars: Vec<char> = characters(seed);
    let at: usize = match find_char(&chars, '@') {
        Some(at) => at,
        None => {
            proof {
                lemma_split_point(seed@, seed@.len() as int);
            }
            return Err(
                "--gossip-seed `".to_owned().concat(seed).concat("` must be ip:port@<kem-hex>"),
            );
        },
    };
    proof {
        lemma_split_point(seed@, at as int);
    }
    let text: String = text_of(&chars, 0, at);
    assert(text@ =~= seed@.take(at as int));
    let addr = parse(&text);
    assert(call_ensures(*parse, (&text,), addr));
    let addr: A = match addr {
        Some(addr) => addr,
        None => {
            return Err("bad --gossip-seed addr `".to_owned().concat(text.as_str()).concat("`"));
        },
    };
    let end: usize = chars.len();
    let kem: String = text_of(&chars, at + 1, end);
    assert(kem@ =~= seed@.skip(at + 1));
    match decode_hex(kem.as_str()) {
        Some(bytes) => {
            if bytes.len() == 32 {
                Ok((addr, to_array32(bytes.as_slice())))
            } else {
                Err("--gossip-seed kem must be 32 bytes".to_owned())
            }
        },
        None => Err("--gossip-seed kem is not hex".to_owned()),
    }
}

/// Whether a gossip seed can stand for an address and a key.
pub open spec fn seed_is_good<A, P>(seed: Seq<char>, parse: P) -> bool where
    P: Fn(&String) -> Option<A>,
 {
    exists|r: Result<(A, [u8; 32]), String>| r is Ok && #[trigger] seed_parsed(seed, parse, r)
}

/// Whether `r` is what gossip seeds stand for, or what is said of the first
/// that stands for nothing.
pub open spec fn seeds_parsed<A, P>(
    seeds: Seq<String>,
    parse: P,
    r: Result<Vec<(A, [u8; 32])>, String>,
) -> bool where P: Fn(&String) -> Option<A> {
    match r {
        Ok(peers) => peers@.len() == seeds.len() && forall|i: int|
            0 <= i < seeds.len() ==> seed_parsed(
                (#[trigger] seeds[i])@,
                parse,
                Ok::<(A, [u8; 32]), String>(peers@[i]),
            ),
        Err(why) => exists|i: int|
            0 <= i < seeds.len() && seed_parsed(
                (#[trigger] seeds[i])@,
                parse,
                Err::<(A, [u8; 32]), String>(why),
            ) && forall|j: int| 0 <= j < i ==> seed_is_good::<A, P>((#[trigger] seeds[j])@, parse),
    }
}

/// Reads gossip seeds.
fn parse_gossip_seeds<A, P>(seeds: &Vec<String>, parse: &P) -> (r: Result<
    Vec<(A, [u8; 32])>,
    String,
>) where P: Fn(&String) -> Option<A>
    requires
        forall|text: &String| #[trigger] call_requires(*parse, (text,)),
    ensures
        seeds_parsed(seeds@, *parse, r),
{
    let mut peers: Vec<(A, [u8; 32])> = Vec::new();
    let mut i: usize = 0;
    while i < seeds.len()
        invariant
            i <= seeds@.len(),
            peers@.len() == i,
            forall|text: &String| #[trigger] call_requires(*parse, (text,)),
            forall|j: int|
                0 <= j < i ==> seed_parsed(
                    (#[trigger] seeds@[j])@,
                    *parse,
                    Ok::<(A, [u8; 32]), String>(peers@[j]),
                ),
        decreases seeds@.len() - i,
    {
        let parsed = parse_gossip_seed(seeds[i].as_str(), parse);
        assert(seed_parsed(seeds@[i as int]@, *parse, parsed));
        match parsed {
            Ok(peer) => {
                let ghost before = peers@;
                peers.push(peer);
                assert forall|j: int| 0 <= j < i + 1 implies seed_parsed(
                    (#[trigger] seeds@[j])@,
                    *parse,
                    Ok::<(A, [u8; 32]), String>(peers@[j]),
                ) by {
                    if j < i {
                        assert(peers@[j] == before[j]);
                    }
                }
            },
            Err(why) => {
                assert forall|j: int| 0 <= j < i implies seed_is_good::<A, P>(
                    (#[trigger] seeds@[j])@,
                    *parse,
                ) by {
                    let known = Ok::<(A, [u8; 32]), String>(peers@[j]);
                    assert(seed_parsed(seeds@[j]@, *parse, known));
                }
                return Err(why);
            },
        }
        i = i + 1;
    }
    Ok(peers)
}

/// What a relay gossips with.
pub struct GossipPlan<A, K, S, C> {
    /// The address that it advertises.
    pub advertise: String,
    /// The key that it signs advertisements with.
    pub identity: K,
    /// The authorities that it believes.
    pub authorities: S,
    /// The certificate that admits it.
    pub admission: C,
    /// What it offers.
    pub capabilities: Capabilities,
    /// The peers that it begins with.
    pub bootstrap: Vec<(A, [u8; 32])>,
    /// Seconds between two rounds.
    pub interval_secs: u64,
}

/// Whether `r` is what the settings for gossip, all of them there, make. The
/// key, the authorities and the certificate are read in this order, and the
/// first that cannot be read is what is said.
pub open spec fn gossip_made<A, K, S, C, RK, RS, RC, P>(
    advertise: String,
    advert_key: String,
    admission_cert: String,
    authority_set: String,
    seeds: Seq<String>,
    caps: Seq<char>,
    interval_secs: u64,
    read_key: RK,
    read_set: RS,
    read_cert: RC,
    parse: P,
    r: Result<Option<GossipPlan<A, K, S, C>>, String>,
) -> bool where
    RK: FnOnce(String) -> Result<K, String>,
    RS: FnOnce(String) -> Result<S, String>,
    RC: FnOnce(String) -> Result<C, String>,
    P: Fn(&String) -> Option<A>,
 {
    exists|key: Result<K, String>| #[trigger]
        call_ensures(read_key, (advert_key,), key) && match key {
            Err(why) => r is Err && r->Err_0 == why,
            Ok(identity) => exists|set: Result<S, String>| #[trigger]
                call_ensures(read_set, (authority_set,), set) && match set {
                    Err(why) => r is Err && r->Err_0 == why,
                    Ok(authorities) => exists|cert: Result<C, String>| #[trigger]
                        call_ensures(read_cert, (admission_cert,), cert) && match cert {
                            Err(why) => r is Err && r->Err_0 == why,
                            Ok(admission) => match capabilities_named(caps) {
                                None => r is Err && r->Err_0@ == "unknown --gossip-caps `"@ + caps
                                    + "` (entry|mix|exit|all)"@,
                                Some(capabilities) => match r {
                                    Err(why) => seeds_parsed(
                                        seeds,
                                        parse,
                                        Err::<Vec<(A, [u8; 32])>, String>(why),
                                    ),
                                    Ok(None) => false,
                                    Ok(Some(plan)) => {
                                        &&& plan.advertise == advertise
                                        &&& plan.identity == identity
                                        &&& plan.authorities == authorities
                                        &&& plan.admission == admission
                                        &&& plan.capabilities == capabilities
                                        &&& seeds_parsed(
                                            seeds,
                                            parse,
                                            Ok::<Vec<(A, [u8; 32])>, String>(plan.bootstrap),
                                        )
                                        &&& plan.interval_secs == if interval_secs
                                            < MIN_GOSSIP_INTERVAL_SECS {
                                            MIN_GOSSIP_INTERVAL_SECS
                                        } else {
                                            interval_secs
                                        }
                                    },
                                },
                            },
                        },
                },
        }
}

/// Makes what a relay gossips with from the operator's settings; `None` where
/// gossip is off. A setting that is missing or malformed is refused with words
/// that name it rather than passed over.
pub fn build_gossip<A, K, S, C, RK, RS, RC, P>(
    enabled: bool,
    advertise_addr: Option<String>,
    advert_key: Option<String>,
    admission_cert: Option<String>,
    authority_set: Option<String>,
    gossip_seeds: &Vec<String>,
    gossip_caps: &str,
    interval_secs: u64,
    read_key: RK,
    read_set: RS,
    read_cert: RC,
    parse: P,
) -> (r: Result<Option<GossipPlan<A, K, S, C>>, String>) where
    RK: FnOnce(String) -> Result<K, String>,
    RS: FnOnce(String) -> Result<S, String>,
    RC: FnOnce(String) -> Result<C, String>,
    P: Fn(&String) -> Option<A>,

    requires
        forall|path: String| #[trigger] call_requires(read_key, (path,)),
        forall|path: String| #[trigger] call_requires(read_set, (path,)),
        forall|path: String| #[trigger] call_requires(read_cert, (path,)),
        forall|text: &String| #[trigger] call_requires(parse, (text,)),
    ensures
        if !enabled {
            r is Ok && r->Ok_0 is None
        } else if advertise_addr is None {
            r is Err && r->Err_0@ == "--advertise-addr is required with --gossip"@
        } else if advert_key is None {
            r is Err && r->Err_0@ == "--advert-key is required with --gossip"@
        } else if admission_cert is None {
            r is Err && r->Err_0@ == "--admission-cert is required with --gossip"@
        } else if authority_set is None {
            r is Err && r->Err_0@ == "--authority-set is required with --gossip"@
        } else {
            gossip_made(
                advertise_addr->0,
                advert_key->0,
                admission_cert->0,
                authority_set->0,
                gossip_seeds@,
                gossip_caps@,
                interval_secs,
                read_key,
                read_set,
                read_cert,
                parse,
                r,
            )
        },
{
    if !enabled {
        return Ok(None);
    }
    let advertise: String = match advertise_addr {
        Some(advertise) => advertise,
        None => {
            return Err("--advertise-addr is required with --gossip".to_owned());
        },
    };
    let key_path: String = match advert_key {
        Some(path) => path,
        None => {
            return Err("--advert-key is required with --gossip".to_owned());
        },
    };
    let cert_path: String = match admission_cert {
        Some(path) => path,
        None => {
            return Err("--admission-cert is required with --gossip".to_owned());
        },
    };
    let set_path: String = match authority_set {
        Some(path) => path,
        None => {
            return Err("--authority-set is required with --gossip".to_owned());
        },
    };
    let key = read_key(key_path);
    assert(call_ensures(read_key, (key_path,), key));
    let identity: K = match key {
        Ok(identity) => identity,
        Err(why) => {
            return Err(why);
        },
    };
    let set = read_set(set_path);
    assert(call_ensures(read_set, (set_path,), set));
    let authorities: S = match set {
        Ok(authorities) => authorities,
        Err(why) => {
            return Err(why);
        },
    };
    let cert = read_cert(cert_path);
    assert(call_ensures(read_cert, (cert_path,), cert));
    let admission: C = match cert {
        Ok(admission) => admission,
        Err(why) => {
            return Err(why);
        },
    };
    let capabilities: Capabilities = match parse_capabilities(gossip_caps) {
        Some(capabilities) => capabilities,
        None => {
            return Err(
                "unknown --gossip-caps `".to_owned().concat(gossip_caps).concat(
                    "` (entry|mix|exit|all)",
                ),
            );
        },
    };
    let bootstrap: Vec<(A, [u8; 32])> = match parse_gossip_seeds(gossip_seeds, &parse) {
        Ok(bootstrap) => bootstrap,
        Err(why) => {
            return Err(why);
        },
    };
    Ok(
        Some(
            GossipPlan {
                advertise,
                identity,
                authorities,
                admission,
                capabilities,
                bootstrap,
                interval_secs: at_least(interval_secs, MIN_GOSSIP_INTERVAL_SECS),
            },
        ),
    )
}

/// One relay of the list that a directory is signed over.
pub struct RelayEntry {
    /// The relay's public key, in hexadecimal.
    pub node_id_hex: String,
    /// Its address.
    pub addr: String,
    /// What it is for.
    pub capabilities: String,
    /// Its country.
    pub country: Option<String>,
    /// The number of its network.
    pub asn: Option<u32>,
    /// Its operator.
    pub operator: Option<String>,
    /// Whether it hosts mailboxes.
    pub mailbox: bool,
}

/// One relay of a directory.
pub struct RelayDescriptor {
    /// The relay's identity, in hexadecimal.
    pub id_pubkey_hex: String,
    /// Its X25519 public key, in hexadecimal.
    pub kem_pubkey_hex: String,
    /// Its address.
    pub addr: String,
    /// Its tier.
    pub tier: RelayTier,
    /// Its country.
    pub country: Option<String>,
    /// The number of its network.
    pub asn: Option<u32>,
    /// Its operator.
    pub operator: Option<String>,
    /// Whether it hosts mailboxes.
    pub mailbox: bool,
}

/// The tier of the `i`-th relay of a list. A relay that is for anything takes
/// the tiers in turn.
pub open spec fn tier_of(capabilities: Seq<char>, i: int) -> Option<RelayTier> {
    if capabilities == "entry"@ {
        Some(RelayTier::Entry)
    } else if capabilities == "mix"@ {
        Some(RelayTier::Mix)
    } else if capabilities == "exit"@ {
        Some(RelayTier::Exit)
    } else if capabilities == "all"@ || capabilities == ""@ {
        if i % 3 == 0 {
            Some(RelayTier::Entry)
        } else if i % 3 == 1 {
            Some(RelayTier::Mix)
        } else {
            Some(RelayTier::Exit)
        }
    } else {
        None
    }
}

/// Whether `d` describes the `i`-th relay of a list.
pub open spec fn describes(e: RelayEntry, i: int, d: RelayDescriptor) -> bool {
    &&& d.id_pubkey_hex == e.node_id_hex
    &&& d.kem_pubkey_hex == e.node_id_hex
    &&& d.addr == e.addr
    &&& tier_of(e.capabilities@, i) == Some(d.tier)
    &&& d.country == e.country
    &&& d.asn == e.asn
    &&& d.operator == e.operator
    &&& d.mailbox == e.mailbox
}

/// The tier of the `i`-th relay of a list.
fn entry_tier(capabilities: &str, i: usize) -> (r: Option<RelayTier>)
    ensures
        r == tier_of(capabilities@, i as int),
{
    if same_text(capabilities, "entry") {
        Some(RelayTier::Entry)
    } else if same_text(capabilities, "mix") {
        Some(RelayTier::Mix)
    } else if same_text(capabilities, "exit") {
        Some(RelayTier::Exit)
    } else if same_text(capabilities, "all") || same_text(capabilities, "") {
        if i % 3 == 0 {
            Some(RelayTier::Entry)
        } else if i % 3 == 1 {
            Some(RelayTier::Mix)
        } else {
            Some(RelayTier::Exit)
        }
    } else {
        None
    }
}

/// Describes the relays of a list for a directory. Fewer than three make no
/// mixnet, and a relay that is for something unknown is refused.
pub fn describe_relays(entries: &Vec<RelayEntry>) -> (r: Result<Vec<RelayDescriptor>, String>)
    ensures
        if entries@.len() < 3 {
            r is Err && r->Err_0@ == "need at least 3 relays for a working mixnet"@
        } else {
            match r {
                Ok(relays) => relays@.len() == entries@.len() && forall|i: int|
                    0 <= i < entries@.len() ==> describes(#[trigger] entries@[i], i, relays@[i]),
                Err(why) => exists|i: int|
                    {
                        &&& 0 <= i < entries@.len()
                        &&& tier_of((#[trigger] entries@[i]).capabilities@, i) is None
                        &&& why@ == "unknown capability `"@ + entries@[i].capabilities@
                            + "` — use entry|mix|exit|all"@
                        &&& forall|j: int|
                            0 <= j < i ==> tier_of(
                                (#[trigger] entries@[j]).capabilities@,
                                j,
                            ) is Some
                    },
            }
        },
{
    if entries.len() < 3 {
        return Err("need at least 3 relays for a working mixnet".to_owned());
    }
    let mut relays: Vec<RelayDescriptor> = Vec::with_capacity(entries.len());
    let mut i: usize = 0;
    while i < entries.len()
        invariant
            i <= entries@.len(),
            entries@.len() >= 3,
            relays@.len() == i,
            forall|j: int| 0 <= j < i ==> describes(#[trigger] entries@[j], j, relays@[j]),
        decreases entries@.len() - i,
    {
        let e: &RelayEntry = &entries[i];
        let tier: RelayTier = match entry_tier(e.capabilities.as_str(), i) {
            Some(tier) => tier,
            None => {
                assert(tier_of(entries@[i as int].capabilities@, i as int) is None);
                return Err(
                    "unknown capability `".to_owned().concat(e.capabilities.as_str()).concat(
                        "` — use entry|mix|exit|all",
                    ),
                );
            },
        };
        let ghost before = relays@;
        relays.push(
            RelayDescriptor {
                id_pubkey_hex: e.node_id_hex.clone(),
                kem_pubkey_hex: e.node_id_hex.clone(),
                addr: e.addr.clone(),
                tier,
                country: copy_text(&e.country),
                asn: e.asn,
                operator: copy_text(&e.operator),
                mailbox: e.mailbox,
            },
        );
        assert forall|j: int| 0 <= j < i + 1 implies describes(
            #[trigger] entries@[j],
            j,
            relays@[j],
        ) by {
            if j < i {
                assert(relays@[j] == before[j]);
            }
        }
        i = i + 1;
    }
    Ok(relays)
}

/// A number of seconds is kept where it is enough, and raised to the least that
/// is otherwise.
pub proof fn at_least_is_at_least(secs: u64, least: u64, r: u64)
    requires
        call_ensures(at_least, (secs, least), r),
    ensures
        r >= least,
        r >= secs,
        r == least || r == secs,
{
}

/// A relay listens on the host that it is given, without the white space around
/// it, and on the port that it is given. A host that is no address is named.
pub proof fn a_relay_listens_where_it_is_told<A, P>(
    host: &str,
    port: u16,
    parse: P,
    r: Result<(A, u16), String>,
) where P: FnOnce(&String) -> Option<A>
    requires
        call_ensures(parse_listen_addr::<A, P>, (host, port, parse), r),
    ensures
        exists|text: String, ip: Option<A>|
            #![trigger call_ensures(parse, (&text,), ip)]
            {
                &&& text@ == trimmed(host@)
                &&& call_ensures(parse, (&text,), ip)
                &&& ip is Some ==> r is Ok && r->Ok_0.0 == ip->0 && r->Ok_0.1 == port
                &&& ip is None ==> r is Err && occurs(r->Err_0@, host@)
            },
{
    let (text, ip) = choose|text: String, ip: Option<A>|
        #![trigger call_ensures(parse, (&text,), ip)]
        {
            &&& text@ == trimmed(host@)
            &&& call_ensures(parse, (&text,), ip)
            &&& match ip {
                Some(ip) => r == Ok::<(A, u16), String>((ip, port)),
                None => r is Err && r->Err_0@
                    == "--listen-host must be a numeric IP (v4/v6), got `"@ + host@ + "`"@,
            }
        };
    assert(call_ensures(parse, (&text,), ip));
    if ip is None {
        lemma_occurs_between(
            "--listen-host must be a numeric IP (v4/v6), got `"@,
            host@,
            "`"@,
        );
    }
}

/// A text occurs where it stands between two others.
proof fn lemma_occurs_between(before: Seq<char>, part: Seq<char>, after: Seq<char>)
    ensures
        occurs(before + part + after, part),
{
    let at = before.len() as int;
    let whole = before + part + after;
    assert(whole.subrange(at, at + part.len() as int) =~= part);
    assert(occurs_at(whole, part, at));
}

/// Peers are told to reach a relay at the address that was given, where it is
/// one. A relay behind a rendezvous point is told of nowhere, whatever was
/// given. Without an address the router is asked, unless that is forbidden.
pub proof fn peers_are_told_the_given_address<P>(
    behind_rendezvous: bool,
    given: Option<String>,
    no_upnp: bool,
    parses: P,
    r: Result<Advertise, String>,
) where P: FnOnce(&String) -> bool
    requires
        call_ensures(
            plan_advertise::<P>,
            (behind_rendezvous, given, no_upnp, parses),
            r,
        ),
    ensures
        r is Ok && r->Ok_0 is Nowhere <==> behind_rendezvous,
        r is Ok && r->Ok_0 is AskRouter <==> !behind_rendezvous && given is None && !no_upnp,
        !behind_rendezvous && given is None && no_upnp ==> r is Err,
        !behind_rendezvous ==> (given matches Some(addr) ==> exists|good: bool| #[trigger]
            call_ensures(parses, (&addr,), good) && {
                &&& good ==> r is Ok && r->Ok_0 is At && r->Ok_0->At_0@ == addr@
                &&& !good ==> r is Err && occurs(r->Err_0@, addr@)
            }),
{
    if !behind_rendezvous && given is Some {
        let addr = given->0;
        let good = choose|good: bool| #[trigger]
            call_ensures(parses, (&addr,), good) && if good {
                r == Ok::<Advertise, String>(Advertise::At(addr))
            } else {
                r is Err && r->Err_0@ == "--advertise-addr must be ip:port, got `"@ + addr@ + "`"@
            };
        assert(call_ensures(parses, (&addr,), good));
        if !good {
            lemma_occurs_between("--advertise-addr must be ip:port, got `"@, addr@, "`"@);
        }
    }
}

/// A rendezvous point is dialed at the address and with the key that were given,
/// both or neither, and only by a relay that is none itself.
pub proof fn a_rendezvous_point_is_dialed_as_given<A, P>(
    key: &Option<String>,
    addr: &Option<String>,
    capable: bool,
    parse: P,
    r: Result<Option<(A, [u8; 32])>, String>,
) where P: FnOnce(&String) -> Option<A>
    requires
        call_ensures(rendezvous_dial::<A, P>, (key, addr, capable, parse), r),
    ensures
        r is Ok && r->Ok_0 is None <==> key is None && addr is None,
        key is Some && capable ==> r is Err,
        (key is Some) != (addr is Some) ==> r is Err,
        key is Some && addr is Some && !capable ==> {
            &&& hex_key(key->0@) is None ==> r is Err
            &&& hex_key(key->0@) is Some ==> exists|dial: Option<A>| #[trigger]
                call_ensures(parse, (&addr->0,), dial) && {
                    &&& dial is None ==> r is Err
                    &&& dial is Some ==> r is Ok && r->Ok_0 is Some && (r->Ok_0->0).0 == dial->0
                        && (r->Ok_0->0).1@ == hex_key(key->0@)->0
                }
        },
{
    if key is Some && addr is Some && !capable && hex_key(key->0@) is Some {
        let dial = choose|dial: Option<A>| #[trigger]
            call_ensures(parse, (&addr->0,), dial) && match dial {
                None => r is Err && r->Err_0@ == "--rendezvous-addr must be ip:port"@,
                Some(dial) => r is Ok && r->Ok_0 is Some && (r->Ok_0->0).0 == dial && (
                r->Ok_0->0).1@ == hex_key(key->0@)->0,
            };
        assert(call_ensures(parse, (&addr->0,), dial));
    }
}

/// A gossip seed is an address and a key with an `@` between them: what stands
/// before the first `@` is parsed as the address, and what stands behind it has
/// to be the sixty-four digits of the key. A seed without an `@` is named.
pub proof fn a_seed_is_an_address_and_a_key<A, P>(
    seed: &str,
    parse: &P,
    r: Result<(A, [u8; 32]), String>,
    address: Seq<char>,
    key: Seq<char>,
) where P: Fn(&String) -> Option<A>
    requires
        call_ensures(parse_gossip_seed::<A, P>, (seed, parse), r),
    ensures
        !seed@.contains('@') ==> r is Err && occurs(r->Err_0@, seed@),
        !address.contains('@') && seed@ == address + seq!['@'] + key ==> exists|
            text: String,
            addr: Option<A>,
        |
            #![trigger call_ensures(*parse, (&text,), addr)]
            {
                &&& text@ == address
                &&& call_ensures(*parse, (&text,), addr)
                &&& addr is None || hex_key(key) is None ==> r is Err
                &&& addr is Some && hex_key(key) is Some ==> r is Ok && r->Ok_0.0 == addr->0
                    && r->Ok_0.1@ == hex_key(key)->0
            },
{
    if !seed@.contains('@') {
        assert forall|i: int| 0 <= i < seed@.len() implies seed@[i] != '@' by {
            assert(seed@.contains(seed@[i]));
        }
        lemma_split_point(seed@, seed@.len() as int);
        lemma_occurs_between("--gossip-seed `"@, seed@, "` must be ip:port@<kem-hex>"@);
    }
    if !address.contains('@') && seed@ == address + seq!['@'] + key {
        let at = address.len() as int;
        assert forall|i: int| 0 <= i < at implies seed@[i] != '@' by {
            assert(address.contains(address[i]));
            assert(seed@[i] == address[i]);
        }
        assert(seed@[at] == '@');
        lemma_split_point(seed@, at);
        assert(seed@.take(at) =~= address);
        assert(seed@.skip(at + 1) =~= key);
        let (text, addr) = choose|text: String, addr: Option<A>|
            #![trigger call_ensures(*parse, (&text,), addr)]
            {
                &&& text@ == seed@.take(at)
                &&& call_ensures(*parse, (&text,), addr)
                &&& match addr {
                    None => r is Err && r->Err_0@ == "bad --gossip-seed addr `"@ + seed@.take(at)
                        + "`"@,
                    Some(addr) => if !is_hex(key) {
                        r is Err && r->Err_0@ == "--gossip-seed kem is not hex"@
                    } else if key.len() != 64 {
                        r is Err && r->Err_0@ == "--gossip-seed kem must be 32 bytes"@
                    } else {
                        r is Ok && r->Ok_0.0 == addr && hex_key(key) == Some(r->Ok_0.1@)
                    },
                }
            };
        assert(call_ensures(*parse, (&text,), addr));
    }
}

/// Gossip is off where it is off. Where it is on, it is made of what the
/// operator gave: the address that is advertised, what was read from the three
/// files, each from its own, the capabilities that were named, every seed, and
/// the time between rounds, but at least five seconds.
pub proof fn gossip_is_made_of_what_was_given<A, K, S, C, RK, RS, RC, P>(
    enabled: bool,
    advertise_addr: Option<String>,
    advert_key: Option<String>,
    admission_cert: Option<String>,
    authority_set: Option<String>,
    gossip_seeds: &Vec<String>,
    gossip_caps: &str,
    interval_secs: u64,
    read_key: RK,
    read_set: RS,
    read_cert: RC,
    parse: P,
    r: Result<Option<GossipPlan<A, K, S, C>>, String>,
) where
    RK: FnOnce(String) -> Result<K, String>,
    RS: FnOnce(String) -> Result<S, String>,
    RC: FnOnce(String) -> Result<C, String>,
    P: Fn(&String) -> Option<A>,

    requires
        call_ensures(
            build_gossip::<A, K, S, C, RK, RS, RC, P>,
            (
                enabled,
                advertise_addr,
                advert_key,
                admission_cert,
                authority_set,
                gossip_seeds,
                gossip_caps,
                interval_secs,
                read_key,
                read_set,
                read_cert,
                parse,
            ),
            r,
        ),
    ensures
        r is Ok && r->Ok_0 is None <==> !enabled,
        enabled && (advertise_addr is None || advert_key is None || admission_cert is None
            || authority_set is None) ==> r is Err,
        r is Ok && r->Ok_0 is Some ==> {
            let plan = r->Ok_0->0;
            &&& advertise_addr is Some && advert_key is Some && admission_cert is Some
                && authority_set is Some
            &&& plan.advertise@ == advertise_addr->0@
            &&& call_ensures(read_key, (advert_key->0,), Ok::<K, String>(plan.identity))
            &&& call_ensures(read_set, (authority_set->0,), Ok::<S, String>(plan.authorities))
            &&& call_ensures(read_cert, (admission_cert->0,), Ok::<C, String>(plan.admission))
            &&& plan.capabilities == Capabilities::Entry <==> gossip_caps@ == "entry"@
            &&& plan.capabilities == Capabilities::Mix <==> gossip_caps@ == "mix"@
            &&& plan.capabilities == Capabilities::Exit <==> gossip_caps@ == "exit"@
            &&& plan.capabilities == Capabilities::All <==> gossip_caps@ == "all"@
            &&& plan.bootstrap@.len() == gossip_seeds@.len()
            &&& forall|i: int|
                0 <= i < gossip_seeds@.len() ==> seed_parsed(
                    (#[trigger] gossip_seeds@[i])@,
                    parse,
                    Ok::<(A, [u8; 32]), String>(plan.bootstrap@[i]),
                )
            &&& plan.interval_secs >= 5
            &&& interval_secs >= 5 ==> plan.interval_secs == interval_secs
            &&& interval_secs < 5 ==> plan.interval_secs == 5
        },
{
    lemma_capability_words_differ();
    if enabled && advertise_addr is Some && advert_key is Some && admission_cert is Some
        && authority_set is Some {
        assert(gossip_made(
            advertise_addr->0,
            advert_key->0,
            admission_cert->0,
            authority_set->0,
            gossip_seeds@,
            gossip_caps@,
            interval_secs,
            read_key,
            read_set,
            read_cert,
            parse,
            r,
        ));
    }
}

/// The words for capabilities differ.
proof fn lemma_capability_words_differ()
    ensures
        "entry"@ != "exit"@,
        "entry"@ != "mix"@,
        "entry"@ != "all"@,
        "exit"@ != "mix"@,
        "exit"@ != "all"@,
        "mix"@ != "all"@,
        ""@ != "entry"@,
        ""@ != "exit"@,
        ""@ != "mix"@,
        ""@ != "all"@,
{
    reveal_strlit("entry");
    reveal_strlit("exit");
    reveal_strlit("mix");
    reveal_strlit("all");
    reveal_strlit("");
    assert("entry"@.len() == 5 && "exit"@.len() == 4 && "mix"@.len() == 3 && "all"@.len() == 3);
    assert("mix"@[0] == 'm' && "all"@[0] == 'a');
    assert(""@.len() == 0);
}

/// Gossip comes about where it should: with everything given, files that can be
/// read, capabilities that are known and seeds that all parse, it is made.
pub proof fn gossip_comes_about<A, K, S, C, RK, RS, RC, P>(
    advertise_addr: String,
    advert_key: String,
    admission_cert: String,
    authority_set: String,
    gossip_seeds: &Vec<String>,
    gossip_caps: &str,
    interval_secs: u64,
    read_key: RK,
    read_set: RS,
    read_cert: RC,
    parse: P,
    r: Result<Option<GossipPlan<A, K, S, C>>, String>,
) where
    RK: FnOnce(String) -> Result<K, String>,
    RS: FnOnce(String) -> Result<S, String>,
    RC: FnOnce(String) -> Result<C, String>,
    P: Fn(&String) -> Option<A>,

    requires
        call_ensures(
            build_gossip::<A, K, S, C, RK, RS, RC, P>,
            (
                true,
                Some(advertise_addr),
                Some(advert_key),
                Some(admission_cert),
                Some(authority_set),
                gossip_seeds,
                gossip_caps,
                interval_secs,
                read_key,
                read_set,
                read_cert,
                parse,
            ),
            r,
        ),
        forall|k: Result<K, String>| #[trigger]
            call_ensures(read_key, (advert_key,), k) ==> k is Ok,
        forall|k: Result<S, String>| #[trigger]
            call_ensures(read_set, (authority_set,), k) ==> k is Ok,
        forall|k: Result<C, String>| #[trigger]
            call_ensures(read_cert, (admission_cert,), k) ==> k is Ok,
        gossip_caps@ == "entry"@ || gossip_caps@ == "mix"@ || gossip_caps@ == "exit"@
            || gossip_caps@ == "all"@,
        forall|i: int, text: String, addr: Option<A>|
            0 <= i < gossip_seeds@.len() && #[trigger] call_ensures(parse, (&text,), addr)
                && text@ == (#[trigger] gossip_seeds@[i])@.take(split_point(gossip_seeds@[i]@))
                ==> addr is Some,
        forall|i: int|
            0 <= i < gossip_seeds@.len() ==> (#[trigger] gossip_seeds@[i])@.contains('@')
                && hex_key(gossip_seeds@[i]@.skip(split_point(gossip_seeds@[i]@) + 1)) is Some,
    ensures
        r is Ok,
{
    lemma_capability_words_differ();
    assert(gossip_made(
        advertise_addr,
        advert_key,
        admission_cert,
        authority_set,
        gossip_seeds@,
        gossip_caps@,
        interval_secs,
        read_key,
        read_set,
        read_cert,
        parse,
        r,
    ));
    if let Err(why) = r {
        let i = choose|i: int|
            0 <= i < gossip_seeds@.len() && seed_parsed(
                (#[trigger] gossip_seeds@[i])@,
                parse,
                Err::<(A, [u8; 32]), String>(why),
            ) && forall|j: int|
                0 <= j < i ==> seed_is_good::<A, P>((#[trigger] gossip_seeds@[j])@, parse);
        let seed = gossip_seeds@[i]@;
        assert(seed.contains('@'));
        lemma_split_inside(seed);
    }
}

/// A text with an `@` is split before its end.
proof fn lemma_split_inside(s: Seq<char>)
    requires
        s.contains('@'),
    ensures
        0 <= split_point(s) < s.len(),
    decreases s.len(),
{
    let i = choose|i: int| 0 <= i < s.len() && s[i] == '@';
    if s[0] != '@' {
        assert(s.drop_first()[i - 1] == '@');
        lemma_split_inside(s.drop_first());
    }
}

/// A directory describes every relay of its list, in order and as it is listed:
/// with its key, address, country, network, operator and mailbox, and in the
/// tier that its capability names; those that are for anything take the three
/// tiers in turn.
pub proof fn a_directory_describes_every_relay(
    entries: &Vec<RelayEntry>,
    r: Result<Vec<RelayDescriptor>, String>,
    i: int,
)
    requires
        call_ensures(describe_relays, (entries,), r),
        0 <= i < entries@.len(),
    ensures
        r matches Ok(relays) ==> {
            let e = entries@[i];
            let d = relays@[i];
            let word = e.capabilities@;
            &&& relays@.len() == entries@.len()
            &&& d.id_pubkey_hex@ == e.node_id_hex@
            &&& d.kem_pubkey_hex@ == e.node_id_hex@
            &&& d.addr@ == e.addr@
            &&& d.country == e.country
            &&& d.asn == e.asn
            &&& d.operator == e.operator
            &&& d.mailbox == e.mailbox
            &&& word == "entry"@ ==> d.tier == RelayTier::Entry
            &&& word == "mix"@ ==> d.tier == RelayTier::Mix
            &&& word == "exit"@ ==> d.tier == RelayTier::Exit
            &&& word == "all"@ || word == ""@ ==> {
                &&& i % 3 == 0 ==> d.tier == RelayTier::Entry
                &&& i % 3 == 1 ==> d.tier == RelayTier::Mix
                &&& i % 3 == 2 ==> d.tier == RelayTier::Exit
            }
            &&& word == "entry"@ || word == "mix"@ || word == "exit"@ || word == "all"@ || word
                == ""@
        },
{
    lemma_capability_words_differ();
    if let Ok(relays) = r {
        assert(describes(entries@[i], i, relays@[i]));
    }
}

/// A directory is made of three relays or more, all of whose capabilities are
/// known, and of nothing else. The first that is not known is named.
pub proof fn a_directory_needs_three_known_relays(
    entries: &Vec<RelayEntry>,
    r: Result<Vec<RelayDescriptor>, String>,
)
    requires
        call_ensures(describe_relays, (entries,), r),
    ensures
        entries@.len() < 3 ==> r is Err,
        entries@.len() >= 3 && (forall|i: int|
            0 <= i < entries@.len() ==> {
                let word = (#[trigger] entries@[i]).capabilities@;
                word == "entry"@ || word == "mix"@ || word == "exit"@ || word == "all"@ || word
                    == ""@
            }) ==> r is Ok,
        entries@.len() >= 3 && r is Err ==> exists|i: int|
            0 <= i < entries@.len() && {
                let word = (#[trigger] entries@[i]).capabilities@;
                &&& word != "entry"@ && word != "mix"@ && word != "exit"@ && word != "all"@ && word
                    != ""@
                &&& occurs(r->Err_0@, word)
            },
{
    lemma_capability_words_differ();
    if entries@.len() >= 3 && r is Err {
        let why = r->Err_0;
        let i = choose|i: int|
            {
                &&& 0 <= i < entries@.len()
                &&& tier_of((#[trigger] entries@[i]).capabilities@, i) is None
                &&& why@ == "unknown capability `"@ + entries@[i].capabilities@
                    + "` — use entry|mix|exit|all"@
                &&& forall|j: int|
                    0 <= j < i ==> tier_of((#[trigger] entries@[j]).capabilities@, j) is Some
            };
        lemma_occurs_between(
            "unknown capability `"@,
            entries@[i].capabilities@,
            "` — use entry|mix|exit|all"@,
        );
        assert(tier_of(entries@[i].capabilities@, i) is None);
    }
}

} // verus!
