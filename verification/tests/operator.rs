use crypto_gotham_relay::addr::IpAddr;
use crypto_gotham_relay::doctor::{
    ask_authority, authorities_to_ask, directory_url, run_doctor, tally, view_directory,
    AuthorityReply, AuthorityView, ListingNotice, ListingWatch,
};
use crypto_gotham_relay::enroll_client::RelayTier;
use crypto_gotham_relay::keyfile::{
    decode_hex, encode_hex, parse_hex_key, parse_published_key, read_ed25519_seed, read_key_file,
    write_key_file, KeyFileError,
};
use crypto_gotham_relay::keys::public_key;
use crypto_gotham_relay::pool::{ConnectionPool, PoolKey};
use crypto_gotham_relay::settings::{
    at_least, build_gossip, describe_relays, parse_gossip_seed, parse_listen_addr, plan_advertise,
    rendezvous_dial, Advertise, Capabilities, GossipPlan, RelayEntry,
};
use crypto_gotham_relay::text::{
    contains, decimal, pad_to, same_text, to_lower, trim, trim_slashes,
};
use std::time::{Duration, Instant};

// ── Keys ───────────────────────────────────────────────────────────────────

#[test]
fn public_keys_follow_rfc_7748() {
    // The first step of the iterated test vector.
    let mut nine = [0u8; 32];
    nine[0] = 9;
    assert_eq!(
        encode_hex(&public_key(&nine)),
        "422c8e7a6227d7bca1350b3e2bb7279f7897b87bb6854b783c60e80311ae3079"
    );
}

#[test]
fn hexadecimal_reads_back() {
    assert_eq!(encode_hex(&[0, 1, 0xab, 0xff]), "0001abff");
    assert_eq!(decode_hex("0001ABff"), Some(vec![0, 1, 0xab, 0xff]));
    assert_eq!(decode_hex(""), Some(vec![]));
    assert_eq!(decode_hex("abc"), None);
    assert_eq!(decode_hex("zz"), None);
    assert_eq!(decode_hex("éa"), None);
    assert_eq!(parse_hex_key(&"ab".repeat(31)), None);
    assert_eq!(parse_hex_key(&"ab".repeat(32)), Some([0xab; 32]));
    assert_eq!(
        parse_published_key(&format!("\n {}\r\n", "cd".repeat(32))),
        Some([0xcd; 32])
    );
    assert_eq!(parse_published_key("nothing"), None);
}

#[test]
fn key_files_read_back() {
    let sk: [u8; 32] = core::array::from_fn(|i| i as u8 * 7);
    let contents = write_key_file(&sk);
    assert_eq!(contents.len(), 65);
    assert!(contents.ends_with('\n'));
    assert_eq!(read_key_file(&contents).ok(), Some(sk));
    assert_eq!(read_key_file(&format!("  {contents}\t")).ok(), Some(sk));

    match read_key_file("abcd") {
        Err(e @ KeyFileError::WrongLength) => assert_eq!(
            e.message(),
            "secret key file must be 64 hex chars (32 bytes)"
        ),
        _ => panic!("too short"),
    }
    match read_key_file("xyz!") {
        Err(e @ KeyFileError::BadHex(_)) => {
            assert_eq!(e.message(), "bad hex: Invalid character 'x' at position 0");
        }
        _ => panic!("not hexadecimal"),
    }
}

#[test]
fn seeds_are_hexadecimal_or_raw() {
    let hex_text = format!("{}\n", "0f".repeat(32));
    assert_eq!(read_ed25519_seed(hex_text.as_bytes()).ok(), Some([0x0f; 32]));
    assert_eq!(read_ed25519_seed(&[0x80; 32]).ok(), Some([0x80; 32]));
    // Raw bytes that happen to be hexadecimal digits are raw all the same.
    assert_eq!(read_ed25519_seed(&[0x61; 32]).ok(), Some([0x61; 32]));
    assert_eq!(read_ed25519_seed(&[0x20; 32]).ok(), Some([0x20; 32]));
    let bare = "0F".repeat(32);
    assert_eq!(read_ed25519_seed(bare.as_bytes()).ok(), Some([0x0f; 32]));
    match read_ed25519_seed(&[0x80; 31]) {
        Err(e @ KeyFileError::WrongLength) => assert_eq!(
            e.seed_message(),
            "authority key must be 32 bytes (or 64 hex chars)"
        ),
        _ => panic!("too short"),
    }
    match read_ed25519_seed(b"0f0 f") {
        Err(e @ KeyFileError::BadHex(_)) => {
            assert_eq!(e.seed_message(), "bad hex: Odd number of digits");
        }
        _ => panic!("not hexadecimal"),
    }
    assert!(matches!(
        read_ed25519_seed(b""),
        Err(KeyFileError::WrongLength)
    ));
}

// ── Text ───────────────────────────────────────────────────────────────────

#[test]
fn text_is_trimmed_lowered_and_searched() {
    assert_eq!(trim(" \t\u{a0}\u{3000}a b\r\n\u{2009}"), "a b");
    assert_eq!(trim("   "), "");
    assert_eq!(trim("\u{200b}x"), "\u{200b}x");
    assert_eq!(trim_slashes("http://a//"), "http://a");
    assert_eq!(trim_slashes("///"), "");
    assert_eq!(to_lower("AbZ@[É9"), "abz@[É9");
    assert!(contains("possession", "sess"));
    assert!(contains("x", ""));
    assert!(contains("abab", "bab"));
    assert!(!contains("ab", "abc"));
    assert!(!contains("aab", "ba"));
    assert!(same_text("é", "é") && !same_text("a", "A"));
    assert_eq!(decimal(0), "0");
    assert_eq!(decimal(10), "10");
    assert_eq!(decimal(u64::MAX), "18446744073709551615");
    assert_eq!(pad_to("ab", 4), "ab  ");
    assert_eq!(pad_to("abcde", 4), "abcde");
}

// ── Settings ───────────────────────────────────────────────────────────────

fn ip(text: &String) -> Option<core::net::IpAddr> {
    text.parse().ok()
}

#[test]
fn listen_addr_accepts_v4_v6_and_all_interfaces() {
    let (v4, port) = parse_listen_addr("203.0.113.7", 443, ip).unwrap();
    assert_eq!(format!("{v4}:{port}"), "203.0.113.7:443");

    let (any, port) = parse_listen_addr("::", 5223, ip).unwrap();
    assert!(any.is_unspecified());
    assert_eq!(port, 5223);

    let (_, port) = parse_listen_addr("2001:db8::1", 443, ip).unwrap();
    assert_eq!(port, 443);
    assert!(parse_listen_addr(" ::1 ", 443, ip).is_ok());
}

#[test]
fn listen_addr_rejects_hostnames() {
    assert!(parse_listen_addr("relay.example.com", 443, ip).is_err());
    assert_eq!(
        parse_listen_addr("", 443, ip).unwrap_err(),
        "--listen-host must be a numeric IP (v4/v6), got ``"
    );
}

fn addr(text: &String) -> Option<core::net::SocketAddr> {
    text.parse().ok()
}

#[test]
fn the_advertised_address_is_planned() {
    let parses = |text: &String| addr(text).is_some();
    assert!(matches!(
        plan_advertise(true, Some("junk".into()), true, parses),
        Ok(Advertise::Nowhere)
    ));
    assert!(matches!(
        plan_advertise(false, Some("203.0.113.7:443".into()), true, parses),
        Ok(Advertise::At(a)) if a == "203.0.113.7:443"
    ));
    assert_eq!(
        plan_advertise(false, Some("junk".into()), false, parses).err().unwrap(),
        "--advertise-addr must be ip:port, got `junk`"
    );
    assert!(matches!(
        plan_advertise(false, None, false, parses),
        Ok(Advertise::AskRouter)
    ));
    assert_eq!(
        plan_advertise(false, None, true, parses).err().unwrap(),
        "--advertise-addr is required with --authority-url (UPnP disabled via --no-upnp)"
    );
}

#[test]
fn the_rendezvous_point_is_set_whole_or_not_at_all() {
    let key = Some("ab".repeat(32));
    let at = Some("192.0.2.1:443".to_string());
    assert_eq!(rendezvous_dial(&None, &None, true, addr), Ok(None));
    assert_eq!(
        rendezvous_dial(&key, &at, false, addr),
        Ok(Some(("192.0.2.1:443".parse().unwrap(), [0xab; 32])))
    );
    for (k, a) in [(&key, &None), (&None, &at)] {
        assert_eq!(
            rendezvous_dial(k, a, false, addr).unwrap_err(),
            "--rendezvous-key and --rendezvous-addr must be set together"
        );
    }
    assert_eq!(
        rendezvous_dial(&Some("ab".into()), &at, false, addr).unwrap_err(),
        "--rendezvous-key must be 32-byte hex"
    );
    assert_eq!(
        rendezvous_dial(&key, &Some("here".into()), false, addr).unwrap_err(),
        "--rendezvous-addr must be ip:port"
    );
    for a in [&at, &None] {
        assert_eq!(
            rendezvous_dial(&key, a, true, addr).unwrap_err(),
            "--rendezvous-key and --rendezvous-capable are mutually exclusive"
        );
    }
}

#[test]
fn gossip_seeds_name_an_address_and_a_key() {
    let good = format!("10.0.0.1:443@{}", "cd".repeat(32));
    assert_eq!(
        parse_gossip_seed(&good, &addr),
        Ok(("10.0.0.1:443".parse().unwrap(), [0xcd; 32]))
    );
    let why = |seed: &str| parse_gossip_seed(seed, &addr).unwrap_err();
    assert_eq!(why("abc"), "--gossip-seed `abc` must be ip:port@<kem-hex>");
    assert_eq!(why("x@y@z"), "bad --gossip-seed addr `x`");
    assert_eq!(why("10.0.0.1:443@zz"), "--gossip-seed kem is not hex");
    assert_eq!(why("10.0.0.1:443@abcd"), "--gossip-seed kem must be 32 bytes");
    assert_eq!(why("10.0.0.1:443@"), "--gossip-seed kem must be 32 bytes");
}

type Plan = GossipPlan<core::net::SocketAddr, String, u8, u16>;

fn gossip(
    enabled: bool,
    set: [bool; 4],
    seeds: &[&str],
    caps: &str,
    fail: &str,
) -> Result<Option<Plan>, String> {
    let given = |i: usize, name: &str| if set[i] { Some(name.to_string()) } else { None };
    let seeds: Vec<String> = seeds.iter().map(|s| s.to_string()).collect();
    build_gossip(
        enabled,
        given(0, "203.0.113.7:443"),
        given(1, "key"),
        given(2, "cert"),
        given(3, "set"),
        &seeds,
        caps,
        3,
        |path: String| {
            assert_eq!(path, "key");
            if fail.contains("key") { Err("no key".into()) } else { Ok(path) }
        },
        |path: String| {
            assert_eq!(path, "set");
            if fail.contains("set") { Err("no set".into()) } else { Ok(1) }
        },
        |path: String| {
            assert_eq!(path, "cert");
            if fail.contains("cert") { Err("no cert".into()) } else { Ok(2) }
        },
        addr,
    )
}

#[test]
fn gossip_settings_are_all_there_or_named() {
    let all = [true; 4];
    assert!(matches!(gossip(false, [false; 4], &["junk"], "junk", "key"), Ok(None)));
    for (i, name) in ["--advertise-addr", "--advert-key", "--admission-cert", "--authority-set"]
        .iter()
        .enumerate()
    {
        let mut set = all;
        set[i] = false;
        assert_eq!(
            gossip(true, set, &[], "all", "").err().unwrap(),
            format!("{name} is required with --gossip")
        );
    }
    assert_eq!(gossip(true, all, &[], "all", "key set cert").err().unwrap(), "no key");
    assert_eq!(gossip(true, all, &[], "all", "set cert").err().unwrap(), "no set");
    assert_eq!(gossip(true, all, &["junk"], "junk", "cert").err().unwrap(), "no cert");
    assert_eq!(
        gossip(true, all, &["junk"], "middle", "").err().unwrap(),
        "unknown --gossip-caps `middle` (entry|mix|exit|all)"
    );
    let good = format!("10.0.0.1:443@{}", "cd".repeat(32));
    assert_eq!(
        gossip(true, all, &[&good, "junk"], "exit", "").err().unwrap(),
        "--gossip-seed `junk` must be ip:port@<kem-hex>"
    );
    let plan = gossip(true, all, &[&good, &good], "exit", "").ok().unwrap().unwrap();
    assert_eq!(plan.advertise, "203.0.113.7:443");
    assert_eq!(plan.identity, "key");
    assert_eq!((plan.authorities, plan.admission), (1, 2));
    assert_eq!(plan.capabilities, Capabilities::Exit);
    assert_eq!(plan.bootstrap.len(), 2);
    assert_eq!(plan.interval_secs, 5);
    assert_eq!(at_least(0, 1), 1);
    assert_eq!(at_least(300, 1), 300);
}

fn entry(capabilities: &str) -> RelayEntry {
    RelayEntry {
        node_id_hex: "aa".into(),
        addr: "10.0.0.1:443".into(),
        capabilities: capabilities.into(),
        country: Some("FR".into()),
        asn: Some(64500),
        operator: None,
        mailbox: true,
    }
}

#[test]
fn relays_for_anything_take_the_tiers_in_turn() {
    let entries: Vec<RelayEntry> = ["all", "", "all", "all", "mix", "entry", "exit"]
        .iter()
        .map(|c| entry(c))
        .collect();
    let relays = describe_relays(&entries).ok().unwrap();
    let tiers: Vec<RelayTier> = relays.iter().map(|r| r.tier).collect();
    assert_eq!(
        tiers,
        vec![
            RelayTier::Entry,
            RelayTier::Mix,
            RelayTier::Exit,
            RelayTier::Entry,
            RelayTier::Mix,
            RelayTier::Entry,
            RelayTier::Exit
        ]
    );
    assert_eq!(relays[0].id_pubkey_hex, "aa");
    assert_eq!(relays[0].kem_pubkey_hex, "aa");
    assert_eq!(relays[0].country.as_deref(), Some("FR"));
    assert_eq!(relays[0].asn, Some(64500));
    assert!(relays[0].mailbox && relays[0].operator.is_none());
}

#[test]
fn a_list_is_long_enough_and_understood() {
    assert_eq!(
        describe_relays(&vec![entry("all"), entry("junk")]).err().unwrap(),
        "need at least 3 relays for a working mixnet"
    );
    assert_eq!(
        describe_relays(&vec![entry("all"), entry("guard"), entry("x")]).err().unwrap(),
        "unknown capability `guard` — use entry|mix|exit|all"
    );
}

// ── Doctor ─────────────────────────────────────────────────────────────────

const DIRECTORY: &str = r#"{"doc":{"relays":[
    {"id_pubkey_hex":"bb","tier":"Mix"},
    {"id_pubkey_hex":"aa","tier":"Exit","operator":"op","addr":"10.0.0.1:443","rendezvous_capable":true},
    {"id_pubkey_hex":"aa","tier":"Entry"}]}}"#;

#[test]
fn a_directory_is_searched_for_the_relay() {
    let view = ask_authority("http://a", Some(DIRECTORY), "aa");
    assert!(view.reachable && view.listed && view.rendezvous_capable);
    assert_eq!(view.url, "http://a");
    assert_eq!(view.tier.as_deref(), Some("Exit"));
    assert_eq!(view.operator.as_deref(), Some("op"));
    assert_eq!(view.addr.as_deref(), Some("10.0.0.1:443"));

    let other = ask_authority("http://a", Some(DIRECTORY), "bb");
    assert!(other.listed && !other.rendezvous_capable);
    assert!(other.operator.is_none() && other.addr.is_none());

    for body in ["not json", "{}", r#"{"doc":{"relays":7}}"#, r#"{"doc":[]}"#] {
        let view = ask_authority("http://a", Some(body), "aa");
        assert!(view.reachable && !view.listed, "{body}");
    }
    let silent = ask_authority("http://a", None, "aa");
    assert!(!silent.reachable && !silent.listed);

    let value: serde_json::Value = serde_json::from_str(DIRECTORY).unwrap();
    assert!(view_directory("u", &value, "aa").listed);
    assert!(!view_directory("u", &value, "cc").listed);
    assert_eq!(directory_url("http://a"), "http://a/directory");
}

fn listed(operator: Option<&str>) -> AuthorityView {
    AuthorityView {
        url: "http://a".into(),
        reachable: true,
        listed: true,
        tier: Some("Mix".into()),
        operator: operator.map(String::from),
        addr: None,
        rendezvous_capable: false,
    }
}

fn absent(reachable: bool) -> AuthorityView {
    AuthorityView {
        url: "http://an-authority-with-a-rather-long-name".into(),
        reachable,
        listed: false,
        tier: None,
        operator: None,
        addr: None,
        rendezvous_capable: false,
    }
}

#[test]
fn the_doctor_passes_a_relay_that_works() {
    let (lines, code) = run_doctor("abc", &vec![listed(Some("op")), listed(None)], 2);
    assert_eq!(code, 0);
    assert_eq!(
        lines,
        vec![
            "Relais abc",
            "",
            "Autorites interrogees :",
            "  http://a                         vous connait",
            "  http://a                         vous connait",
            "",
            "Vu par 2 autorite(s) sur 2 (quorum 2) :",
            "  adresse            : ?",
            "  role               : Mix",
            "  point de rendez-vous : non",
            "  operateur          : op",
            "",
            "VERDICT : ce relais fonctionne et peut acheminer du trafic.",
            "",
            "  Merci : chaque relais independant agrandit la foule dans laquelle",
            "  chaque message se fond.",
        ]
    );
}

#[test]
fn the_doctor_fails_a_relay_without_an_operator() {
    let (lines, code) = run_doctor("abc", &vec![listed(None), listed(Some("op"))], 1);
    assert_eq!(code, 1);
    assert!(lines.contains(&"  operateur          : AUCUN".to_string()));
    assert!(lines.contains(&"VERDICT : ce relais NE SERA JAMAIS CHOISI.".to_string()));
}

#[test]
fn the_doctor_fails_a_relay_that_too_few_list() {
    let (lines, code) = run_doctor("abc", &vec![listed(Some("op")), absent(false)], 2);
    assert_eq!(code, 1);
    assert!(lines.contains(
        &"  http://an-authority-with-a-rather-long-name INJOIGNABLE".to_string()
    ));
    assert!(lines.contains(
        &"  1 autorite(s) injoignable(s) : le diagnostic est partiel.".to_string()
    ));
    assert!(lines.contains(
        &"  1 autorite(s) vous listent, il en faut 2. Les applications".to_string()
    ));
    assert_eq!(lines.last().unwrap(), "  l'installeur, il les contacte toutes.");

    let (lines, code) = run_doctor("abc", &vec![absent(true)], 2);
    assert_eq!(code, 1);
    assert!(lines.iter().any(|l| l.ends_with("ne vous connait PAS")));
    assert!(lines.last().unwrap().contains("Enrolement refuse"));
    assert!(!lines.iter().any(|l| l.contains("partiel")));
}

#[test]
fn the_doctor_fails_a_relay_that_nobody_lists() {
    let (lines, code) = run_doctor("abc", &vec![absent(true)], 0);
    assert_eq!(code, 1);
    assert!(lines.contains(&"VERDICT : ce relais N'EST PAS UTILISE.".to_string()));
    let (_, code) = run_doctor("abc", &vec![], 0);
    assert_eq!(code, 1);
    let (_, code) = run_doctor("abc", &vec![listed(Some("op"))], 0);
    assert_eq!(code, 0);
}

#[test]
fn authorities_default_to_those_of_the_clients() {
    assert_eq!(authorities_to_ask(vec!["x".into()]), vec!["x"]);
    let default = authorities_to_ask(vec![]);
    assert_eq!(default.len(), 3);
    assert_eq!(default[0], "http://144.24.205.188:8443");
    assert_eq!(default[2], "http://84.235.228.107:8443");
}

#[test]
fn a_running_relay_speaks_when_its_standing_changes() {
    let replies = vec![
        AuthorityReply::Body("...aa...".into()),
        AuthorityReply::Unreachable,
        AuthorityReply::Unreadable,
        AuthorityReply::Body("nobody".into()),
    ];
    assert_eq!(tally(&replies, "aa"), (3, 1));

    let mut watch = ListingWatch::new();
    assert_eq!(watch.on_round(0, 0), None);
    assert_eq!(watch.on_round(3, 2), Some(ListingNotice::Listed(2)));
    assert_eq!(watch.on_round(3, 3), None);
    assert_eq!(watch.on_round(0, 0), None);
    assert_eq!(watch.on_round(3, 1), Some(ListingNotice::NotListed(1)));
    assert_eq!(watch.on_round(2, 0), None);
    assert_eq!(watch.on_round(2, 2), Some(ListingNotice::Listed(2)));
}

// ── Pool ───────────────────────────────────────────────────────────────────

fn peer(i: u8) -> PoolKey {
    PoolKey {
        ip: IpAddr::v4(10, 0, 0, i),
        port: 443,
        flow: 0,
        scope: 0,
        peer_pk: [i; 32],
    }
}

#[test]
fn pool_reuses_connection_for_repeated_sends() {
    let mut pool: ConnectionPool<u32> = ConnectionPool::new();
    assert!(pool.is_empty());
    let t0 = Instant::now();
    assert!(pool.cached(&peer(1)).is_none());
    pool.on_opened(peer(1), 100, t0);
    assert_eq!(pool.cached(&peer(1)), Some(&100));
    pool.on_cached_send(&peer(1), true, t0 + Duration::from_secs(1));
    assert_eq!(pool.len(), 1, "pool should reuse, not grow");
    pool.on_cached_send(&peer(1), false, t0 + Duration::from_secs(2));
    assert!(pool.is_empty(), "a dead connection is dropped");
}

#[test]
fn pool_separate_entries_per_peer() {
    let mut pool: ConnectionPool<u32> = ConnectionPool::new();
    let t0 = Instant::now();
    pool.on_opened(peer(1), 1, t0);
    pool.on_opened(peer(2), 2, t0);
    let mut impostor = peer(1);
    impostor.peer_pk[31] = 0;
    pool.on_opened(impostor, 3, t0);
    assert_eq!(pool.len(), 3, "expected separate pool entries per peer");
    assert_eq!(pool.cached(&peer(1)), Some(&1));
    assert_eq!(pool.cached(&impostor), Some(&3));
    pool.on_opened(peer(2), 4, t0);
    assert_eq!(pool.len(), 3);
    assert_eq!(pool.cached(&peer(2)), Some(&4));
}

#[test]
fn one_address_on_two_links_is_two_peers() {
    let link_local = |flow, scope| PoolKey {
        ip: IpAddr::V6(0xfe80_0000_0000_0000_0000_0000_0000_0001),
        port: 443,
        flow,
        scope,
        peer_pk: [1; 32],
    };
    let mut pool: ConnectionPool<u32> = ConnectionPool::new();
    let t0 = Instant::now();
    pool.on_opened(link_local(0, 1), 1, t0);
    assert!(pool.cached(&link_local(0, 2)).is_none());
    assert!(pool.cached(&link_local(1, 1)).is_none());
    pool.on_opened(link_local(0, 2), 2, t0);
    pool.on_opened(link_local(1, 1), 3, t0);
    assert_eq!(pool.len(), 3);
    assert_eq!(pool.cached(&link_local(0, 1)), Some(&1));
    assert_eq!(pool.cached(&link_local(0, 2)), Some(&2));
    assert_eq!(pool.cached(&link_local(1, 1)), Some(&3));
}

#[test]
fn pool_enforces_max_size() {
    let mut pool: ConnectionPool<u8> = ConnectionPool::new().with_max_size(2);
    let t0 = Instant::now();
    let at = |ms| t0 + Duration::from_millis(ms);
    pool.on_opened(peer(1), 1, at(1));
    pool.on_opened(peer(2), 2, at(2));
    pool.on_cached_send(&peer(1), true, at(3));
    pool.on_opened(peer(3), 3, at(10));
    assert_eq!(pool.len(), 2, "max size must be enforced");
    assert!(pool.cached(&peer(2)).is_none(), "the oldest gives way");
    assert!(pool.cached(&peer(1)).is_some());

    let mut least: ConnectionPool<u8> = ConnectionPool::new().with_max_size(0);
    least.on_opened(peer(1), 1, t0);
    least.on_opened(peer(2), 2, t0);
    assert_eq!(least.len(), 1);
    assert!(least.cached(&peer(2)).is_some());
}
