//! Whether a relay is carrying traffic, in words that its operator can act on.
//!
//! A relay that runs may still carry nothing: clients take a relay only where
//! a quorum of authorities lists it, and never one without an operator's name.
//! Here stand the reading of what an authority publishes, the report of the
//! `doctor` command, and the check that a running relay makes of itself.

use crate::text::{contains, decimal, decimal_of, occurs, occurs_at, pad_to, padded_to, same_text};
use serde_json::Value;
use vstd::prelude::*;

verus! {

/// How many authorities must list a relay for clients to use it.
pub const SELF_CHECK_QUORUM: usize = 2;

/// Seconds between two checks of a running relay: long enough that a restart
/// or a slow enrollment does not raise an alarm.
pub const SELF_CHECK_PERIOD_SECS: u64 = 300;

#[verifier::external_type_specification]
#[verifier::external_body]
pub struct ExJsonValue(Value);

/// A JSON value, as far as it is read here.
pub ghost enum Json {
    /// A string.
    Text(Seq<char>),
    /// A truth value.
    Bool(bool),
    /// An array.
    List(Seq<Json>),
    /// An object.
    Object(Map<Seq<char>, Json>),
    /// Null or a number.
    Other,
}

/// What a `serde_json::Value` holds.
pub uninterp spec fn json(v: Value) -> Json;

/// What a text in JSON stands for; `None` for text that is not JSON.
pub uninterp spec fn parsed_json(text: Seq<char>) -> Option<Json>;

/// `serde_json::from_str`: the value that a text in JSON stands for.
#[verifier::external_body]
fn parse_json(text: &str) -> (r: Option<Value>)
    ensures
        match r {
            Some(v) => parsed_json(text@) == Some(json(v)),
            None => parsed_json(text@) is None,
        },
{
    serde_json::from_str(text).ok()
}

/// `serde_json::Value::get` with a string: the field of an object, and `None`
/// for anything that is no object.
#[verifier::external_body]
fn json_field<'a>(v: &'a Value, key: &str) -> (r: Option<&'a Value>)
    ensures
        match r {
            Some(inner) => field(json(*v), key@) == Some(json(*inner)),
            None => field(json(*v), key@) is None,
        },
{
    v.get(key)
}

/// `serde_json::Value::as_str`: the text of a string.
#[verifier::external_body]
fn json_text(v: &Value) -> (r: Option<String>)
    ensures
        match r {
            Some(text) => json(*v) == Json::Text(text@),
            None => !(json(*v) is Text),
        },
{
    v.as_str().map(String::from)
}

/// `serde_json::Value::as_bool`: a truth value.
#[verifier::external_body]
fn json_bool(v: &Value) -> (r: Option<bool>)
    ensures
        match r {
            Some(b) => json(*v) == Json::Bool(b),
            None => !(json(*v) is Bool),
        },
{
    v.as_bool()
}

/// `serde_json::Value::as_array`: the elements of an array.
#[verifier::external_body]
fn json_list(v: &Value) -> (r: Option<&Vec<Value>>)
    ensures
        match r {
            Some(list) => json(*v) == Json::List(jsons(list@)),
            None => !(json(*v) is List),
        },
{
    v.as_array()
}

/// What JSON values hold.
pub open spec fn jsons(values: Seq<Value>) -> Seq<Json> {
    values.map_values(|v: Value| json(v))
}

/// The field of an object.
pub open spec fn field(j: Json, key: Seq<char>) -> Option<Json> {
    match j {
        Json::Object(fields) => if fields.contains_key(key) {
            Some(fields[key])
        } else {
            None
        },
        _ => None,
    }
}

/// The field of an object, where it is a string.
pub open spec fn text_field(j: Json, key: Seq<char>) -> Option<Seq<char>> {
    match field(j, key) {
        Some(Json::Text(text)) => Some(text),
        _ => None,
    }
}

/// Whether the field of an object is `true`.
pub open spec fn flag_field(j: Json, key: Seq<char>) -> bool {
    field(j, key) == Some(Json::Bool(true))
}

/// The relays that a directory lists.
pub open spec fn listed_relays(directory: Json) -> Seq<Json> {
    match field(directory, "doc"@) {
        Some(doc) => match field(doc, "relays"@) {
            Some(Json::List(relays)) => relays,
            _ => Seq::empty(),
        },
        None => Seq::empty(),
    }
}

/// The first relay with this public key.
pub open spec fn first_listing(relays: Seq<Json>, pk_hex: Seq<char>) -> Option<Json>
    decreases relays.len(),
{
    if relays.len() == 0 {
        None
    } else if text_field(relays[0], "id_pubkey_hex"@) == Some(pk_hex) {
        Some(relays[0])
    } else {
        first_listing(relays.drop_first(), pk_hex)
    }
}

/// What one authority says about a relay.
pub struct AuthorityView {
    /// The authority.
    pub url: String,
    /// Whether it answered.
    pub reachable: bool,
    /// Whether it lists the relay.
    pub listed: bool,
    /// The tier it lists.
    pub tier: Option<String>,
    /// The operator it lists.
    pub operator: Option<String>,
    /// The address it lists.
    pub addr: Option<String>,
    /// Whether it lists the relay as a rendezvous point.
    pub rendezvous_capable: bool,
}

/// Whether a text that may be missing is this one.
pub open spec fn shows(text: Option<String>, shown: Option<Seq<char>>) -> bool {
    match text {
        Some(t) => shown == Some(t@),
        None => shown is None,
    }
}

/// Whether `view` says what a listing says, or that there is none.
pub open spec fn views(listing: Option<Json>, view: AuthorityView) -> bool {
    match listing {
        Some(relay) => {
            &&& view.listed
            &&& shows(view.tier, text_field(relay, "tier"@))
            &&& shows(view.operator, text_field(relay, "operator"@))
            &&& shows(view.addr, text_field(relay, "addr"@))
            &&& view.rendezvous_capable == flag_field(relay, "rendezvous_capable"@)
        },
        None => {
            &&& !view.listed
            &&& view.tier is None
            &&& view.operator is None
            &&& view.addr is None
            &&& !view.rendezvous_capable
        },
    }
}

/// The field of an object, where it is a string.
fn read_text(v: &Value, key: &str) -> (r: Option<String>)
    ensures
        shows(r, text_field(json(*v), key@)),
{
    match json_field(v, key) {
        Some(inner) => json_text(inner),
        None => None,
    }
}

/// Whether the field of an object is `true`.
fn read_flag(v: &Value, key: &str) -> (r: bool)
    ensures
        r == flag_field(json(*v), key@),
{
    match json_field(v, key) {
        Some(inner) => match json_bool(inner) {
            Some(b) => b,
            None => false,
        },
        None => false,
    }
}

/// The directory that an authority publishes.
pub fn directory_url(url: &str) -> (r: String)
    ensures
        r@ == url@ + "/directory"@,
{
    url.to_owned().concat("/directory")
}

/// What a directory says about the relay with this public key.
pub fn view_directory(url: &str, directory: &Value, pk_hex: &str) -> (view: AuthorityView)
    ensures
        view.url@ == url@,
        view.reachable,
        views(first_listing(listed_relays(json(*directory)), pk_hex@), view),
{
    let mut view = AuthorityView {
        url: url.to_owned(),
        reachable: true,
        listed: false,
        tier: None,
        operator: None,
        addr: None,
        rendezvous_capable: false,
    };
    let relays: &Vec<Value> = match json_field(directory, "doc") {
        Some(doc) => match json_field(doc, "relays") {
            Some(list) => match json_list(list) {
                Some(relays) => relays,
                None => {
                    return view;
                },
            },
            None => {
                return view;
            },
        },
        None => {
            return view;
        },
    };
    let ghost all = jsons(relays@);
    assert(all == listed_relays(json(*directory)));
    let mut i: usize = 0;
    assert(all.skip(0) =~= all);
    while i < relays.len()
        invariant
            i <= relays@.len(),
            all == jsons(relays@),
            all == listed_relays(json(*directory)),
            first_listing(all.skip(i as int), pk_hex@) == first_listing(all, pk_hex@),
            view.url@ == url@,
            view.reachable,
            views(None, view),
        decreases relays@.len() - i,
    {
        let relay: &Value = &relays[i];
        assert(all.skip(i as int)[0] == json(*relay));
        assert(all.skip(i as int).drop_first() =~= all.skip(i + 1));
        if let Some(id) = read_text(relay, "id_pubkey_hex") {
            if same_text(id.as_str(), pk_hex) {
                view.listed = true;
                view.tier = read_text(relay, "tier");
                view.operator = read_text(relay, "operator");
                view.addr = read_text(relay, "addr");
                view.rendezvous_capable = read_flag(relay, "rendezvous_capable");
                return view;
            }
        }
        i = i + 1;
    }
    view
}

/// What an authority that answered `body` says about the relay with this
/// public key; `None` stands for one that did not answer. An answer that is
/// not JSON lists nobody.
pub fn ask_authority(url: &str, body: Option<&str>, pk_hex: &str) -> (view: AuthorityView)
    ensures
        view.url@ == url@,
        view.reachable == body is Some,
        views(
            match body {
                Some(text) => match parsed_json(text@) {
                    Some(directory) => first_listing(listed_relays(directory), pk_hex@),
                    None => None,
                },
                None => None,
            },
            view,
        ),
{
    if let Some(text) = body {
        if let Some(directory) = parse_json(text) {
            return view_directory(url, &directory, pk_hex);
        }
    }
    AuthorityView {
        url: url.to_owned(),
        reachable: body.is_some(),
        listed: false,
        tier: None,
        operator: None,
        addr: None,
        rendezvous_capable: false,
    }
}

/// The authorities that clients ask.
pub const DEFAULT_AUTHORITIES: [&'static str; 3] = [
    "http://144.24.205.188:8443",
    "http://84.235.232.196:8443",
    "http://84.235.228.107:8443",
];

/// The authorities to ask: those that were named, or those that clients ask.
pub fn authorities_to_ask(named: Vec<String>) -> (urls: Vec<String>)
    ensures
        named@.len() > 0 ==> urls == named,
        named@.len() == 0 ==> urls@.len() == 3 && forall|i: int|
            0 <= i < 3 ==> (#[trigger] urls@[i])@ == DEFAULT_AUTHORITIES@[i]@,
{
    if named.len() > 0 {
        return named;
    }
    let mut urls: Vec<String> = Vec::new();
    let mut i: usize = 0;
    while i < 3
        invariant
            i <= 3,
            urls@.len() == i,
            forall|j: int| 0 <= j < i ==> (#[trigger] urls@[j])@ == DEFAULT_AUTHORITIES@[j]@,
        decreases 3 - i,
    {
        urls.push(DEFAULT_AUTHORITIES[i].to_owned());
        i = i + 1;
    }
    urls
}

/// Said where too few authorities list a relay, after the counts.
pub const NOT_USED: [&'static str; 3] = [
    "  n'acceptent un relais que lorsqu'un quorum d'autorites l'a atteste,",
    "  donc en l'etat aucun message ne passera par vous.",
    "",
];

/// Said where no authority lists a relay: the causes, the commonest first.
pub const UNKNOWN_TO_ALL: [&'static str; 8] = [
    "  Aucune autorite ne vous connait. Les causes, par frequence :",
    "    1. Votre port UDP n'est pas joignable depuis l'exterieur.",
    "       Sur un VPS, pensez au pare-feu du FOURNISSEUR (groupe de",
    "       securite / security list), pas seulement a celui de la machine.",
    "       Derriere une box : relancez l'installeur avec GOTHAM_RENDEZVOUS=on,",
    "       aucune redirection de port n'est alors necessaire.",
    "    2. Le service ne tourne pas : systemctl status 'gotham-relay-*'",
    "    3. Enrolement refuse : journalctl -u 'gotham-relay-*' | grep -i reject",
];

/// Said where some authorities list a relay, but not enough.
pub const KNOWN_TO_SOME: [&'static str; 3] = [
    "  Certaines autorites vous voient et d'autres non : l'enrolement",
    "  n'a ete fait qu'aupres d'une partie d'entre elles. Relancez",
    "  l'installeur, il les contacte toutes.",
];

/// Said of a relay that is listed without an operator.
pub const NEVER_CHOSEN: [&'static str; 8] = [
    "VERDICT : ce relais NE SERA JAMAIS CHOISI.",
    "",
    "  Il est bien enrole, mais sans etiquette d'operateur. La selection",
    "  de chemin refuse deux sauts dont elle ne peut pas PROUVER qu'ils",
    "  appartiennent a des operateurs differents, donc un relais sans",
    "  etiquette n'entre dans aucun chemin.",
    "",
    "  Relancez l'installeur, ou ajoutez --operator <votre-nom> au service.",
];

/// Said of a relay that works.
pub const WORKS: [&'static str; 4] = [
    "VERDICT : ce relais fonctionne et peut acheminer du trafic.",
    "",
    "  Merci : chaque relais independant agrandit la foule dans laquelle",
    "  chaque message se fond.",
];

/// Lines as text.
pub open spec fn lines_of(lines: Seq<String>) -> Seq<Seq<char>> {
    lines.map_values(|line: String| line@)
}

/// Fixed lines as text.
pub open spec fn fixed_lines(lines: Seq<&'static str>) -> Seq<Seq<char>> {
    lines.map_values(|line: &'static str| line@)
}

/// How many authorities list the relay.
pub open spec fn listed_count(views: Seq<AuthorityView>) -> nat
    decreases views.len(),
{
    if views.len() == 0 {
        0
    } else {
        listed_count(views.drop_last()) + if views.last().listed {
            1nat
        } else {
            0nat
        }
    }
}

/// How many authorities did not answer.
pub open spec fn unreachable_count(views: Seq<AuthorityView>) -> nat
    decreases views.len(),
{
    if views.len() == 0 {
        0
    } else {
        unreachable_count(views.drop_last()) + if !views.last().reachable {
            1nat
        } else {
            0nat
        }
    }
}

/// Whether the `i`-th view is the first in which the relay is listed.
pub open spec fn is_sample(views: Seq<AuthorityView>, i: int) -> bool {
    &&& 0 <= i < views.len()
    &&& views[i].listed
    &&& forall|j: int| 0 <= j < i ==> !(#[trigger] views[j]).listed
}

/// What a report says of one authority.
pub open spec fn authority_line(view: AuthorityView) -> Seq<char> {
    "  "@ + padded_to(view.url@, 32) + " "@ + if !view.reachable {
        "INJOIGNABLE"@
    } else if view.listed {
        "vous connait"@
    } else {
        "ne vous connait PAS"@
    }
}

/// What a report says of every authority.
pub open spec fn authority_lines(views: Seq<AuthorityView>) -> Seq<Seq<char>> {
    views.map_values(|view: AuthorityView| authority_line(view))
}

/// What a report says of authorities that did not answer.
pub open spec fn partial_lines(missing: nat) -> Seq<Seq<char>> {
    if missing == 0 {
        Seq::empty()
    } else {
        seq![
            "  "@ + decimal_of(missing)
                + " autorite(s) injoignable(s) : le diagnostic est partiel."@,
            "  Verifiez votre connexion sortante avant de conclure."@,
            ""@,
        ]
    }
}

/// What a report says of a relay that too few authorities list, or none.
pub open spec fn not_used_lines(n: nat, quorum: nat) -> Seq<Seq<char>> {
    seq![
        "VERDICT : ce relais N'EST PAS UTILISE."@,
        ""@,
        "  "@ + decimal_of(n) + " autorite(s) vous listent, il en faut "@ + decimal_of(quorum)
            + ". Les applications"@,
    ] + fixed_lines(NOT_USED@) + if n == 0 {
        fixed_lines(UNKNOWN_TO_ALL@)
    } else {
        fixed_lines(KNOWN_TO_SOME@)
    }
}

/// A text, or another where it is missing.
pub open spec fn text_or(text: Option<String>, other: Seq<char>) -> Seq<char> {
    match text {
        Some(t) => t@,
        None => other,
    }
}

/// What a report says of how a relay is listed.
pub open spec fn listing_lines(
    sample: AuthorityView,
    n: nat,
    asked: nat,
    quorum: nat,
) -> Seq<Seq<char>> {
    seq![
        "Vu par "@ + decimal_of(n) + " autorite(s) sur "@ + decimal_of(asked) + " (quorum "@
            + decimal_of(quorum) + ") :"@,
        "  adresse            : "@ + text_or(sample.addr, "?"@),
        "  role               : "@ + text_or(sample.tier, "?"@),
        "  point de rendez-vous : "@ + if sample.rendezvous_capable {
            "oui"@
        } else {
            "non"@
        },
        "  operateur          : "@ + text_or(sample.operator, "AUCUN"@),
        ""@,
    ]
}

/// Whether clients can use a relay: a quorum lists it, and it has an operator.
pub open spec fn usable(views: Seq<AuthorityView>, quorum: nat) -> bool {
    listed_count(views) >= quorum && exists|i: int| #[trigger]
        is_sample(views, i) && views[i].operator is Some
}

/// What a report says up to the verdict.
pub open spec fn opening_lines(pk_hex: Seq<char>, views: Seq<AuthorityView>) -> Seq<Seq<char>> {
    seq!["Relais "@ + pk_hex, ""@, "Autorites interrogees :"@] + authority_lines(views) + seq![
        ""@,
    ] + partial_lines(unreachable_count(views))
}

/// The verdict of a report, given where the relay is first listed.
pub open spec fn verdict_lines(
    views: Seq<AuthorityView>,
    quorum: nat,
    sample: int,
) -> Seq<Seq<char>> {
    let n = listed_count(views);
    if n < quorum || n == 0 {
        not_used_lines(n, quorum)
    } else {
        listing_lines(views[sample], n, views.len(), quorum) + if views[sample].operator is None {
            fixed_lines(NEVER_CHOSEN@)
        } else {
            fixed_lines(WORKS@)
        }
    }
}

/// Appends a line.
fn say(lines: &mut Vec<String>, line: String)
    ensures
        lines_of(final(lines)@) == lines_of(old(lines)@).push(line@),
{
    let ghost before = lines@;
    lines.push(line);
    assert(lines_of(lines@) =~= lines_of(before).push(line@));
}

/// Appends fixed lines.
fn say_all(lines: &mut Vec<String>, fixed: &[&'static str])
    ensures
        lines_of(final(lines)@) == lines_of(old(lines)@) + fixed_lines(fixed@),
{
    let ghost before = lines_of(lines@);
    let mut i: usize = 0;
    assert(fixed_lines(fixed@.take(0)) =~= Seq::<Seq<char>>::empty());
    assert(lines_of(lines@) =~= before + fixed_lines(fixed@.take(0)));
    while i < fixed.len()
        invariant
            i <= fixed@.len(),
            lines_of(lines@) == before + fixed_lines(fixed@.take(i as int)),
        decreases fixed@.len() - i,
    {
        say(lines, fixed[i].to_owned());
        assert(fixed_lines(fixed@.take(i + 1)) =~= fixed_lines(fixed@.take(i as int)).push(
            fixed@[i as int]@,
        ));
        i = i + 1;
        assert(lines_of(lines@) =~= before + fixed_lines(fixed@.take(i as int)));
    }
    assert(fixed@.take(i as int) =~= fixed@);
}

/// Counts the authorities that list the relay, finds the first of them, and
/// counts those that did not answer.
fn count_views(views: &Vec<AuthorityView>) -> (r: (usize, Option<usize>, usize))
    ensures
        r.0 == listed_count(views@),
        match r.1 {
            Some(i) => is_sample(views@, i as int) && r.0 > 0,
            None => r.0 == 0 && forall|j: int|
                0 <= j < views@.len() ==> !(#[trigger] views@[j]).listed,
        },
        r.2 == unreachable_count(views@),
{
    let mut listed: usize = 0;
    let mut first: Option<usize> = None;
    let mut missing: usize = 0;
    let mut i: usize = 0;
    while i < views.len()
        invariant
            i <= views@.len(),
            listed <= i,
            missing <= i,
            listed == listed_count(views@.take(i as int)),
            missing == unreachable_count(views@.take(i as int)),
            match first {
                Some(f) => f < i && is_sample(views@, f as int) && listed > 0,
                None => listed == 0 && forall|j: int| 0 <= j < i ==> !(#[trigger] views@[j]).listed,
            },
        decreases views@.len() - i,
    {
        assert(views@.take(i + 1).drop_last() =~= views@.take(i as int));
        if views[i].listed {
            listed = listed + 1;
            if first.is_none() {
                first = Some(i);
            }
        }
        if !views[i].reachable {
            missing = missing + 1;
        }
        i = i + 1;
    }
    assert(views@.take(i as int) =~= views@);
    (listed, first, missing)
}

/// What a report says up to the verdict.
fn open_report(pk_hex: &str, views: &Vec<AuthorityView>, missing: usize) -> (lines: Vec<String>)
    requires
        missing == unreachable_count(views@),
    ensures
        lines_of(lines@) == opening_lines(pk_hex@, views@),
{
    let mut lines: Vec<String> = Vec::new();
    assert(lines_of(lines@) =~= Seq::<Seq<char>>::empty());
    say(&mut lines, "Relais ".to_owned().concat(pk_hex));
    say(&mut lines, "".to_owned());
    say(&mut lines, "Autorites interrogees :".to_owned());
    let ghost heading = lines_of(lines@);
    assert(heading =~= seq!["Relais "@ + pk_hex@, ""@, "Autorites interrogees :"@]);
    let mut i: usize = 0;
    assert(heading =~= heading + authority_lines(views@.take(0)));
    while i < views.len()
        invariant
            i <= views@.len(),
            lines_of(lines@) == heading + authority_lines(views@.take(i as int)),
        decreases views@.len() - i,
    {
        let line: String = show_authority(&views[i]);
        say(&mut lines, line);
        assert(authority_lines(views@.take(i + 1)) =~= authority_lines(
            views@.take(i as int),
        ).push(authority_line(views@[i as int])));
        i = i + 1;
        assert(lines_of(lines@) =~= heading + authority_lines(views@.take(i as int)));
    }
    assert(views@.take(i as int) =~= views@);
    say(&mut lines, "".to_owned());
    let ghost before = lines_of(lines@);
    assert(before =~= heading + authority_lines(views@) + seq![""@]);
    if missing > 0 {
        say(
            &mut lines,
            "  ".to_owned().concat(decimal(missing as u64).as_str()).concat(
                " autorite(s) injoignable(s) : le diagnostic est partiel.",
            ),
        );
        say(
            &mut lines,
            "  Verifiez votre connexion sortante avant de conclure.".to_owned(),
        );
        say(&mut lines, "".to_owned());
    }
    assert(lines_of(lines@) =~= before + partial_lines(missing as nat));
    lines
}

/// What a report says of one authority.
fn show_authority(view: &AuthorityView) -> (line: String)
    ensures
        line@ == authority_line(*view),
{
    let state: &'static str = if !view.reachable {
        "INJOIGNABLE"
    } else if view.listed {
        "vous connait"
    } else {
        "ne vous connait PAS"
    };
    "  ".to_owned().concat(pad_to(view.url.as_str(), 32).as_str()).concat(" ").concat(state)
}

/// Says that too few authorities list a relay, or none.
fn say_not_used(lines: &mut Vec<String>, n: usize, quorum: usize)
    ensures
        lines_of(final(lines)@) == lines_of(old(lines)@) + not_used_lines(n as nat, quorum as nat),
{
    let ghost before = lines_of(lines@);
    say(lines, "VERDICT : ce relais N'EST PAS UTILISE.".to_owned());
    say(lines, "".to_owned());
    say(
        lines,
        "  ".to_owned().concat(decimal(n as u64).as_str()).concat(
            " autorite(s) vous listent, il en faut ",
        ).concat(decimal(quorum as u64).as_str()).concat(". Les applications"),
    );
    say_all(lines, NOT_USED.as_slice());
    if n == 0 {
        say_all(lines, UNKNOWN_TO_ALL.as_slice());
    } else {
        say_all(lines, KNOWN_TO_SOME.as_slice());
    }
    assert(lines_of(lines@) =~= before + not_used_lines(n as nat, quorum as nat));
}

/// Says how a relay is listed.
fn say_listing(
    lines: &mut Vec<String>,
    sample: &AuthorityView,
    n: usize,
    asked: usize,
    quorum: usize,
)
    ensures
        lines_of(final(lines)@) == lines_of(old(lines)@) + listing_lines(
            *sample,
            n as nat,
            asked as nat,
            quorum as nat,
        ),
{
    let ghost before = lines_of(lines@);
    say(
        lines,
        "Vu par ".to_owned().concat(decimal(n as u64).as_str()).concat(" autorite(s) sur ").concat(
            decimal(asked as u64).as_str(),
        ).concat(" (quorum ").concat(decimal(quorum as u64).as_str()).concat(") :"),
    );
    say(lines, "  adresse            : ".to_owned().concat(or_text(&sample.addr, "?").as_str()));
    say(lines, "  role               : ".to_owned().concat(or_text(&sample.tier, "?").as_str()));
    let capable: &'static str = if sample.rendezvous_capable {
        "oui"
    } else {
        "non"
    };
    say(lines, "  point de rendez-vous : ".to_owned().concat(capable));
    say(
        lines,
        "  operateur          : ".to_owned().concat(or_text(&sample.operator, "AUCUN").as_str()),
    );
    say(lines, "".to_owned());
    assert(lines_of(lines@) =~= before + listing_lines(
        *sample,
        n as nat,
        asked as nat,
        quorum as nat,
    ));
}

/// The report on a relay and the exit code of the command: zero where clients
/// can use the relay, and one otherwise, so that a health check need not read
/// the text. A relay that nobody lists is not used, whatever the quorum.
pub fn run_doctor(pk_hex: &str, views: &Vec<AuthorityView>, quorum: usize) -> (r: (
    Vec<String>,
    i32,
))
    ensures
        exists|sample: int|
            {
                &&& listed_count(views@) >= quorum && listed_count(views@) > 0 ==> is_sample(
                    views@,
                    sample,
                )
                &&& lines_of(r.0@) == opening_lines(pk_hex@, views@) + #[trigger] verdict_lines(
                    views@,
                    quorum as nat,
                    sample,
                )
            },
        r.1 == if usable(views@, quorum as nat) {
            0i32
        } else {
            1i32
        },
{
    let (n, first, missing) = count_views(views);
    let mut lines: Vec<String> = open_report(pk_hex, views, missing);
    let ghost opening = lines_of(lines@);
    if n < quorum || n == 0 {
        say_not_used(&mut lines, n, quorum);
        assert(lines_of(lines@) == opening + verdict_lines(views@, quorum as nat, 0));
        return (lines, 1);
    }
    let at: usize = match first {
        Some(at) => at,
        None => {
            return (lines, 1);
        },
    };
    assert(is_sample(views@, at as int));
    assert forall|other: int| #[trigger] is_sample(views@, other) implies other == at by {
        if other < at {
            assert(!views@[other].listed);
        }
        if at < other {
            assert(!views@[at as int].listed);
        }
    }
    let sample: &AuthorityView = &views[at];
    say_listing(&mut lines, sample, n, views.len(), quorum);
    let code: i32 = if sample.operator.is_none() {
        say_all(&mut lines, NEVER_CHOSEN.as_slice());
        1
    } else {
        say_all(&mut lines, WORKS.as_slice());
        0
    };
    assert(lines_of(lines@) =~= opening + verdict_lines(views@, quorum as nat, at as int));
    (lines, code)
}

/// A text, or another where it is missing.
fn or_text(text: &Option<String>, other: &str) -> (r: String)
    ensures
        r@ == text_or(*text, other@),
{
    match text {
        Some(t) => t.clone(),
        None => other.to_owned(),
    }
}

/// What an authority answered to a running relay.
pub enum AuthorityReply {
    /// Nothing.
    Unreachable,
    /// An answer whose text could not be read.
    Unreadable,
    /// This text.
    Body(String),
}

/// How many authorities answered, and how many answered with the relay's key.
pub open spec fn tally_of(replies: Seq<AuthorityReply>, pk_hex: Seq<char>) -> (nat, nat)
    decreases replies.len(),
{
    if replies.len() == 0 {
        (0, 0)
    } else {
        let (asked, seen) = tally_of(replies.drop_last(), pk_hex);
        match replies.last() {
            AuthorityReply::Unreachable => (asked, seen),
            AuthorityReply::Unreadable => (asked + 1, seen),
            AuthorityReply::Body(text) => (
                asked + 1,
                seen + if occurs(text@, pk_hex) {
                    1nat
                } else {
                    0nat
                },
            ),
        }
    }
}

/// Counts how many authorities answered, and how many answered with the
/// relay's key.
pub fn tally(replies: &Vec<AuthorityReply>, pk_hex: &str) -> (r: (usize, usize))
    ensures
        (r.0 as nat, r.1 as nat) == tally_of(replies@, pk_hex@),
        r.1 <= r.0 <= replies@.len(),
{
    let mut asked: usize = 0;
    let mut seen: usize = 0;
    let mut i: usize = 0;
    while i < replies.len()
        invariant
            seen <= asked <= i <= replies@.len(),
            (asked as nat, seen as nat) == tally_of(replies@.take(i as int), pk_hex@),
        decreases replies@.len() - i,
    {
        assert(replies@.take(i + 1).drop_last() =~= replies@.take(i as int));
        match &replies[i] {
            AuthorityReply::Unreachable => {},
            AuthorityReply::Unreadable => {
                asked = asked + 1;
            },
            AuthorityReply::Body(text) => {
                asked = asked + 1;
                if contains(text.as_str(), pk_hex) {
                    seen = seen + 1;
                }
            },
        }
        i = i + 1;
    }
    assert(replies@.take(i as int) =~= replies@);
    (asked, seen)
}

/// What a relay says of itself when its standing has changed.
#[derive(Debug, Copy, Clone, PartialEq, Eq, Structural)]
pub enum ListingNotice {
    /// It is listed by this many authorities, which is enough.
    Listed(usize),
    /// It is listed by this many authorities, which is not enough.
    NotListed(usize),
}

/// The check that a running relay makes of itself. It says something when the
/// answer changes, and nothing otherwise, so that a warning means something.
pub struct ListingWatch {
    was_listed: Option<bool>,
}

impl View for ListingWatch {
    type V = Option<bool>;

    closed spec fn view(&self) -> Option<bool> {
        self.was_listed
    }
}

/// What a check makes of what was known before: nothing where no authority
/// answered, because that says nothing about the relay.
pub open spec fn watch_step(was: Option<bool>, asked: usize, seen: usize) -> (
    Option<bool>,
    Option<ListingNotice>,
) {
    let listed = seen >= SELF_CHECK_QUORUM;
    if asked == 0 || was == Some(listed) {
        (was, None)
    } else if listed {
        (Some(true), Some(ListingNotice::Listed(seen)))
    } else {
        (Some(false), Some(ListingNotice::NotListed(seen)))
    }
}

impl ListingWatch {
    /// A check before the first answer.
    pub fn new() -> (watch: ListingWatch)
        ensures
            watch@ is None,
    {
        ListingWatch { was_listed: None }
    }

    /// Takes one round of answers: how many authorities answered, and how many
    /// listed the relay.
    pub fn on_round(&mut self, asked: usize, seen: usize) -> (notice: Option<ListingNotice>)
        ensures
            (final(self)@, notice) == watch_step(old(self)@, asked, seen),
    {
        if asked == 0 {
            return None;
        }
        let listed: bool = seen >= SELF_CHECK_QUORUM;
        if let Some(was) = self.was_listed {
            if was == listed {
                return None;
            }
        }
        self.was_listed = Some(listed);
        if listed {
            Some(ListingNotice::Listed(seen))
        } else {
            Some(ListingNotice::NotListed(seen))
        }
    }
}

/// A check says something exactly where authorities answered and the answer is
/// not the one that was known, and what it says is then what is known.
pub proof fn notices_mark_changes(was: Option<bool>, asked: usize, seen: usize)
    ensures
        ({
            let (known, notice) = watch_step(was, asked, seen);
            &&& notice is Some <==> known != was
            &&& asked == 0 ==> notice is None
            &&& notice is Some ==> known == Some(notice->0 is Listed)
            &&& asked > 0 ==> known == Some(seen >= SELF_CHECK_QUORUM)
        }),
{
}

/// Whether the `i`-th relay of a list is the first with this public key.
pub open spec fn first_with_key(relays: Seq<Json>, pk_hex: Seq<char>, i: int) -> bool {
    &&& 0 <= i < relays.len()
    &&& field(relays[i], "id_pubkey_hex"@) == Some(Json::Text(pk_hex))
    &&& forall|j: int|
        0 <= j < i ==> field(#[trigger] relays[j], "id_pubkey_hex"@) != Some(Json::Text(pk_hex))
}

/// A listing is the first with the key, and there is one where some relay has
/// the key.
proof fn lemma_first_listing(relays: Seq<Json>, pk_hex: Seq<char>)
    ensures
        match first_listing(relays, pk_hex) {
            Some(relay) => exists|i: int| #[trigger]
                first_with_key(relays, pk_hex, i) && relays[i] == relay,
            None => forall|i: int|
                0 <= i < relays.len() ==> field(#[trigger] relays[i], "id_pubkey_hex"@) != Some(
                    Json::Text(pk_hex),
                ),
        },
    decreases relays.len(),
{
    if relays.len() > 0 {
        if text_field(relays[0], "id_pubkey_hex"@) == Some(pk_hex) {
            assert(first_with_key(relays, pk_hex, 0));
        } else {
            let rest = relays.drop_first();
            lemma_first_listing(rest, pk_hex);
            match first_listing(rest, pk_hex) {
                Some(relay) => {
                    let i = choose|i: int| #[trigger]
                        first_with_key(rest, pk_hex, i) && rest[i] == relay;
                    assert forall|j: int| 0 <= j < i + 1 implies field(
                        #[trigger] relays[j],
                        "id_pubkey_hex"@,
                    ) != Some(Json::Text(pk_hex)) by {
                        if j > 0 {
                            assert(rest[j - 1] == relays[j]);
                        }
                    }
                    assert(relays[i + 1] == rest[i]);
                    assert(first_with_key(relays, pk_hex, i + 1));
                },
                None => {
                    assert forall|i: int| 0 <= i < relays.len() implies field(
                        #[trigger] relays[i],
                        "id_pubkey_hex"@,
                    ) != Some(Json::Text(pk_hex)) by {
                        if i > 0 {
                            assert(rest[i - 1] == relays[i]);
                        }
                    }
                },
            }
        }
    }
}

/// Whether a view says of a relay what a list of relays says: that it is listed,
/// with its tier, operator, address and whether it is a rendezvous point, as the
/// first with its key has them; or that it is not, where none has its key.
pub open spec fn sees_as_listed(
    relays: Seq<Json>,
    pk_hex: Seq<char>,
    view: AuthorityView,
) -> bool {
    &&& view.listed <==> exists|i: int|
        0 <= i < relays.len() && field(#[trigger] relays[i], "id_pubkey_hex"@) == Some(
            Json::Text(pk_hex),
        )
    &&& view.listed ==> exists|i: int|
        {
            &&& #[trigger] first_with_key(relays, pk_hex, i)
            &&& reads(view.tier, field(relays[i], "tier"@))
            &&& reads(view.operator, field(relays[i], "operator"@))
            &&& reads(view.addr, field(relays[i], "addr"@))
            &&& view.rendezvous_capable <==> field(relays[i], "rendezvous_capable"@) == Some(
                Json::Bool(true),
            )
        }
    &&& !view.listed ==> view.tier is None && view.operator is None && view.addr is None
        && !view.rendezvous_capable
}

/// Whether a text is what a field holds, where it holds text.
pub open spec fn reads(text: Option<String>, held: Option<Json>) -> bool {
    &&& text matches Some(t) ==> held == Some(Json::Text(t@))
    &&& text is None ==> !(held is Some && held->0 is Text)
}

/// A view sees what a directory lists.
proof fn lemma_sees_as_listed(relays: Seq<Json>, pk_hex: Seq<char>, view: AuthorityView)
    requires
        views(first_listing(relays, pk_hex), view),
    ensures
        sees_as_listed(relays, pk_hex, view),
{
    lemma_first_listing(relays, pk_hex);
    if let Some(relay) = first_listing(relays, pk_hex) {
        let i = choose|i: int| #[trigger]
            first_with_key(relays, pk_hex, i) && relays[i] == relay;
        assert(field(relays[i], "id_pubkey_hex"@) == Some(Json::Text(pk_hex)));
    }
}

/// What a directory says of a relay is what stands in its list of relays.
pub proof fn a_directory_is_read_as_it_stands(
    url: &str,
    directory: &Value,
    pk_hex: &str,
    view: AuthorityView,
    doc: Json,
    relays: Seq<Json>,
)
    requires
        call_ensures(view_directory, (url, directory, pk_hex), view),
    ensures
        view.url@ == url@,
        view.reachable,
        field(json(*directory), "doc"@) == Some(doc) && field(doc, "relays"@) == Some(
            Json::List(relays),
        ) ==> sees_as_listed(relays, pk_hex@, view),
        field(json(*directory), "doc"@) is None ==> !view.listed,
        field(json(*directory), "doc"@) == Some(doc) && !(field(doc, "relays"@) is Some && field(
            doc,
            "relays"@,
        )->0 is List) ==> !view.listed,
{
    lemma_sees_as_listed(listed_relays(json(*directory)), pk_hex@, view);
}

/// An authority is reachable where it answered, and lists the relay where its
/// answer is a directory that does.
pub proof fn an_answer_is_read_as_it_stands(
    url: &str,
    body: Option<&str>,
    pk_hex: &str,
    view: AuthorityView,
    doc: Json,
    relays: Seq<Json>,
)
    requires
        call_ensures(ask_authority, (url, body, pk_hex), view),
    ensures
        view.url@ == url@,
        view.reachable <==> body is Some,
        body is None ==> !view.listed,
        body matches Some(text) ==> {
            &&& parsed_json(text@) is None ==> !view.listed
            &&& parsed_json(text@) is Some && field(parsed_json(text@)->0, "doc"@) == Some(doc)
                && field(doc, "relays"@) == Some(Json::List(relays)) ==> sees_as_listed(
                relays,
                pk_hex@,
                view,
            )
        },
        !view.listed ==> view.tier is None && view.operator is None && view.addr is None
            && !view.rendezvous_capable,
{
    if let Some(text) = body {
        if let Some(directory) = parsed_json(text@) {
            lemma_sees_as_listed(listed_relays(directory), pk_hex@, view);
        }
    }
}

/// The authorities that were named are asked, all of them and no others; where
/// none was named, the three that clients ask.
pub proof fn named_authorities_are_asked(named: Vec<String>, urls: Vec<String>)
    requires
        call_ensures(authorities_to_ask, (named,), urls),
    ensures
        named@.len() > 0 ==> urls@ == named@,
        named@.len() == 0 ==> {
            &&& urls@.len() == 3
            &&& urls@[0]@ == "http://144.24.205.188:8443"@
            &&& urls@[1]@ == "http://84.235.232.196:8443"@
            &&& urls@[2]@ == "http://84.235.228.107:8443"@
        },
{
}

/// A directory is published beside its authority.
pub proof fn a_directory_is_published_beside(url: &str, r: String)
    requires
        call_ensures(directory_url, (url,), r),
    ensures
        r@ == url@ + "/directory"@,
{
}

/// Authorities are counted one by one: each that lists the relay counts once,
/// and each that did not answer.
pub proof fn authorities_are_counted_one_by_one(views: Seq<AuthorityView>, view: AuthorityView)
    ensures
        listed_count(Seq::<AuthorityView>::empty()) == 0,
        unreachable_count(Seq::<AuthorityView>::empty()) == 0,
        view.listed ==> listed_count(views.push(view)) == listed_count(views) + 1,
        !view.listed ==> listed_count(views.push(view)) == listed_count(views),
        !view.reachable ==> unreachable_count(views.push(view)) == unreachable_count(views) + 1,
        view.reachable ==> unreachable_count(views.push(view)) == unreachable_count(views),
{
    assert(views.push(view).drop_last() =~= views);
}

/// Where none lists the relay, none is counted.
proof fn lemma_none_listed(views: Seq<AuthorityView>)
    requires
        forall|i: int| 0 <= i < views.len() ==> !(#[trigger] views[i]).listed,
    ensures
        listed_count(views) == 0,
    decreases views.len(),
{
    if views.len() > 0 {
        let front = views.drop_last();
        assert forall|i: int| 0 <= i < front.len() implies !(#[trigger] front[i]).listed by {
            assert(front[i] == views[i]);
        }
        assert(!views[views.len() - 1].listed);
        lemma_none_listed(front);
    }
}

/// The command ends with success exactly where clients can use the relay: as
/// many authorities list it as the quorum asks, at least one does, and the first
/// that does names an operator. Its report names the relay, then every authority
/// in turn with how it stands, and gives the one verdict that fits.
pub proof fn a_report_says_how_a_relay_stands(
    pk_hex: &str,
    views: &Vec<AuthorityView>,
    quorum: usize,
    r: (Vec<String>, i32),
    first: int,
)
    requires
        call_ensures(run_doctor, (pk_hex, views, quorum), r),
        0 <= first < views@.len() ==> views@[first].listed,
        0 <= first < views@.len() ==> forall|j: int|
            0 <= j < first ==> !(#[trigger] views@[j]).listed,
        !(0 <= first < views@.len()) ==> forall|j: int|
            0 <= j < views@.len() ==> !(#[trigger] views@[j]).listed,
    ensures
        ({
            let n = listed_count(views@);
            let some = 0 <= first < views@.len();
            let lines = r.0@;
            let enough = n >= quorum && some;
            let named = some && views@[first].operator is Some;
            &&& r.1 == 0 <==> enough && named
            &&& r.1 == 0 || r.1 == 1
            &&& lines.len() > 3 + views@.len()
            &&& lines[0]@ == "Relais "@ + pk_hex@
            &&& forall|i: int|
                0 <= i < views@.len() ==> says_how_it_stands(
                    #[trigger] views@[i],
                    lines[3 + i]@,
                )
            &&& exists|at: int|
                0 <= at < lines.len() && (#[trigger] lines[at])@ == if enough && named {
                    "VERDICT : ce relais fonctionne et peut acheminer du trafic."@
                } else if enough {
                    "VERDICT : ce relais NE SERA JAMAIS CHOISI."@
                } else {
                    "VERDICT : ce relais N'EST PAS UTILISE."@
                }
        }),
{
    let n = listed_count(views@);
    let some = 0 <= first < views@.len();
    let lines = lines_of(r.0@);
    if !some {
        lemma_none_listed(views@);
    } else {
        lemma_one_listed(views@, first);
        assert(is_sample(views@, first));
    }
    let sample = choose|sample: int|
        {
            &&& n >= quorum && n > 0 ==> is_sample(views@, sample)
            &&& lines == opening_lines(pk_hex@, views@) + #[trigger] verdict_lines(
                views@,
                quorum as nat,
                sample,
            )
        };
    assert(lines == opening_lines(pk_hex@, views@) + verdict_lines(views@, quorum as nat, sample));
    assert forall|i: int| #[trigger] is_sample(views@, i) implies i == first by {
        if some {
            if i < first {
                assert(!views@[i].listed);
            }
            if first < i {
                assert(!views@[first].listed);
            }
        } else {
            assert(!views@[i].listed);
        }
    }
    let opening = opening_lines(pk_hex@, views@);
    let ending = verdict_lines(views@, quorum as nat, sample);
    assert(lines.len() == r.0@.len());
    assert(opening.len() >= 4 + views@.len());
    assert(lines[0] == opening[0]);
    assert(r.0@[0]@ == lines[0]);
    assert forall|i: int| 0 <= i < views@.len() implies says_how_it_stands(
        #[trigger] views@[i],
        r.0@[3 + i]@,
    ) by {
        assert(opening[3 + i] == authority_line(views@[i]));
        assert(lines[3 + i] == opening[3 + i]);
        assert(r.0@[3 + i]@ == lines[3 + i]);
        lemma_says_how_it_stands(views@[i]);
    }
    let enough = n >= quorum && some;
    if enough {
        assert(sample == first);
        let at = opening.len() + 6;
        let listing = listing_lines(views@[sample], n, views@.len(), quorum as nat);
        assert(listing.len() == 6);
        assert(lines[at as int] == ending[6]);
        if views@[first].operator is Some {
            assert(fixed_lines(WORKS@)[0] == WORKS@[0]@);
            assert(ending[6] == fixed_lines(WORKS@)[0]);
        } else {
            assert(fixed_lines(NEVER_CHOSEN@)[0] == NEVER_CHOSEN@[0]@);
            assert(ending[6] == fixed_lines(NEVER_CHOSEN@)[0]);
        }
        assert(r.0@[at as int]@ == lines[at as int]);
    } else {
        let at = opening.len() as int;
        assert(ending == not_used_lines(n, quorum as nat));
        assert(lines[at] == ending[0]);
        assert(r.0@[at]@ == lines[at]);
    }
}

/// Where one lists the relay, one is counted.
proof fn lemma_one_listed(views: Seq<AuthorityView>, i: int)
    requires
        0 <= i < views.len(),
        views[i].listed,
    ensures
        listed_count(views) > 0,
    decreases views.len(),
{
    if i < views.len() - 1 {
        assert(views.drop_last()[i] == views[i]);
        lemma_one_listed(views.drop_last(), i);
    }
}

/// Whether a line of a report says of an authority how it stands to the relay:
/// its address, and behind it, in one column for all that fit, whether it could
/// be reached and knows the relay.
pub open spec fn says_how_it_stands(view: AuthorityView, line: Seq<char>) -> bool {
    &&& occurs_at(line, view.url@, 2)
    &&& view.url@.len() <= 32 ==> line.len() > 35 && line[34] == ' ' && line[35] != ' '
    &&& !view.reachable ==> ends_with(line, "INJOIGNABLE"@)
    &&& view.reachable && view.listed ==> ends_with(line, "vous connait"@)
    &&& view.reachable && !view.listed ==> ends_with(line, "ne vous connait PAS"@)
}

/// Whether a text ends with another.
pub open spec fn ends_with(s: Seq<char>, end: Seq<char>) -> bool {
    s.len() >= end.len() && s.skip(s.len() - end.len()) == end
}

/// A line says how an authority stands.
proof fn lemma_says_how_it_stands(view: AuthorityView)
    ensures
        says_how_it_stands(view, authority_line(view)),
{
    let line = authority_line(view);
    let url = view.url@;
    let at = "  "@.len() as int;
    let state = if !view.reachable {
        "INJOIGNABLE"@
    } else if view.listed {
        "vous connait"@
    } else {
        "ne vous connait PAS"@
    };
    reveal_strlit("  ");
    reveal_strlit(" ");
    reveal_strlit("INJOIGNABLE");
    reveal_strlit("vous connait");
    reveal_strlit("ne vous connait PAS");
    assert(line.subrange(at, at + url.len() as int) =~= url);
    assert(occurs_at(line, url, at));
    assert(line.skip(line.len() - state.len()) =~= state);
    if url.len() <= 32 {
        assert(padded_to(url, 32).len() == 32);
        assert(line[35] == state[0]);
    }
}

/// Where the verdict of a report begins: behind the authorities, and behind three
/// lines more where some did not answer.
pub open spec fn verdict_at(views: Seq<AuthorityView>) -> int {
    4 + views.len() + if unreachable_count(views) > 0 {
        3int
    } else {
        0int
    }
}

/// Whether a line says a text, or another where it is missing.
pub open spec fn says(line: Seq<char>, label: Seq<char>, text: Option<String>, other: Seq<char>) -> bool {
    &&& text matches Some(t) ==> line == label + t@
    &&& text is None ==> line == label + other
}

/// A report that some authorities did not answer for says so, with how many. One
/// of a relay that is not used says how many list it and how many are needed, and
/// gives the causes where none lists it, and another where some do. One of a
/// relay that is listed says by how many, with its address, its role, whether it
/// is a rendezvous point, and its operator.
pub proof fn a_report_tells_what_was_found(
    pk_hex: &str,
    views: &Vec<AuthorityView>,
    quorum: usize,
    r: (Vec<String>, i32),
    first: int,
)
    requires
        call_ensures(run_doctor, (pk_hex, views, quorum), r),
        0 <= first < views@.len() ==> views@[first].listed,
        0 <= first < views@.len() ==> forall|j: int|
            0 <= j < first ==> !(#[trigger] views@[j]).listed,
        !(0 <= first < views@.len()) ==> forall|j: int|
            0 <= j < views@.len() ==> !(#[trigger] views@[j]).listed,
    ensures
        ({
            let n = listed_count(views@);
            let missing = unreachable_count(views@);
            let lines = r.0@;
            let asked = views@.len() as int;
            let v = verdict_at(views@);
            let enough = n >= quorum && 0 <= first < asked;
            &&& lines.len() > v
            &&& lines[1]@ == ""@
            &&& lines[2]@ == "Autorites interrogees :"@
            &&& lines[3 + asked]@ == ""@
            &&& missing > 0 ==> {
                &&& lines[4 + asked]@ == "  "@ + decimal_of(missing)
                    + " autorite(s) injoignable(s) : le diagnostic est partiel."@
                &&& lines[5 + asked]@ == "  Verifiez votre connexion sortante avant de conclure."@
                &&& lines[6 + asked]@ == ""@
            }
            &&& !enough ==> {
                &&& lines[v]@ == "VERDICT : ce relais N'EST PAS UTILISE."@
                &&& lines[v + 1]@ == ""@
                &&& lines[v + 2]@ == "  "@ + decimal_of(n)
                    + " autorite(s) vous listent, il en faut "@ + decimal_of(quorum as nat)
                    + ". Les applications"@
                &&& lines[v + 3]@
                    == "  n'acceptent un relais que lorsqu'un quorum d'autorites l'a atteste,"@
                &&& lines[v + 4]@ == "  donc en l'etat aucun message ne passera par vous."@
                &&& lines[v + 5]@ == ""@
                &&& n == 0 ==> lines.len() == v + 14 && lines[v + 6]@
                    == "  Aucune autorite ne vous connait. Les causes, par frequence :"@
                &&& n > 0 ==> lines.len() == v + 9 && lines[v + 6]@
                    == "  Certaines autorites vous voient et d'autres non : l'enrolement"@
            }
            &&& enough ==> {
                let seen = views@[first];
                &&& lines[v]@ == "Vu par "@ + decimal_of(n) + " autorite(s) sur "@ + decimal_of(
                    views@.len(),
                ) + " (quorum "@ + decimal_of(quorum as nat) + ") :"@
                &&& says(lines[v + 1]@, "  adresse            : "@, seen.addr, "?"@)
                &&& says(lines[v + 2]@, "  role               : "@, seen.tier, "?"@)
                &&& seen.rendezvous_capable ==> lines[v + 3]@ == "  point de rendez-vous : "@
                    + "oui"@
                &&& !seen.rendezvous_capable ==> lines[v + 3]@ == "  point de rendez-vous : "@
                    + "non"@
                &&& says(lines[v + 4]@, "  operateur          : "@, seen.operator, "AUCUN"@)
                &&& lines[v + 5]@ == ""@
                &&& seen.operator is Some ==> lines.len() == v + 10 && lines[v + 6]@
                    == "VERDICT : ce relais fonctionne et peut acheminer du trafic."@
                &&& seen.operator is None ==> lines.len() == v + 14 && lines[v + 6]@
                    == "VERDICT : ce relais NE SERA JAMAIS CHOISI."@
            }
        }),
{
    let n = listed_count(views@);
    let some = 0 <= first < views@.len();
    let lines = lines_of(r.0@);
    let asked = views@.len() as int;
    let v = verdict_at(views@);
    if !some {
        lemma_none_listed(views@);
    } else {
        lemma_one_listed(views@, first);
        assert(is_sample(views@, first));
    }
    let sample = choose|sample: int|
        {
            &&& n >= quorum && n > 0 ==> is_sample(views@, sample)
            &&& lines == opening_lines(pk_hex@, views@) + #[trigger] verdict_lines(
                views@,
                quorum as nat,
                sample,
            )
        };
    let opening = opening_lines(pk_hex@, views@);
    let ending = verdict_lines(views@, quorum as nat, sample);
    assert(lines == opening + ending);
    assert forall|i: int| #[trigger] is_sample(views@, i) implies i == first by {
        if some {
            if i < first {
                assert(!views@[i].listed);
            }
            if first < i {
                assert(!views@[first].listed);
            }
        } else {
            assert(!views@[i].listed);
        }
    }
    assert(lines.len() == r.0@.len());
    assert(opening.len() == v);
    assert forall|i: int| 0 <= i < lines.len() implies (#[trigger] r.0@[i])@ == lines[i] by {}
    assert forall|i: int| 0 <= i < v implies lines[i] == #[trigger] opening[i] by {}
    assert forall|i: int| 0 <= i < ending.len() implies lines[v + i] == #[trigger] ending[i] by {}
    assert(opening[1] == ""@);
    assert(opening[2] == "Autorites interrogees :"@);
    assert(opening[3 + asked] == ""@);
    if unreachable_count(views@) > 0 {
        let partial = partial_lines(unreachable_count(views@));
        assert(opening[4 + asked] == partial[0]);
        assert(opening[5 + asked] == partial[1]);
        assert(opening[6 + asked] == partial[2]);
    }
    if n >= quorum && some {
        assert(sample == first);
        let listing = listing_lines(views@[sample], n, views@.len(), quorum as nat);
        assert(listing.len() == 6);
        assert(ending[0] == listing[0]);
        assert(ending[1] == listing[1]);
        assert(ending[2] == listing[2]);
        assert(ending[3] == listing[3]);
        assert(ending[4] == listing[4]);
        assert(ending[5] == listing[5]);
        if views@[first].operator is Some {
            assert(fixed_lines(WORKS@)[0] == WORKS@[0]@);
            assert(ending[6] == fixed_lines(WORKS@)[0]);
        } else {
            assert(fixed_lines(NEVER_CHOSEN@)[0] == NEVER_CHOSEN@[0]@);
            assert(ending[6] == fixed_lines(NEVER_CHOSEN@)[0]);
        }
    } else {
        assert(ending == not_used_lines(n, quorum as nat));
        let fixed = fixed_lines(NOT_USED@);
        assert(fixed.len() == 3);
        assert(ending[3] == fixed[0] && fixed[0] == NOT_USED@[0]@);
        assert(ending[4] == fixed[1] && fixed[1] == NOT_USED@[1]@);
        assert(ending[5] == fixed[2] && fixed[2] == NOT_USED@[2]@);
        assert(ending[0] == "VERDICT : ce relais N'EST PAS UTILISE."@);
        assert(ending[1] == ""@);
        if n == 0 {
            assert(fixed_lines(UNKNOWN_TO_ALL@)[0] == UNKNOWN_TO_ALL@[0]@);
            assert(ending[6] == fixed_lines(UNKNOWN_TO_ALL@)[0]);
        } else {
            assert(fixed_lines(KNOWN_TO_SOME@)[0] == KNOWN_TO_SOME@[0]@);
            assert(ending[6] == fixed_lines(KNOWN_TO_SOME@)[0]);
        }
    }
}

/// A field of a JSON value is what stands under its name in an object, and no
/// other value has fields.
pub proof fn a_field_is_what_an_object_holds(j: Json, key: Seq<char>, fields: Map<Seq<char>, Json>)
    ensures
        j == Json::Object(fields) && fields.contains_key(key) ==> field(j, key) == Some(fields[key]),
        j == Json::Object(fields) && !fields.contains_key(key) ==> field(j, key) is None,
        !(j is Object) ==> field(j, key) is None,
{
}

/// Answers are counted one by one: every authority that answered counts as
/// asked, and as having seen the relay where the relay's key stands in its
/// answer. One that did not answer counts as neither.
pub proof fn answers_are_counted_one_by_one(
    replies: &Vec<AuthorityReply>,
    more: &Vec<AuthorityReply>,
    last: AuthorityReply,
    pk_hex: &str,
    r: (usize, usize),
    with_last: (usize, usize),
)
    requires
        more@ == replies@.push(last),
        call_ensures(tally, (replies, pk_hex), r),
        call_ensures(tally, (more, pk_hex), with_last),
    ensures
        replies@.len() == 0 ==> r.0 == 0 && r.1 == 0,
        last is Unreachable ==> with_last.0 == r.0 && with_last.1 == r.1,
        last is Unreadable ==> with_last.0 == r.0 + 1 && with_last.1 == r.1,
        last matches AuthorityReply::Body(text) ==> {
            &&& with_last.0 == r.0 + 1
            &&& occurs(text@, pk_hex@) ==> with_last.1 == r.1 + 1
            &&& !occurs(text@, pk_hex@) ==> with_last.1 == r.1
        },
{
    assert(more@.drop_last() =~= replies@);
}

/// A relay watches whether two authorities or more list it, and says so when
/// that changes, with how many do. A round that nobody answered tells it
/// nothing.
pub proof fn a_relay_says_when_its_standing_changes(
    fresh: ListingWatch,
    watch: &mut ListingWatch,
    asked: usize,
    seen: usize,
    notice: Option<ListingNotice>,
)
    requires
        call_ensures(ListingWatch::new, (), fresh),
        call_ensures(ListingWatch::on_round, (watch, asked, seen), notice),
    ensures
        fresh@ is None,
        asked == 0 ==> notice is None && final(watch)@ == old(watch)@,
        asked > 0 ==> final(watch)@ == Some(seen >= 2),
        notice is Some <==> asked > 0 && old(watch)@ != Some(seen >= 2),
        notice is Some && seen >= 2 ==> notice == Some(ListingNotice::Listed(seen)),
        notice is Some && seen < 2 ==> notice == Some(ListingNotice::NotListed(seen)),
{
}

} // verus!
