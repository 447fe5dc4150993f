//! Endpoint roles: what a remote address, a host name and a port say about the other side.
use vstd::prelude::*;

use vstd::arithmetic::power2::pow2;

use crate::counts::{
    by_name, by_name_keeps_counts, count_in, lemma_added, name_counts, name_order, occurrences,
    tally_counts_occurrences, tally_has_names_once, tally_of, Tally,
};
use crate::json::{
    array, array_of, bool_or, entry, entry_views, flag_or, items_or_empty, json_views, object,
    opt_view, or_else, str_or_empty, text, text_or_empty, u64_or, uint_or, with_entry, Json,
    JsonView,
};
use crate::signals::lemma_pushed;
use crate::snapshot::lemma_phase_words;
use crate::text::{
    ascii_lower, begins, cat, cat3, chars_of, contains, ends, ends_with, find, find_text, first_at,
    first_occurrence, first_occurrences_are_first, has_text, last_at, lower, lowercase, occurs_at,
    parse_uint, parsed_uint, rfind, same, split, split_on, starts_with, text_of, trim, trimmed,
    views,
};

verus! {

/// One line of the role table: the role `id` is given to a host name that holds one of the
/// patterns and none of the exclusions, and to an address in one of the networks.
pub struct RoleRule {
    pub id: String,
    pub match_patterns: Vec<String>,
    pub cidrs: Vec<String>,
    pub exclude: Vec<String>,
}

/// `a`, or `b` where there is no `a`.
pub open spec fn role_or(a: Option<Seq<char>>, b: Option<Seq<char>>) -> Option<Seq<char>> {
    if a is Some {
        a
    } else {
        b
    }
}

// ---------------------------------------------------------------------------------------------
// Host names

/// One of `list` stands in `host`.
pub open spec fn has_any(host: Seq<char>, list: Seq<Seq<char>>) -> bool {
    exists|i: int| 0 <= i < list.len() && has_text(host, #[trigger] list[i])
}

pub open spec fn rule_takes(rule: RoleRule, host: Seq<char>) -> bool {
    !has_any(host, views(rule.exclude@)) && has_any(host, views(rule.match_patterns@))
}

/// The role of the first rule that takes `host`.
pub open spec fn rule_role(rules: Seq<RoleRule>, host: Seq<char>) -> Seq<char>
    decreases rules.len(),
{
    if rules.len() == 0 {
        "unknown"@
    } else if rule_takes(rules[0], host) {
        rules[0].id@
    } else {
        rule_role(rules.skip(1), host)
    }
}

/// The role that the table gives to a host name, in any letter case.
pub open spec fn host_role(rules: Seq<RoleRule>, hostname: Seq<char>) -> Seq<char> {
    if lowercase(hostname).len() == 0 {
        "unknown"@
    } else {
        rule_role(rules, lowercase(hostname))
    }
}

fn any_in(host: &str, list: &Vec<String>) -> (r: bool)
    ensures
        r == has_any(host@, views(list@)),
{
    let mut i: usize = 0;
    while i < list.len()
        invariant
            i <= list.len(),
            forall|j: int| 0 <= j < i ==> !has_text(host@, (#[trigger] views(list@)[j])),
        decreases list.len() - i,
    {
        assert(views(list@)[i as int] == list@[i as int]@);
        if contains(host, list[i].as_str()) {
            return true;
        }
        i += 1;
    }
    false
}

/// The role that the first matching rule gives to `hostname`, or "unknown".
pub fn classify_host(rules: &Vec<RoleRule>, hostname: &str) -> (r: String)
    ensures
        r@ == host_role(rules@, hostname@),
{
    let host = lower(hostname);
    if host.as_str().is_empty() {
        return "unknown".to_owned();
    }
    let mut i: usize = 0;
    assert(rules@.skip(0) =~= rules@);
    while i < rules.len()
        invariant
            i <= rules.len(),
            host@ == lowercase(hostname@),
            host@.len() > 0,
            rule_role(rules@, host@) == rule_role(rules@.skip(i as int), host@),
        decreases rules.len() - i,
    {
        let rule = &rules[i];
        assert(rules@.skip(i as int)[0] == *rule);
        assert(rules@.skip(i as int).skip(1) =~= rules@.skip(i + 1));
        if !any_in(host.as_str(), &rule.exclude) && any_in(host.as_str(), &rule.match_patterns) {
            return rule.id.clone();
        }
        i += 1;
    }
    assert(rules@.skip(i as int) =~= Seq::empty());
    "unknown".to_owned()
}

// ---------------------------------------------------------------------------------------------
// Addresses

pub open spec fn is_bracket(c: char) -> bool {
    c == '[' || c == ']'
}

/// The text without square brackets at either end.
pub open spec fn unbracketed(s: Seq<char>) -> Seq<char>
    decreases s.len(),
{
    if s.len() > 0 && is_bracket(s[0]) {
        unbracketed(s.skip(1))
    } else if s.len() > 0 && is_bracket(s.last()) {
        unbracketed(s.drop_last())
    } else {
        s
    }
}

pub open spec fn char_count(s: Seq<char>, c: char) -> nat
    decreases s.len(),
{
    if s.len() == 0 {
        0
    } else {
        char_count(s.drop_last(), c) + if s.last() == c {
            1nat
        } else {
            0nat
        }
    }
}

/// The IPv4 address in an endpoint such as `1.2.3.4`, `[1.2.3.4]` or `1.2.3.4:80`; empty
/// where there is none.
pub open spec fn ip_of(remote: Seq<char>) -> Seq<char> {
    let bare = unbracketed(trimmed(remote));
    if trimmed(remote).len() == 0 {
        Seq::empty()
    } else if bare.contains(':') && bare.contains('.') {
        bare.take(last_at(bare, ':'))
    } else if char_count(bare, '.') == 3 {
        bare
    } else {
        Seq::empty()
    }
}

fn strip_brackets(v: &Vec<char>) -> (r: (usize, usize))
    ensures
        r.0 <= r.1 <= v.len(),
        v@.subrange(r.0 as int, r.1 as int) == unbracketed(v@),
{
    let mut a: usize = 0;
    let mut b: usize = v.len();
    assert(v@.subrange(0, v@.len() as int) =~= v@);
    while a < b && (v[a] == '[' || v[a] == ']')
        invariant
            a <= b,
            b == v.len(),
            unbracketed(v@) == unbracketed(v@.subrange(a as int, b as int)),
        decreases b - a,
    {
        assert(v@.subrange(a as int, b as int).skip(1) =~= v@.subrange(a + 1, b as int));
        a += 1;
    }
    while a < b && (v[b - 1] == '[' || v[b - 1] == ']')
        invariant
            a <= b <= v.len(),
            unbracketed(v@) == unbracketed(v@.subrange(a as int, b as int)),
            a < b ==> !is_bracket(v@[a as int]),
        decreases b - a,
    {
        let ghost t = v@.subrange(a as int, b as int);
        assert(t[0] == v@[a as int]);
        assert(t.drop_last() =~= v@.subrange(a as int, b - 1));
        b -= 1;
    }
    proof {
        let t = v@.subrange(a as int, b as int);
        if a < b {
            assert(t[0] == v@[a as int]);
            assert(t.last() == v@[b - 1]);
        }
    }
    (a, b)
}

fn count_char(v: &Vec<char>, c: char) -> (r: usize)
    ensures
        r == char_count(v@, c),
{
    let mut n: usize = 0;
    let mut i: usize = 0;
    while i < v.len()
        invariant
            i <= v.len(),
            n <= i,
            n == char_count(v@.take(i as int), c),
        decreases v.len() - i,
    {
        proof {
            let t = v@.take(i + 1);
            assert(t.drop_last() =~= v@.take(i as int));
        }
        if v[i] == c {
            n += 1;
        }
        i += 1;
    }
    assert(v@.take(i as int) =~= v@);
    n
}

fn holds(v: &Vec<char>, c: char) -> (r: bool)
    ensures
        r == v@.contains(c),
{
    let k = find(v, c);
    proof {
        if k < v.len() {
            assert(v@[k as int] == c);
        }
    }
    k < v.len()
}

/// The IPv4 address in an endpoint, without its port; empty where there is none.
pub fn extract_ip(remote: &str) -> (r: String)
    ensures
        r@ == ip_of(remote@),
{
    let s = trim(remote);
    if s.as_str().is_empty() {
        let e = String::new();
        return e;
    }
    let v = chars_of(s.as_str());
    let (a, b) = strip_brackets(&v);
    let bare_text = text_of(&v, a, b);
    let bare = chars_of(bare_text.as_str());
    let colon = rfind(&bare, ':');
    let dot = holds(&bare, '.');
    proof {
        if let Some(k) = colon {
            assert(bare@[k as int] == ':');
        } else {
            lemma_no_last(bare@, ':');
        }
    }
    match colon {
        Some(k) => {
            if dot {
                let t = text_of(&bare, 0, k);
                assert(bare@.subrange(0, k as int) =~= bare@.take(k as int));
                return t;
            }
        },
        None => {},
    }
    if count_char(&bare, '.') == 3 {
        return bare_text;
    }
    String::new()
}

proof fn lemma_no_last(s: Seq<char>, c: char)
    requires
        last_at(s, c) == -1,
    ensures
        !s.contains(c),
    decreases s.len(),
{
    if s.len() > 0 {
        lemma_no_last(s.drop_last(), c);
        assert forall|i: int| 0 <= i < s.len() implies s[i] != c by {
            if i < s.len() - 1 {
                assert(s.drop_last()[i] == s[i]);
                assert(!s.drop_last().contains(c));
            }
        }
    }
}

/// The pieces that write a number below 256, in order.
pub open spec fn octets(parts: Seq<Seq<char>>) -> Seq<nat>
    decreases parts.len(),
{
    if parts.len() == 0 {
        Seq::empty()
    } else {
        let before = octets(parts.drop_last());
        match parsed_uint(parts.last(), 255) {
            Some(n) => before.push(n),
            None => before,
        }
    }
}

/// The number of a dotted address: its four octets, the first one highest. Pieces that are no
/// octet are passed over.
pub open spec fn ipv4_number(ip: Seq<char>) -> Option<nat> {
    let o = octets(split_on(ip, '.'));
    if o.len() == 4 {
        Some(((o[0] * 256 + o[1]) * 256 + o[2]) * 256 + o[3])
    } else {
        None
    }
}

/// The number of a dotted address.
pub fn parse_ipv4(ip: &str) -> (r: Option<u32>)
    ensures
        match r {
            Some(n) => ipv4_number(ip@) == Some(n as nat),
            None => ipv4_number(ip@) is None,
        },
{
    let parts = split(ip, '.');
    let mut o: Vec<u32> = Vec::new();
    let mut i: usize = 0;
    while i < parts.len()
        invariant
            i <= parts.len(),
            o@.map_values(|n: u32| n as nat) == octets(views(parts@).take(i as int)),
            forall|j: int| 0 <= j < o.len() ==> #[trigger] o@[j] <= 255,
        decreases parts.len() - i,
    {
        let ghost before = o@;
        proof {
            let t = views(parts@).take(i + 1);
            assert(t.drop_last() =~= views(parts@).take(i as int));
            assert(t.last() == parts@[i as int]@);
        }
        match parse_uint(parts[i].as_str(), 255) {
            Some(n) => {
                o.push(n as u32);
                assert(o@.map_values(|n: u32| n as nat) =~= before.map_values(
                    |n: u32| n as nat,
                ).push(n as nat));
            },
            None => {},
        }
        i += 1;
    }
    assert(views(parts@).take(i as int) =~= views(parts@));
    let ghost s = o@.map_values(|n: u32| n as nat);
    assert(s.len() == o.len());
    if o.len() != 4 {
        return None;
    }
    assert(s[0] == o@[0] && s[1] == o@[1] && s[2] == o@[2] && s[3] == o@[3]);
    Some(((o[0] * 256 + o[1]) * 256 + o[2]) * 256 + o[3])
}

/// The address lies in the network: both numbers agree in their first `prefix` bits.
pub open spec fn in_network(ip: Seq<char>, cidr: Seq<char>) -> bool {
    let at = first_at(cidr, '/');
    let net = ipv4_number(cidr.take(at));
    let prefix = parsed_uint(cidr.skip(at + 1), u32::MAX as nat);
    &&& at < cidr.len()
    &&& ipv4_number(ip) is Some
    &&& net is Some
    &&& prefix is Some
    &&& prefix->0 <= 32
    &&& ipv4_number(ip)->0 / pow2((32 - prefix->0) as nat) == net->0 / pow2(
        (32 - prefix->0) as nat,
    )
}

fn two_to(k: u32) -> (r: u64)
    requires
        k <= 32,
    ensures
        r == pow2(k as nat),
        r > 0,
{
    let mut n: u64 = 1;
    let mut i: u32 = 0;
    proof {
        vstd::arithmetic::power2::lemma2_to64();
    }
    while i < k
        invariant
            i <= k <= 32,
            n == pow2(i as nat),
            n <= 0x1_0000_0000,
            n > 0,
        decreases k - i,
    {
        proof {
            vstd::arithmetic::power2::lemma_pow2_unfold((i + 1) as nat);
            vstd::arithmetic::power2::lemma2_to64();
            if i + 1 < 32 {
                vstd::arithmetic::power2::lemma_pow2_strictly_increases((i + 1) as nat, 32);
            }
        }
        n = n * 2;
        i += 1;
    }
    n
}

/// Whether an address lies in a network written as `net/prefix`.
pub fn ip_in_cidr(ip: &str, cidr: &str) -> (r: bool)
    ensures
        r == in_network(ip@, cidr@),
{
    let v = chars_of(cidr);
    let at = find(&v, '/');
    if at == v.len() {
        return false;
    }
    let net = text_of(&v, 0, at);
    let prefix = text_of(&v, at + 1, v.len());
    assert(net@ =~= cidr@.take(at as int));
    assert(prefix@ =~= cidr@.skip(at + 1));
    let ip_n: u32 = match parse_ipv4(ip) {
        Some(n) => n,
        None => {
            return false;
        },
    };
    let net_n: u32 = match parse_ipv4(net.as_str()) {
        Some(n) => n,
        None => {
            return false;
        },
    };
    let p: u64 = match parse_uint(prefix.as_str(), 0xffff_ffff) {
        Some(n) => n,
        None => {
            return false;
        },
    };
    if p > 32 {
        return false;
    }
    let size: u64 = two_to(32 - p as u32);
    ip_n as u64 / size == net_n as u64 / size
}

/// `ip` lies in one of the networks of `rule`.
pub open spec fn rule_covers(rule: RoleRule, ip: Seq<char>) -> bool {
    exists|i: int| 0 <= i < rule.cidrs@.len() && in_network(ip, (#[trigger] rule.cidrs@[i])@)
}

/// The role of the first rule with a network that holds `ip`.
pub open spec fn network_role(rules: Seq<RoleRule>, ip: Seq<char>) -> Option<Seq<char>>
    decreases rules.len(),
{
    if rules.len() == 0 {
        None
    } else if rule_covers(rules[0], ip) {
        Some(rules[0].id@)
    } else {
        network_role(rules.skip(1), ip)
    }
}

pub open spec fn opt_text(s: Option<String>) -> Option<Seq<char>> {
    match s {
        Some(t) => Some(t@),
        None => None,
    }
}

fn covers(rule: &RoleRule, ip: &str) -> (r: bool)
    ensures
        r == rule_covers(*rule, ip@),
{
    let mut i: usize = 0;
    while i < rule.cidrs.len()
        invariant
            i <= rule.cidrs.len(),
            forall|j: int| 0 <= j < i ==> !in_network(ip@, (#[trigger] rule.cidrs@[j])@),
        decreases rule.cidrs.len() - i,
    {
        if ip_in_cidr(ip, rule.cidrs[i].as_str()) {
            return true;
        }
        i += 1;
    }
    false
}

/// The role of the first rule with a network that holds `ip`; none for the empty text.
pub fn classify_cidr(rules: &Vec<RoleRule>, ip: &str) -> (r: Option<String>)
    ensures
        opt_text(r) == if ip@.len() == 0 {
            None
        } else {
            network_role(rules@, ip@)
        },
{
    if ip.is_empty() {
        return None;
    }
    let mut i: usize = 0;
    assert(rules@.skip(0) =~= rules@);
    while i < rules.len()
        invariant
            i <= rules.len(),
            ip@.len() > 0,
            network_role(rules@, ip@) == network_role(rules@.skip(i as int), ip@),
        decreases rules.len() - i,
    {
        assert(rules@.skip(i as int)[0] == rules@[i as int]);
        assert(rules@.skip(i as int).skip(1) =~= rules@.skip(i + 1));
        if covers(&rules[i], ip) {
            return Some(rules[i].id.clone());
        }
        i += 1;
    }
    assert(rules@.skip(i as int) =~= Seq::empty());
    None
}

/// The address is in one of the ranges for private use or the loopback range, or is no IPv4
/// address.
pub open spec fn private_ip(ip: Seq<char>) -> bool {
    match ipv4_number(ip) {
        None => true,
        Some(n) => {
            let first = n / 0x100_0000;
            let second = (n / 0x1_0000) % 256;
            ||| first == 10
            ||| first == 172 && 16 <= second <= 31
            ||| first == 192 && second == 168
            ||| first == 127
        },
    }
}

/// Whether an address is private, loopback, or no IPv4 address at all.
pub fn is_private_ip(ip: &str) -> (r: bool)
    ensures
        r == private_ip(ip@),
{
    match parse_ipv4(ip) {
        None => true,
        Some(n) => {
            let first: u32 = n / 0x100_0000;
            let second: u32 = (n / 0x1_0000) % 256;
            first == 10 || (first == 172 && 16 <= second && second <= 31) || (first == 192 && second
                == 168) || first == 127
        },
    }
}

/// The address of the home gateway.
pub open spec fn gateway_ip() -> Seq<char> {
    "192.0.2.1"@
}

/// The role of an address on the home network: the gateway, or another private address.
pub open spec fn local_role(ip: Seq<char>) -> Option<Seq<char>> {
    if ip == gateway_ip() {
        Some("lan-gateway"@)
    } else if private_ip(ip) {
        Some("lan-local"@)
    } else {
        None
    }
}

/// The role of an address on the home network.
pub fn classify_local_ip(ip: &str) -> (r: Option<String>)
    ensures
        opt_text(r) == local_role(ip@),
{
    if same(ip, "192.0.2.1") {
        return Some("lan-gateway".to_owned());
    }
    if !is_private_ip(ip) {
        return None;
    }
    Some("lan-local".to_owned())
}

// ---------------------------------------------------------------------------------------------
// Ports

pub open spec fn is_udp(proto: Seq<char>) -> bool {
    proto.map_values(|c: char| ascii_lower(c)) == "udp"@
}

fn lower_ascii(c: char) -> (r: char)
    ensures
        r == ascii_lower(c),
{
    if 'A' <= c && c <= 'Z' {
        (c as u8 + 32) as char
    } else {
        c
    }
}

fn udp(proto: &str) -> (r: bool)
    ensures
        r == is_udp(proto@),
{
    let v = chars_of(proto);
    let ghost t = proto@.map_values(|c: char| ascii_lower(c));
    proof {
        reveal_strlit("udp");
    }
    if v.len() != 3 {
        assert(t.len() != "udp"@.len());
        return false;
    }
    assert(t[0] == ascii_lower(v@[0]) && t[1] == ascii_lower(v@[1]) && t[2] == ascii_lower(v@[2]));
    let r = lower_ascii(v[0]) == 'u' && lower_ascii(v[1]) == 'd' && lower_ascii(v[2]) == 'p';
    assert(r ==> t =~= "udp"@);
    r
}

/// UDP from a game port or from any port above the reserved ones.
pub open spec fn player_port(port: Option<u16>, proto: Seq<char>) -> bool {
    is_udp(proto) && port is Some && port->0 >= 1024
}

/// Inbound UDP on game ports: used to detect mesh- or server-shaped traffic.
pub fn is_inbound_player_peer_port(port: Option<u16>, proto: &str) -> (r: bool)
    ensures
        r == player_port(port, proto@),
{
    if !udp(proto) {
        return false;
    }
    match port {
        Some(p) => p == 3074 || p == 3075 || p >= 1024,
        None => false,
    }
}

/// The role that UDP on a game port gives to a public address.
pub open spec fn udp_role(ip: Seq<char>, port: Option<u16>, proto: Seq<char>) -> Option<Seq<char>> {
    if ip.len() == 0 || private_ip(ip) || !is_udp(proto) {
        None
    } else {
        match port {
            Some(p) => if p == 3074 || p == 3075 {
                Some("dedicated-server"@)
            } else if p >= 1024 {
                Some("p2p-mesh"@)
            } else {
                None
            },
            None => None,
        }
    }
}

/// The role that UDP on a game port gives to a public address.
pub fn classify_udp_game_role(ip: &str, port: Option<u16>, proto: &str) -> (r: Option<String>)
    ensures
        opt_text(r) == udp_role(ip@, port, proto@),
{
    if ip.is_empty() || is_private_ip(ip) {
        return None;
    }
    if !udp(proto) {
        return None;
    }
    match port {
        Some(p) => {
            if p == 3074 || p == 3075 {
                Some("dedicated-server".to_owned())
            } else if p >= 1024 {
                Some("p2p-mesh".to_owned())
            } else {
                None
            }
        },
        None => None,
    }
}

/// The role of an endpoint that neither its address nor its name gives away.
pub fn classify_peer_fallback(ip: &str, port: Option<u16>, proto: &str) -> (r: Option<String>)
    ensures
        opt_text(r) == udp_role(ip@, port, proto@),
{
    classify_udp_game_role(ip, port, proto)
}

// ---------------------------------------------------------------------------------------------
// Endpoints

/// The text is an address and nothing else.
pub open spec fn ipish(h: Seq<char>) -> bool {
    h.len() > 0 && ip_of(h) == h
}

/// Whether the text is an address and nothing else.
pub fn is_ipish(h: &str) -> (r: bool)
    ensures
        r == ipish(h@),
{
    if h.is_empty() {
        return false;
    }
    let ip = extract_ip(h);
    same(ip.as_str(), h)
}

/// The role that an address has by itself: on the home network first, then in the table.
pub open spec fn address_role(rules: Seq<RoleRule>, ip: Seq<char>) -> Option<Seq<char>> {
    if ip.len() == 0 {
        None
    } else {
        role_or(local_role(ip), network_role(rules, ip))
    }
}

/// The role of a host name, where the table knows it.
pub open spec fn known_role(rules: Seq<RoleRule>, host: Seq<char>) -> Option<Seq<char>> {
    if host.len() > 0 && host_role(rules, host) != "unknown"@ {
        Some(host_role(rules, host))
    } else {
        None
    }
}

/// The role of a host name that is no bare address, where the table knows it.
pub open spec fn named_role(rules: Seq<RoleRule>, hint: Seq<char>) -> Option<Seq<char>> {
    if ipish(hint) {
        None
    } else {
        known_role(rules, hint)
    }
}

/// The first of these that answers: the address, the host name, the port, the host name where it
/// is an address, and last what the table says of the address or of the whole text.
pub open spec fn endpoint_role(
    rules: Seq<RoleRule>,
    remote: Seq<char>,
    hint: Seq<char>,
    port: Option<u16>,
    proto: Seq<char>,
) -> Seq<char> {
    let ip = ip_of(remote);
    let name = trimmed(hint);
    let found = role_or(
        address_role(rules, ip),
        role_or(
            named_role(rules, name),
            role_or(udp_role(ip, port, proto), known_role(rules, name)),
        ),
    );
    match found {
        Some(role) => role,
        None => if ip.len() > 0 {
            host_role(rules, ip)
        } else {
            host_role(rules, remote)
        },
    }
}

/// As `endpoint_role`, but a host name of a hosting provider does not count, and the port is
/// asked before anything else that the name could say.
pub open spec fn inbound_role(
    rules: Seq<RoleRule>,
    remote: Seq<char>,
    hint: Seq<char>,
    port: Option<u16>,
    proto: Seq<char>,
) -> Seq<char> {
    let ip = ip_of(remote);
    let named = named_role(rules, trimmed(hint));
    let by_name = if named == Some("vps-probe-host"@) {
        None
    } else {
        named
    };
    let by_port = if player_port(port, proto) {
        udp_role(ip, port, proto)
    } else {
        None
    };
    match role_or(address_role(rules, ip), role_or(by_name, by_port)) {
        Some(role) => role,
        None => endpoint_role(rules, remote, hint, port, proto),
    }
}

fn classify_address(rules: &Vec<RoleRule>, ip: &str) -> (r: Option<String>)
    ensures
        opt_text(r) == address_role(rules@, ip@),
{
    if ip.is_empty() {
        return None;
    }
    match classify_local_ip(ip) {
        Some(role) => Some(role),
        None => classify_cidr(rules, ip),
    }
}

fn classify_known(rules: &Vec<RoleRule>, host: &str) -> (r: Option<String>)
    ensures
        opt_text(r) == known_role(rules@, host@),
{
    if host.is_empty() {
        return None;
    }
    let role = classify_host(rules, host);
    if same(role.as_str(), "unknown") {
        None
    } else {
        Some(role)
    }
}

fn classify_named(rules: &Vec<RoleRule>, hint: &str) -> (r: Option<String>)
    ensures
        opt_text(r) == named_role(rules@, hint@),
{
    if is_ipish(hint) {
        return None;
    }
    classify_known(rules, hint)
}

/// Classifies inbound traffic: ports of peer-to-peer shape stay unconfirmed until the provider's
/// identity or probe traffic confirms them.
pub fn classify_inbound_endpoint(
    rules: &Vec<RoleRule>,
    remote: &str,
    hostname_hint: &str,
    port: Option<u16>,
    proto: &str,
) -> (r: String)
    ensures
        r@ == inbound_role(rules@, remote@, hostname_hint@, port, proto@),
{
    let ip = extract_ip(remote);
    if let Some(role) = classify_address(rules, ip.as_str()) {
        return role;
    }
    let hint = trim(hostname_hint);
    if let Some(role) = classify_named(rules, hint.as_str()) {
        if !same(role.as_str(), "vps-probe-host") {
            return role;
        }
    }
    if is_inbound_player_peer_port(port, proto) {
        if let Some(role) = classify_udp_game_role(ip.as_str(), port, proto) {
            return role;
        }
    }
    classify_endpoint_with_port(rules, remote, hostname_hint, port, proto)
}

/// The role of an endpoint of which only the address and the name are known.
pub fn classify_endpoint(rules: &Vec<RoleRule>, remote: &str, hostname_hint: &str) -> (r: String)
    ensures
        r@ == endpoint_role(rules@, remote@, hostname_hint@, None, ""@),
{
    classify_endpoint_with_port(rules, remote, hostname_hint, None, "")
}

/// The role of an endpoint.
pub fn classify_endpoint_with_port(
    rules: &Vec<RoleRule>,
    remote: &str,
    hostname_hint: &str,
    port: Option<u16>,
    proto: &str,
) -> (r: String)
    ensures
        r@ == endpoint_role(rules@, remote@, hostname_hint@, port, proto@),
{
    let ip = extract_ip(remote);
    if let Some(role) = classify_address(rules, ip.as_str()) {
        return role;
    }
    let hint = trim(hostname_hint);
    if let Some(role) = classify_named(rules, hint.as_str()) {
        return role;
    }
    if let Some(role) = classify_peer_fallback(ip.as_str(), port, proto) {
        return role;
    }
    if let Some(role) = classify_known(rules, hint.as_str()) {
        return role;
    }
    if !ip.as_str().is_empty() {
        return classify_host(rules, ip.as_str());
    }
    classify_host(rules, remote)
}

// ---------------------------------------------------------------------------------------------
// Kinds of roles

/// The short number of a role.
pub open spec fn role_number(role: Seq<char>) -> u8 {
    if role == "warzone-game"@ {
        1
    } else if role == "dedicated-server"@ {
        2
    } else if role == "matchmaking"@ {
        3
    } else if role == "game-assets"@ {
        4
    } else if role == "telemetry"@ {
        5
    } else if role == "xbox-live"@ {
        6
    } else if role == "azure-qos"@ {
        7
    } else if role == "notifications"@ {
        8
    } else if vps_probe_role(role) {
        9
    } else if p2p_mesh_role(role) {
        10
    } else {
        0
    }
}

/// The short number of a role; 0 for a role without one.
pub fn role_index(role: &str) -> (r: u8)
    ensures
        r == role_number(role@),
{
    if same(role, "warzone-game") {
        1
    } else if same(role, "dedicated-server") {
        2
    } else if same(role, "matchmaking") {
        3
    } else if same(role, "game-assets") {
        4
    } else if same(role, "telemetry") {
        5
    } else if same(role, "xbox-live") {
        6
    } else if same(role, "azure-qos") {
        7
    } else if same(role, "notifications") {
        8
    } else if is_vps_probe_role(role) {
        9
    } else if is_p2p_mesh_role(role) {
        10
    } else {
        0
    }
}

/// The number of a phase; an unknown phase counts as background.
pub open spec fn phase_number(phase: Seq<char>) -> u8 {
    if phase == "idle"@ {
        0
    } else if phase == "matchmaking"@ {
        2
    } else if phase == "in-match"@ {
        3
    } else if phase == "post-match"@ {
        4
    } else {
        1
    }
}

/// The number of a phase; an unknown phase counts as background.
pub fn phase_code(phase: &str) -> (r: u8)
    ensures
        r == phase_number(phase@),
{
    if same(phase, "idle") {
        0
    } else if same(phase, "background") {
        proof {
            reveal_strlit("background");
            reveal_strlit("idle");
            reveal_strlit("matchmaking");
            reveal_strlit("in-match");
            reveal_strlit("post-match");
            assert("background"@.len() == 10);
            assert("matchmaking"@[0] == 'm');
            assert("post-match"@[0] == 'p');
            assert("background"@[0] == 'b');
        }
        1
    } else if same(phase, "matchmaking") {
        2
    } else if same(phase, "in-match") {
        3
    } else if same(phase, "post-match") {
        4
    } else {
        1
    }
}

pub open spec fn vps_probe_role(role: Seq<char>) -> bool {
    role == "vps-probe"@ || role == "game-peer"@
}

pub open spec fn p2p_mesh_role(role: Seq<char>) -> bool {
    role == "p2p-mesh"@ || role == "p2p-unconfirmed"@
}

/// Whether the role is that of a confirmed probe host.
pub fn is_game_peer(role: &str) -> (r: bool)
    ensures
        r == vps_probe_role(role@),
{
    is_vps_probe_role(role)
}

/// Whether the role is that of unconfirmed peer-to-peer traffic.
pub fn is_p2p_unconfirmed(role: &str) -> (r: bool)
    ensures
        r == p2p_mesh_role(role@),
{
    is_p2p_mesh_role(role)
}

/// Whether the role is that of a confirmed probe host.
pub fn is_vps_probe_role(role: &str) -> (r: bool)
    ensures
        r == vps_probe_role(role@),
{
    same(role, "vps-probe") || same(role, "game-peer")
}

/// Whether the role is that of unconfirmed peer-to-peer traffic.
pub fn is_p2p_mesh_role(role: &str) -> (r: bool)
    ensures
        r == p2p_mesh_role(role@),
{
    same(role, "p2p-mesh") || same(role, "p2p-unconfirmed")
}

/// An address in one of the blocks of the provider Vultr.
pub open spec fn vultr_ip(ip: Seq<char>) -> bool {
    ||| begins(ip, "45.76."@)
    ||| begins(ip, "45.77."@)
    ||| begins(ip, "66.42."@)
    ||| begins(ip, "96.30."@)
    ||| begins(ip, "108.61."@)
    ||| begins(ip, "149.28."@)
    ||| begins(ip, "155.138."@)
    ||| begins(ip, "207.148."@)
    ||| begins(ip, "140.82."@)
    ||| begins(ip, "144.202."@)
}

/// Whether an address lies in one of the blocks of the provider Vultr.
pub fn is_vultr_ip(ip: &str) -> (r: bool)
    ensures
        r == vultr_ip(ip@),
{
    starts_with(ip, "45.76.") || starts_with(ip, "45.77.") || starts_with(ip, "66.42.")
        || starts_with(ip, "96.30.") || starts_with(ip, "108.61.") || starts_with(ip, "149.28.")
        || starts_with(ip, "155.138.") || starts_with(ip, "207.148.") || starts_with(ip, "140.82.")
        || starts_with(ip, "144.202.")
}

/// The address, or a word in the host name, is that of a provider of virtual servers.
pub open spec fn vps_provider(rules: Seq<RoleRule>, ip: Seq<char>, hint: Seq<char>) -> bool {
    let host = lowercase(hint);
    &&& ip.len() > 0
    &&& {
        ||| vultr_ip(ip)
        ||| has_text(host, "vultr"@)
        ||| has_text(host, "choopa"@)
        ||| has_text(host, "linode"@)
        ||| has_text(host, "digitalocean"@)
        ||| has_text(host, "your-server"@)
        ||| hint.len() > 0 && host_role(rules, hint) == "vps-probe-host"@
    }
}

/// Whether address or host name belong to a provider of virtual servers. By itself this confirms
/// no probe traffic.
pub fn is_vps_provider_host(rules: &Vec<RoleRule>, ip: &str, hostname_hint: &str) -> (r: bool)
    ensures
        r == vps_provider(rules@, ip@, hostname_hint@),
{
    if ip.is_empty() {
        return false;
    }
    if is_vultr_ip(ip) {
        return true;
    }
    let hint = lower(hostname_hint);
    let h = hint.as_str();
    if contains(h, "vultr") || contains(h, "choopa") || contains(h, "linode") || contains(
        h,
        "digitalocean",
    ) || contains(h, "your-server") {
        return true;
    }
    if hostname_hint.is_empty() {
        return false;
    }
    let role = classify_host(rules, hostname_hint);
    same(role.as_str(), "vps-probe-host")
}

/// The same as `is_vps_provider_host`: probe traffic is needed too before a host is a hostile peer.
pub fn is_confirmed_player_peer_host(rules: &Vec<RoleRule>, ip: &str, hostname_hint: &str) -> (r:
    bool)
    ensures
        r == vps_provider(rules@, ip@, hostname_hint@),
{
    is_vps_provider_host(rules, ip, hostname_hint)
}

/// The traffic repeats itself as probes do: six or more identical packets, or three tiny ones
/// among six or more.
pub open spec fn probe_traffic(
    identical_count: u32,
    tiny_packets: u64,
    total_packets: u64,
) -> bool {
    identical_count >= 6 || (tiny_packets >= 3 && total_packets >= 6)
}

/// Promotes to player peer only after repeated probe-shaped traffic, not on the port alone.
pub fn confirm_player_peer_from_probe_signals(
    identical_count: u32,
    tiny_packets: u64,
    total_packets: u64,
    packet_size_min: u64,
    packet_size_max: u64,
) -> (r: bool)
    ensures
        r == probe_traffic(identical_count, tiny_packets, total_packets),
{
    let fixed = packet_size_min > 0 && packet_size_min == packet_size_max && identical_count >= 6;
    fixed || identical_count >= 6 || (tiny_packets >= 3 && total_packets >= 6)
}

/// The role of a peer once its packets were looked at: infrastructure keeps its role, probe
/// traffic from a provider's host makes a probe host, and what claims to be one without that
/// falls back to unconfirmed mesh traffic.
pub open spec fn resolved_role(
    rules: Seq<RoleRule>,
    ip: Seq<char>,
    hint: Seq<char>,
    base: Seq<char>,
    probe: bool,
) -> Seq<char> {
    if infrastructure(base) {
        base
    } else if probe && vps_provider(rules, ip, hint) {
        "vps-probe"@
    } else if p2p_mesh_role(base) || vps_probe_role(base) {
        "p2p-mesh"@
    } else {
        base
    }
}

/// The role of an inbound peer, given its base role and what its packets look like.
pub fn resolve_inbound_peer_role(
    rules: &Vec<RoleRule>,
    ip: &str,
    hostname_hint: &str,
    base_role: &str,
    identical_count: u32,
    tiny_packets: u64,
    total_packets: u64,
    packet_size_min: u64,
    packet_size_max: u64,
) -> (r: String)
    ensures
        r@ == resolved_role(
            rules@,
            ip@,
            hostname_hint@,
            base_role@,
            probe_traffic(identical_count, tiny_packets, total_packets),
        ),
{
    if is_infrastructure(base_role) {
        return base_role.to_owned();
    }
    let probe = confirm_player_peer_from_probe_signals(
        identical_count,
        tiny_packets,
        total_packets,
        packet_size_min,
        packet_size_max,
    );
    if probe && is_vps_provider_host(rules, ip, hostname_hint) {
        return "vps-probe".to_owned();
    }
    if is_p2p_mesh_role(base_role) || is_vps_probe_role(base_role) {
        return "p2p-mesh".to_owned();
    }
    base_role.to_owned()
}

/// The roles that reach the console during a match: the game, Xbox Live and the home network.
pub open spec fn in_match_allowed(role: Seq<char>) -> bool {
    ||| role == "warzone-game"@
    ||| role == "dedicated-server"@
    ||| role == "xbox-live"@
    ||| role == "lan-local"@
    ||| role == "lan-gateway"@
}

/// Whether a role may reach the console while the in-match shield is up.
pub fn is_in_match_allowed(role: &str) -> (r: bool)
    ensures
        r == in_match_allowed(role@),
{
    same(role, "warzone-game") || same(role, "dedicated-server") || same(role, "xbox-live") || same(
        role,
        "lan-local",
    ) || same(role, "lan-gateway")
}

/// Probe hosts and unconfirmed peers are dropped always; during a match so is every role that is
/// not allowed then.
pub open spec fn drop_role(role: Seq<char>, phase: Seq<char>) -> bool {
    ||| vps_probe_role(role)
    ||| p2p_mesh_role(role)
    ||| phase == "in-match"@ && role.len() > 0 && !in_match_allowed(role)
}

/// Whether inbound traffic of a role is dropped in a phase.
pub fn should_drop_inbound_role(role: &str, phase: &str) -> (r: bool)
    ensures
        r == drop_role(role@, phase@),
{
    if is_vps_probe_role(role) || is_p2p_mesh_role(role) {
        return true;
    }
    same(phase, "in-match") && !role.is_empty() && !is_in_match_allowed(role)
}

/// Whether inbound traffic of a role and a port is dropped in a phase.
pub fn should_drop_inbound(role: &str, port: Option<u16>, proto: &str, phase: &str) -> (r: bool)
    ensures
        r == (drop_role(role@, phase@) || player_port(port, proto@)),
{
    if is_game_peer(role) || is_p2p_unconfirmed(role) {
        return true;
    }
    if is_inbound_player_peer_port(port, proto) {
        return true;
    }
    should_drop_inbound_role(role, phase)
}

/// The peer table shows no infrastructure; it shows probe hosts, unconfirmed peers, and what the
/// phase does not drop.
pub open spec fn shown_in_table(role: Seq<char>, phase: Seq<char>) -> bool {
    &&& !infrastructure(role)
    &&& vps_probe_role(role) || p2p_mesh_role(role) || !drop_role(role, phase)
}

/// Whether the peer table has a row for a role in a phase.
pub fn should_show_in_peer_table(role: &str, phase: &str) -> (r: bool)
    ensures
        r == shown_in_table(role@, phase@),
{
    if is_infrastructure(role) {
        return false;
    }
    if is_game_peer(role) || is_p2p_unconfirmed(role) {
        return true;
    }
    !should_drop_inbound_role(role, phase)
}

/// The servers that the game and the console use.
pub open spec fn infrastructure(role: Seq<char>) -> bool {
    ||| role == "warzone-game"@
    ||| role == "dedicated-server"@
    ||| role == "game-assets"@
    ||| role == "matchmaking"@
    ||| role == "xbox-live"@
    ||| role == "azure-qos"@
    ||| role == "telemetry"@
    ||| role == "notifications"@
}

/// Whether the role is that of a server which the game or the console uses.
pub fn is_infrastructure(role: &str) -> (r: bool)
    ensures
        r == infrastructure(role@),
{
    same(role, "warzone-game") || same(role, "dedicated-server") || same(role, "game-assets")
        || same(role, "matchmaking") || same(role, "xbox-live") || same(role, "azure-qos") || same(
        role,
        "telemetry",
    ) || same(role, "notifications")
}

pub open spec fn vps_label(label: Seq<char>) -> bool {
    ||| label == "Vultr VPS"@
    ||| label == "Linode VPS"@
    ||| label == "AWS"@
    ||| label == "Google Cloud"@
    ||| label == "DigitalOcean"@
    ||| ends(label, " VPS"@)
    ||| has_text(label, "Cloud"@)
}

/// Whether a label names a provider of virtual servers.
pub fn is_vps_host_label(label: &str) -> (r: bool)
    ensures
        r == vps_label(label@),
{
    same(label, "Vultr VPS") || same(label, "Linode VPS") || same(label, "AWS") || same(
        label,
        "Google Cloud",
    ) || same(label, "DigitalOcean") || ends_with(label, " VPS") || contains(label, "Cloud")
}

/// Whether a peer is a probe host on a virtual server with packet proof: a target for blocking.
pub fn is_vps_game_peer(label: &str, role: &str) -> (r: bool)
    ensures
        r == (vps_probe_role(role@) && (vps_label(label@) || has_text(label@, "VPS"@))),
{
    is_vps_probe_role(role) && (is_vps_host_label(label) || contains(label, "VPS"))
}

/// The label of the provider that address or host name give away.
pub open spec fn provider_label(ip: Seq<char>, hint: Seq<char>) -> Option<Seq<char>> {
    let host = lowercase(hint);
    if has_text(host, "vultr"@) || has_text(host, "choopa"@) || vultr_ip(ip) {
        Some("Vultr VPS"@)
    } else if has_text(host, "linode"@) {
        Some("Linode VPS"@)
    } else if has_text(host, "amazonaws"@) {
        Some("AWS"@)
    } else if has_text(host, "digitalocean"@) {
        Some("DigitalOcean"@)
    } else if begins(ip, "34."@) || begins(ip, "35."@) {
        Some("Cloud host"@)
    } else {
        None
    }
}

/// The label of the provider that address or host name give away.
pub fn peer_vps_label(ip: &str, hostname_hint: &str) -> (r: Option<String>)
    ensures
        opt_text(r) == provider_label(ip@, hostname_hint@),
{
    let hint = lower(hostname_hint);
    let h = hint.as_str();
    if contains(h, "vultr") || contains(h, "choopa") || is_vultr_ip(ip) {
        return Some("Vultr VPS".to_owned());
    }
    if contains(h, "linode") {
        return Some("Linode VPS".to_owned());
    }
    if contains(h, "amazonaws") {
        return Some("AWS".to_owned());
    }
    if contains(h, "digitalocean") {
        return Some("DigitalOcean".to_owned());
    }
    if starts_with(ip, "34.") || starts_with(ip, "35.") {
        return Some("Cloud host".to_owned());
    }
    None
}

/// The label of a role that has one whatever the address is.
pub open spec fn role_label(role: Seq<char>) -> Option<Seq<char>> {
    if role == "xbox-live"@ {
        Some("Xbox Live"@)
    } else if role == "warzone-game"@ {
        Some("CoD backend"@)
    } else if role == "dedicated-server"@ {
        Some("Dedicated server"@)
    } else if role == "matchmaking"@ {
        Some("Matchmaking"@)
    } else if role == "game-assets"@ {
        Some("Game CDN"@)
    } else if role == "azure-qos"@ {
        Some("Azure QoS"@)
    } else if role == "telemetry"@ {
        Some("Telemetry"@)
    } else if role == "notifications"@ {
        Some("Notifications"@)
    } else if role == "lan-local"@ || role == "lan-gateway"@ {
        Some("LAN"@)
    } else if p2p_mesh_role(role) {
        Some("P2P mesh (unconfirmed)"@)
    } else {
        None
    }
}

/// The label of an inbound row: that of the role, else that of the provider, else a general one.
pub open spec fn inbound_label(ip: Seq<char>, hint: Seq<char>, role: Seq<char>) -> Seq<char> {
    match role_or(role_label(role), provider_label(ip, hint)) {
        Some(label) => label,
        None => if vps_probe_role(role) {
            "VPS probe"@
        } else {
            "Unconfirmed inbound"@
        },
    }
}

fn label_of_role(role: &str) -> (r: Option<String>)
    ensures
        opt_text(r) == role_label(role@),
{
    if same(role, "xbox-live") {
        Some("Xbox Live".to_owned())
    } else if same(role, "warzone-game") {
        Some("CoD backend".to_owned())
    } else if same(role, "dedicated-server") {
        Some("Dedicated server".to_owned())
    } else if same(role, "matchmaking") {
        Some("Matchmaking".to_owned())
    } else if same(role, "game-assets") {
        Some("Game CDN".to_owned())
    } else if same(role, "azure-qos") {
        Some("Azure QoS".to_owned())
    } else if same(role, "telemetry") {
        Some("Telemetry".to_owned())
    } else if same(role, "notifications") {
        Some("Notifications".to_owned())
    } else if same(role, "lan-local") || same(role, "lan-gateway") {
        Some("LAN".to_owned())
    } else if is_p2p_mesh_role(role) {
        Some("P2P mesh (unconfirmed)".to_owned())
    } else {
        None
    }
}

/// The label of an unconfirmed peer.
pub fn peer_display_label(ip: &str, hostname_hint: &str) -> (r: String)
    ensures
        r@ == inbound_label(ip@, hostname_hint@, "p2p-mesh"@),
        r@ == "P2P mesh (unconfirmed)"@,
{
    proof {
        lemma_mesh_has_its_own_label();
    }
    inbound_display_label(ip, hostname_hint, "p2p-mesh")
}

proof fn lemma_mesh_has_its_own_label()
    ensures
        role_label("p2p-mesh"@) == Some("P2P mesh (unconfirmed)"@),
{
    reveal_strlit("p2p-mesh");
    reveal_strlit("xbox-live");
    reveal_strlit("warzone-game");
    reveal_strlit("dedicated-server");
    reveal_strlit("matchmaking");
    reveal_strlit("game-assets");
    reveal_strlit("azure-qos");
    reveal_strlit("telemetry");
    reveal_strlit("notifications");
    reveal_strlit("lan-local");
    reveal_strlit("lan-gateway");
    assert("p2p-mesh"@.len() == 8);
}

/// The label of an inbound row: infrastructure is never labelled as a player.
pub fn inbound_display_label(ip: &str, hostname_hint: &str, role: &str) -> (r: String)
    ensures
        r@ == inbound_label(ip@, hostname_hint@, role@),
{
    if let Some(label) = label_of_role(role) {
        return label;
    }
    if let Some(label) = peer_vps_label(ip, hostname_hint) {
        return label;
    }
    if is_vps_probe_role(role) {
        "VPS probe".to_owned()
    } else {
        "Unconfirmed inbound".to_owned()
    }
}

/// Whether the table could not tell the role.
pub fn is_unknown_inbound(role: &str) -> (r: bool)
    ensures
        r == (role@ == "unknown"@),
{
    same(role, "unknown")
}

pub open spec fn known_traffic(role: Seq<char>) -> bool {
    ||| infrastructure(role)
    ||| vps_probe_role(role)
    ||| p2p_mesh_role(role)
    ||| role == "lan-local"@
    ||| role == "lan-gateway"@
}

/// Whether the role is one that this library gives a meaning to.
pub fn is_known_traffic(role: &str) -> (r: bool)
    ensures
        r == known_traffic(role@),
{
    is_infrastructure(role) || is_vps_probe_role(role) || is_p2p_mesh_role(role) || same(
        role,
        "lan-local",
    ) || same(role, "lan-gateway")
}

// ---------------------------------------------------------------------------------------------
// Documents

/// A port that stands in a document, as a number or as a text. Of a number only the lowest 16
/// bits count.
pub open spec fn port_value(v: JsonView) -> Option<u16> {
    match v.uint() {
        Some(n) => Some((n % 0x1_0000) as u16),
        None => match v.text() {
            Some(s) => port_text(s),
            None => None,
        },
    }
}

pub open spec fn port_text(s: Seq<char>) -> Option<u16> {
    match parsed_uint(s, 0xffff) {
        Some(n) => Some(n as u16),
        None => None,
    }
}

pub open spec fn port_field(item: JsonView, key: Seq<char>) -> Option<u16> {
    match item.field(key) {
        Some(v) => port_value(v),
        None => None,
    }
}

/// The port of an item: under "port", under "remotePort", or behind the last colon of an address.
pub open spec fn port_of(item: JsonView, remote: Seq<char>) -> Option<u16> {
    if port_field(item, "port"@) is Some {
        port_field(item, "port"@)
    } else if port_field(item, "remotePort"@) is Some {
        port_field(item, "remotePort"@)
    } else if remote.contains('.') && remote.contains(':') {
        port_text(remote.skip(last_at(remote, ':') + 1))
    } else {
        None
    }
}

/// A port that stands in a document, as a number or as a text.
pub fn parse_port_value(v: &Json) -> (r: Option<u16>)
    ensures
        r == port_value(v@),
{
    if let Some(n) = v.as_u64() {
        return Some((n % 0x1_0000) as u16);
    }
    match v.as_str() {
        Some(s) => match parse_uint(s, 0xffff) {
            Some(n) => Some(n as u16),
            None => None,
        },
        None => None,
    }
}

fn port_under(item: &Json, key: &str) -> (r: Option<u16>)
    ensures
        r == port_field(item@, key@),
{
    match item.get(key) {
        Some(v) => parse_port_value(v),
        None => None,
    }
}

/// The port of an item.
pub fn parse_port_from(item: &Json, remote: &str) -> (r: Option<u16>)
    ensures
        r == port_of(item@, remote@),
{
    if let Some(p) = port_under(item, "port") {
        return Some(p);
    }
    if let Some(p) = port_under(item, "remotePort") {
        return Some(p);
    }
    let v = chars_of(remote);
    match rfind(&v, ':') {
        Some(k) => {
            assert(remote@.contains(':')) by {
                assert(remote@[k as int] == ':');
            }
            if holds(&v, '.') {
                let p = text_of(&v, k + 1, v.len());
                assert(p@ =~= remote@.skip(k + 1));
                return match parse_uint(p.as_str(), 0xffff) {
                    Some(n) => Some(n as u16),
                    None => None,
                };
            }
            None
        },
        None => {
            proof {
                lemma_no_last(remote@, ':');
            }
            None
        },
    }
}

/// The first of three fields that is there.
pub open spec fn first_field3(
    item: JsonView,
    a: Seq<char>,
    b: Seq<char>,
    c: Seq<char>,
) -> Option<JsonView> {
    or_else(or_else(item.field(a), item.field(b)), item.field(c))
}

pub open spec fn first_field2(item: JsonView, a: Seq<char>, b: Seq<char>) -> Option<JsonView> {
    or_else(item.field(a), item.field(b))
}

pub(crate) fn get3<'a>(item: &'a Json, a: &str, b: &str, c: &str) -> (r: Option<&'a Json>)
    ensures
        opt_view(r) == first_field3(item@, a@, b@, c@),
{
    match item.get_either(a, b) {
        Some(v) => Some(v),
        None => item.get(c),
    }
}

/// The role of a connection or flow: the one that it carries, else that of its endpoint.
pub open spec fn item_role(rules: Seq<RoleRule>, item: JsonView) -> Seq<char> {
    let given = text_or_empty(item.field("roleId"@));
    let remote = text_or_empty(first_field2(item, "remote"@, "ip"@));
    let host = text_or_empty(first_field3(item, "hostname"@, "label"@, "host"@));
    if given.len() > 0 {
        given
    } else {
        endpoint_role(
            rules,
            remote,
            host,
            port_of(item, remote),
            text_or_empty(item.field("proto"@)),
        )
    }
}

/// The role of a connection or flow.
pub fn classify_value(rules: &Vec<RoleRule>, item: &Json) -> (r: String)
    ensures
        r@ == item_role(rules@, item@),
{
    let given = str_or_empty(item.get("roleId"));
    if !given.is_empty() {
        return given.to_owned();
    }
    let remote = str_or_empty(item.get_either("remote", "ip"));
    let host = str_or_empty(get3(item, "hostname", "label", "host"));
    let port = parse_port_from(item, remote);
    let proto = str_or_empty(item.get("proto"));
    classify_endpoint_with_port(rules, remote, host, port, proto)
}

/// The lists of a snapshot that name hosts.
pub enum HostList {
    Flows,
    Dns,
    Connections,
}

/// The host that one item of a list names: a flow or a connection its host name where that is no
/// bare address, a DNS bucket its name; a connection without one its endpoint and the role of it.
pub open spec fn named_host(rules: Seq<RoleRule>, list: HostList, item: JsonView) -> Option<
    Seq<char>,
> {
    match list {
        HostList::Flows => {
            let h = text_or_empty(first_field3(item, "hostname"@, "host"@, "label"@));
            if h.len() > 0 && !ipish(h) {
                Some(h)
            } else {
                None
            }
        },
        HostList::Dns => {
            let h = text_or_empty(first_field2(item, "hostname"@, "label"@));
            if h.len() > 0 {
                Some(h)
            } else {
                None
            }
        },
        HostList::Connections => {
            let remote = text_or_empty(first_field2(item, "remote"@, "ip"@));
            let h = text_or_empty(first_field3(item, "hostname"@, "host"@, "label"@));
            let role = endpoint_role(rules, remote, h, None, ""@);
            if h.len() > 0 && !ipish(h) {
                Some(h)
            } else if remote.len() > 0 && role != "unknown"@ {
                Some(remote + " ("@ + role + ")"@)
            } else {
                None
            }
        },
    }
}

/// The hosts that the items of a list name, in order.
pub open spec fn named_hosts(
    rules: Seq<RoleRule>,
    list: HostList,
    items: Seq<JsonView>,
) -> Seq<Seq<char>>
    decreases items.len(),
{
    if items.len() == 0 {
        Seq::empty()
    } else {
        let before = named_hosts(rules, list, items.drop_last());
        match named_host(rules, list, items.last()) {
            Some(h) => before.push(h),
            None => before,
        }
    }
}

/// All hosts that a snapshot names.
pub open spec fn snapshot_hosts(rules: Seq<RoleRule>, snapshot: JsonView) -> Seq<Seq<char>> {
    named_hosts(rules, HostList::Flows, items_or_empty(snapshot.field("recentFlows"@)))
        + named_hosts(rules, HostList::Flows, items_or_empty(snapshot.field("recent_flows"@)))
        + named_hosts(rules, HostList::Dns, items_or_empty(snapshot.field("dnsDestinations"@)))
        + named_hosts(rules, HostList::Dns, items_or_empty(snapshot.field("dns_destinations"@)))
        + named_hosts(
        rules,
        HostList::Connections,
        items_or_empty(snapshot.field_in("connections"@, "items"@)),
    )
}

fn host_named(rules: &Vec<RoleRule>, list: &HostList, item: &Json) -> (r: Option<String>)
    ensures
        opt_text(r) == named_host(rules@, *list, item@),
{
    match list {
        HostList::Flows => {
            let h = str_or_empty(get3(item, "hostname", "host", "label"));
            if !h.is_empty() && !is_ipish(h) {
                Some(h.to_owned())
            } else {
                None
            }
        },
        HostList::Dns => {
            let h = str_or_empty(item.get_either("hostname", "label"));
            if !h.is_empty() {
                Some(h.to_owned())
            } else {
                None
            }
        },
        HostList::Connections => {
            let remote = str_or_empty(item.get_either("remote", "ip"));
            let h = str_or_empty(get3(item, "hostname", "host", "label"));
            if !h.is_empty() && !is_ipish(h) {
                return Some(h.to_owned());
            }
            if remote.is_empty() {
                return None;
            }
            let role = classify_endpoint(rules, remote, h);
            if same(role.as_str(), "unknown") {
                return None;
            }
            let head = cat3(remote, " (", role.as_str());
            Some(cat(head.as_str(), ")"))
        },
    }
}

fn push_hosts(rules: &Vec<RoleRule>, list: HostList, items: Option<&Json>, out: &mut Vec<String>)
    ensures
        views(final(out)@) == views(old(out)@) + named_hosts(
            rules@,
            list,
            items_or_empty(opt_view(items)),
        ),
{
    if let Some(v) = array_of(items) {
        let mut i: usize = 0;
        assert(views(out@) =~= views(old(out)@) + named_hosts(
            rules@,
            list,
            json_views(v@).take(0),
        ));
        while i < v.len()
            invariant
                i <= v.len(),
                views(out@) == views(old(out)@) + named_hosts(
                    rules@,
                    list,
                    json_views(v@).take(i as int),
                ),
            decreases v.len() - i,
        {
            let ghost before = out@;
            proof {
                let t = json_views(v@).take(i + 1);
                assert(t.drop_last() =~= json_views(v@).take(i as int));
                assert(t.last() == v@[i as int]@);
            }
            match host_named(rules, &list, &v[i]) {
                Some(h) => {
                    out.push(h);
                    assert(views(out@) =~= views(before).push(h@));
                },
                None => {},
            }
            assert(views(out@) =~= views(old(out)@) + named_hosts(
                rules@,
                list,
                json_views(v@).take(i + 1),
            ));
            i += 1;
        }
        assert(json_views(v@).take(i as int) =~= json_views(v@));
    } else {
        assert(views(out@) =~= views(old(out)@) + Seq::empty());
    }
}

/// All hosts that a snapshot names: flows, DNS buckets and connections, in this order.
pub fn flow_hosts(rules: &Vec<RoleRule>, snapshot: &Json) -> (r: Vec<String>)
    ensures
        views(r@) == snapshot_hosts(rules@, snapshot@),
{
    let mut hosts: Vec<String> = Vec::new();
    assert(views(hosts@) =~= Seq::empty());
    push_hosts(rules, HostList::Flows, snapshot.get("recentFlows"), &mut hosts);
    push_hosts(rules, HostList::Flows, snapshot.get("recent_flows"), &mut hosts);
    push_hosts(rules, HostList::Dns, snapshot.get("dnsDestinations"), &mut hosts);
    push_hosts(rules, HostList::Dns, snapshot.get("dns_destinations"), &mut hosts);
    push_hosts(rules, HostList::Connections, snapshot.get_in("connections", "items"), &mut hosts);
    assert(views(hosts@) =~= snapshot_hosts(rules@, snapshot@));
    hosts
}

/// The text between the first and the second occurrence of " (", or up to the end.
pub open spec fn after_bracket(host: Seq<char>) -> Seq<char> {
    let rest = host.skip(first_occurrence(host, " ("@) + 2);
    let next = first_occurrence(rest, " ("@);
    if next < 0 {
        rest
    } else {
        rest.take(next)
    }
}

/// The role of a named host: the one that it carries in brackets, else that of the table.
pub open spec fn name_role(rules: Seq<RoleRule>, host: Seq<char>) -> Seq<char> {
    if has_text(host, " ("@) {
        let part = after_bracket(host);
        if part.len() > 0 && part.last() == ')' {
            part.drop_last()
        } else {
            "unknown"@
        }
    } else {
        host_role(rules, host)
    }
}

fn role_of_name(rules: &Vec<RoleRule>, host: &str) -> (r: String)
    ensures
        r@ == name_role(rules@, host@),
{
    let v = chars_of(host);
    match find_text(&v, " (") {
        Some(k) => {
            proof {
                reveal_strlit(" (");
                assert(" ("@.len() == 2);
                assert(occurs_at(v@, " ("@, k as int));
                assert(k + 2 <= v.len());
            }
            let rest_text = text_of(&v, k + 2, v.len());
            assert(rest_text@ =~= host@.skip(k + 2));
            let rest = chars_of(rest_text.as_str());
            let end: usize = match find_text(&rest, " (") {
                Some(n) => n,
                None => rest.len(),
            };
            assert(after_bracket(host@) =~= rest@.take(end as int));
            if end > 0 && rest[end - 1] == ')' {
                let t = text_of(&rest, 0, end - 1);
                assert(t@ =~= rest@.take(end as int).drop_last());
                t
            } else {
                "unknown".to_owned()
            }
        },
        None => classify_host(rules, host),
    }
}

pub open spec fn name_roles(rules: Seq<RoleRule>, hosts: Seq<Seq<char>>) -> Seq<Seq<char>> {
    hosts.map_values(|h: Seq<char>| name_role(rules, h))
}

/// The hosts with a known role, at most twenty, each as an object with its role.
pub open spec fn classified_hosts(rules: Seq<RoleRule>, hosts: Seq<Seq<char>>) -> Seq<JsonView>
    decreases hosts.len(),
{
    if hosts.len() == 0 {
        Seq::empty()
    } else {
        let before = classified_hosts(rules, hosts.drop_last());
        let role = name_role(rules, hosts.last());
        if role != "unknown"@ && before.len() < 20 {
            before.push(
                JsonView::Obj(
                    seq![
                        ("hostname"@, JsonView::Str(hosts.last())),
                        ("roleId"@, JsonView::Str(role)),
                    ],
                ),
            )
        } else {
            before
        }
    }
}

pub open spec fn game_of(roles: Seq<(Seq<char>, u64)>) -> Seq<char> {
    if count_in(roles, "warzone-game"@) >= 1 || count_in(roles, "dedicated-server"@) >= 1
        || count_in(roles, "game-assets"@) >= 1 || count_in(roles, "telemetry"@) >= 1 || count_in(
        roles,
        "matchmaking"@,
    ) >= 1 {
        "warzone"@
    } else {
        "unknown"@
    }
}

/// The phase that the roles seen, the console and the number of connections point to. The first
/// line that applies decides.
pub open spec fn phase_of(
    roles: Seq<(Seq<char>, u64)>,
    xbox_online: bool,
    conns: u32,
    game: Seq<char>,
) -> Seq<char> {
    let servers = count_in(roles, "warzone-game"@) >= 1 || count_in(roles, "dedicated-server"@)
        >= 1;
    let matchmaking = count_in(roles, "matchmaking"@) >= 1;
    let assets = count_in(roles, "game-assets"@);
    let telemetry = count_in(roles, "telemetry"@);
    let qos = count_in(roles, "azure-qos"@);
    let warzone = game == "warzone"@;
    if servers {
        "in-match"@
    } else if matchmaking {
        "matchmaking"@
    } else if xbox_online && warzone && conns >= 22 && (assets >= 1 || telemetry >= 2) {
        "matchmaking"@
    } else if qos >= 2 && conns >= 45 {
        "matchmaking"@
    } else if warzone && xbox_online && conns >= 65 && assets >= 2 && telemetry >= 2 {
        "in-match"@
    } else if xbox_online && conns >= 25 && qos >= 1 {
        "matchmaking"@
    } else if !xbox_online && conns == 0 {
        "idle"@
    } else {
        "background"@
    }
}

/// The phase that the roles seen, the console and the number of connections point to.
pub fn infer_phase(roles: &Tally, xbox_online: bool, conns: u32, game: &str) -> (r: &'static str)
    ensures
        r@ == phase_of(roles@, xbox_online, conns, game@),
{
    if roles.count("warzone-game") >= 1 || roles.count("dedicated-server") >= 1 {
        return "in-match";
    }
    if roles.count("matchmaking") >= 1 {
        return "matchmaking";
    }
    let warzone = same(game, "warzone");
    if xbox_online && warzone && conns >= 22 && (roles.count("game-assets") >= 1 || roles.count(
        "matchmaking",
    ) >= 1 || roles.count("telemetry") >= 2) {
        return "matchmaking";
    }
    if roles.count("azure-qos") >= 2 && conns >= 45 {
        return "matchmaking";
    }
    if warzone && xbox_online && conns >= 65 && roles.count("game-assets") >= 2 && roles.count(
        "telemetry",
    ) >= 2 {
        return "in-match";
    }
    if xbox_online && conns >= 25 && (roles.count("matchmaking") > 0 || roles.count("azure-qos")
        >= 1) {
        return "matchmaking";
    }
    if xbox_online && conns >= 15 {
        return "background";
    }
    if !xbox_online && conns == 0 {
        return "idle";
    }
    "background"
}

/// The number of connections that a snapshot states, its lowest 32 bits.
pub open spec fn connection_count(snapshot: JsonView) -> u32 {
    (uint_or(snapshot.field_in("connections"@, "count"@), 0) % 0x1_0000_0000) as u32
}

pub open spec fn console_online(snapshot: JsonView) -> bool {
    flag_or(snapshot.field_in("xbox"@, "online"@), false)
}

/// The counts as an object, in the order of their names.
pub open spec fn tally_object(t: Seq<(Seq<char>, u64)>) -> JsonView {
    JsonView::Obj(by_name(t).map_values(|e: (Seq<char>, u64)| (e.0, JsonView::UInt(e.1))))
}

/// What is put into a snapshot under "_enriched".
pub open spec fn enrichment(rules: Seq<RoleRule>, snapshot: JsonView) -> JsonView {
    let hosts = snapshot_hosts(rules, snapshot);
    let roles = tally_of(name_roles(rules, hosts));
    let game = game_of(roles);
    JsonView::Obj(
        seq![
            ("roleCounts"@, tally_object(roles)),
            ("classified"@, JsonView::Arr(classified_hosts(rules, hosts))),
            (
                "phase"@,
                JsonView::Str(
                    phase_of(roles, console_online(snapshot), connection_count(snapshot), game),
                ),
            ),
            ("game"@, JsonView::Str(game)),
        ],
    )
}

/// A snapshot with its enrichment; one that reports an error, or is no object, stays as it is.
pub open spec fn enriched(rules: Seq<RoleRule>, snapshot: JsonView) -> JsonView {
    match snapshot {
        JsonView::Obj(o) => if snapshot.field("error"@) is Some {
            snapshot
        } else {
            JsonView::Obj(with_entry(o, "_enriched"@, enrichment(rules, snapshot)))
        },
        _ => snapshot,
    }
}

/// The counts as an object, in the order of their names.
pub fn tally_json(t: &Tally) -> (r: Json)
    ensures
        r@ == tally_object(t@),
{
    let list = name_order(t);
    let mut v: Vec<(String, Json)> = Vec::new();
    let mut i: usize = 0;
    let ghost want = by_name(t@).map_values(|e: (Seq<char>, u64)| (e.0, JsonView::UInt(e.1)));
    while i < list.len()
        invariant
            i <= list.len(),
            name_counts(list@) == by_name(t@),
            want == by_name(t@).map_values(|e: (Seq<char>, u64)| (e.0, JsonView::UInt(e.1))),
            entry_views(v@) == want.take(i as int),
        decreases list.len() - i,
    {
        let ghost before = v@;
        let name = list[i].0.clone();
        let n = Json::UInt(list[i].1);
        v.push((name, n));
        assert(name_counts(list@)[i as int] == (list@[i as int].0@, list@[i as int].1));
        assert(entry_views(v@) =~= entry_views(before).push((name@, n@)));
        i += 1;
    }
    assert(name_counts(list@).len() == list.len());
    assert(want.take(i as int) =~= want);
    object(v)
}

fn pair(k1: &str, v1: Json, k2: &str, v2: Json) -> (r: Json)
    ensures
        r@ == JsonView::Obj(seq![(k1@, v1@), (k2@, v2@)]),
{
    let mut v: Vec<(String, Json)> = Vec::new();
    v.push((k1.to_owned(), v1));
    v.push((k2.to_owned(), v2));
    assert(entry_views(v@) =~= seq![(k1@, v1@), (k2@, v2@)]);
    object(v)
}

fn classify_hosts(rules: &Vec<RoleRule>, hosts: &Vec<String>, roles: &Vec<String>) -> (r: Vec<Json>)
    requires
        views(roles@) == name_roles(rules@, views(hosts@)),
    ensures
        json_views(r@) == classified_hosts(rules@, views(hosts@)),
{
    let mut out: Vec<Json> = Vec::new();
    let mut i: usize = 0;
    assert(json_views(out@) =~= classified_hosts(rules@, views(hosts@).take(0)));
    assert(views(roles@).len() == roles.len() && views(hosts@).len() == hosts.len());
    while i < hosts.len()
        invariant
            i <= hosts.len(),
            roles.len() == hosts.len(),
            views(roles@) == name_roles(rules@, views(hosts@)),
            json_views(out@) == classified_hosts(rules@, views(hosts@).take(i as int)),
        decreases hosts.len() - i,
    {
        let ghost before = out@;
        proof {
            let t = views(hosts@).take(i + 1);
            assert(t.drop_last() =~= views(hosts@).take(i as int));
            assert(t.last() == hosts@[i as int]@);
            assert(views(roles@)[i as int] == name_role(rules@, hosts@[i as int]@));
            assert(views(roles@)[i as int] == roles@[i as int]@);
            assert(json_views(out@).len() == out.len());
        }
        if !same(roles[i].as_str(), "unknown") && out.len() < 20 {
            let j = pair("hostname", text(hosts[i].as_str()), "roleId", text(roles[i].as_str()));
            out.push(j);
            assert(json_views(out@) =~= json_views(before).push(j@));
        }
        i += 1;
    }
    assert(views(hosts@).take(i as int) =~= views(hosts@));
    out
}

fn roles_of(rules: &Vec<RoleRule>, hosts: &Vec<String>) -> (r: Vec<String>)
    ensures
        views(r@) == name_roles(rules@, views(hosts@)),
{
    let mut roles: Vec<String> = Vec::new();
    let mut i: usize = 0;
    while i < hosts.len()
        invariant
            i <= hosts.len(),
            views(roles@) == name_roles(rules@, views(hosts@)).take(i as int),
        decreases hosts.len() - i,
    {
        let ghost before = roles@;
        let role = role_of_name(rules, hosts[i].as_str());
        roles.push(role);
        assert(views(roles@) =~= views(before).push(role@));
        i += 1;
    }
    assert(name_roles(rules@, views(hosts@)).take(i as int) =~= name_roles(
        rules@,
        views(hosts@),
    ));
    roles
}

/// Puts what can be said of a snapshot's hosts under "_enriched": how often each role was seen,
/// the hosts with a known role, the phase and the game.
pub fn enrich_snapshot(rules: &Vec<RoleRule>, snapshot: Json) -> (r: Json)
    ensures
        r@ == enriched(rules@, snapshot@),
{
    let mut snapshot = snapshot;
    if snapshot.get("error").is_some() || snapshot.is_null() {
        return snapshot;
    }
    let hosts = flow_hosts(rules, &snapshot);
    let role_list = roles_of(rules, &hosts);
    let roles = Tally::of(&role_list);
    let classified = classify_hosts(rules, &hosts, &role_list);
    let xbox_online = bool_or(snapshot.get_in("xbox", "online"), false);
    let conns: u32 = (u64_or(snapshot.get_in("connections", "count"), 0) % 0x1_0000_0000) as u32;
    let warzone = roles.count("warzone-game") >= 1 || roles.count("dedicated-server") >= 1
        || roles.count("game-assets") >= 1 || roles.count("telemetry") >= 1 || roles.count(
        "matchmaking",
    ) >= 1;
    let game = if warzone {
        "warzone"
    } else {
        "unknown"
    };
    let phase = infer_phase(&roles, xbox_online, conns, game);
    let mut e: Vec<(String, Json)> = Vec::new();
    e.push(("roleCounts".to_owned(), tally_json(&roles)));
    e.push(("classified".to_owned(), array(classified)));
    e.push(("phase".to_owned(), text(phase)));
    e.push(("game".to_owned(), text(game)));
    assert(entry_views(e@) =~= enrichment(rules@, snapshot@)->Obj_0);
    let _ = snapshot.set("_enriched", object(e));
    snapshot
}

// ---------------------------------------------------------------------------------------------
// The role table

/// The texts of an array, its other items passed over, in lower case where `fold` is set.
pub open spec fn texts_of(items: Seq<JsonView>, fold: bool) -> Seq<Seq<char>>
    decreases items.len(),
{
    if items.len() == 0 {
        Seq::empty()
    } else {
        let before = texts_of(items.drop_last(), fold);
        match items.last().text() {
            Some(s) => before.push(
                if fold {
                    lowercase(s)
                } else {
                    s
                },
            ),
            None => before,
        }
    }
}

/// `rule` is what the entry `j` of a role file states.
pub open spec fn rule_is(rule: RoleRule, j: JsonView) -> bool {
    &&& j.field("id"@) is Some
    &&& j.field("id"@)->0.text() == Some(rule.id@)
    &&& j.field("match"@) is Some
    &&& j.field("match"@)->0 is Arr
    &&& views(rule.match_patterns@) == texts_of(items_or_empty(j.field("match"@)), true)
    &&& views(rule.cidrs@) == texts_of(items_or_empty(j.field("cidrs"@)), false)
    &&& views(rule.exclude@) == texts_of(items_or_empty(j.field("matchExclude"@)), true)
}

/// The entry has the two fields that a rule needs.
pub open spec fn is_rule_entry(j: JsonView) -> bool {
    &&& j.field("id"@) is Some
    &&& j.field("id"@)->0 is Str
    &&& j.field("match"@) is Some
    &&& j.field("match"@)->0 is Arr
}

/// The entries of a role file that state a rule.
pub open spec fn rule_entries(items: Seq<JsonView>) -> Seq<JsonView> {
    items.filter(|j: JsonView| is_rule_entry(j))
}

fn texts(items: &Vec<Json>, fold: bool) -> (r: Vec<String>)
    ensures
        views(r@) == texts_of(json_views(items@), fold),
{
    let mut out: Vec<String> = Vec::new();
    let mut i: usize = 0;
    assert(views(out@) =~= texts_of(json_views(items@).take(0), fold));
    while i < items.len()
        invariant
            i <= items.len(),
            views(out@) == texts_of(json_views(items@).take(i as int), fold),
        decreases items.len() - i,
    {
        let ghost before = out@;
        proof {
            let t = json_views(items@).take(i + 1);
            assert(t.drop_last() =~= json_views(items@).take(i as int));
            assert(t.last() == items@[i as int]@);
        }
        match items[i].as_str() {
            Some(s) => {
                let t = if fold {
                    lower(s)
                } else {
                    s.to_owned()
                };
                out.push(t);
                assert(views(out@) =~= views(before).push(t@));
            },
            None => {},
        }
        i += 1;
    }
    assert(json_views(items@).take(i as int) =~= json_views(items@));
    out
}

fn texts_under(j: &Json, key: &str, fold: bool) -> (r: Vec<String>)
    ensures
        views(r@) == texts_of(items_or_empty(j@.field(key@)), fold),
{
    match array_of(j.get(key)) {
        Some(v) => texts(v, fold),
        None => {
            let out: Vec<String> = Vec::new();
            assert(views(out@) =~= Seq::empty());
            out
        },
    }
}

fn rule_from(j: &Json) -> (r: Option<RoleRule>)
    ensures
        match r {
            Some(rule) => is_rule_entry(j@) && rule_is(rule, j@),
            None => !is_rule_entry(j@),
        },
{
    let id = match j.get("id") {
        Some(v) => match v.as_str() {
            Some(s) => s.to_owned(),
            None => {
                return None;
            },
        },
        None => {
            return None;
        },
    };
    match j.get("match") {
        Some(v) => match v.as_array() {
            Some(_) => {},
            None => {
                return None;
            },
        },
        None => {
            return None;
        },
    }
    Some(
        RoleRule {
            id,
            match_patterns: texts_under(j, "match", true),
            cidrs: texts_under(j, "cidrs", false),
            exclude: texts_under(j, "matchExclude", true),
        },
    )
}

/// The rules that a role file states under "rules": one for each entry with a text "id" and an
/// array "match", in the order of the file.
pub fn rules_from(doc: &Json) -> (r: Vec<RoleRule>)
    ensures
        r.len() == rule_entries(items_or_empty(doc@.field("rules"@))).len(),
        forall|i: int|
            0 <= i < r.len() ==> rule_is(
                #[trigger] r@[i],
                rule_entries(items_or_empty(doc@.field("rules"@)))[i],
            ),
{
    let mut out: Vec<RoleRule> = Vec::new();
    let ghost p = |j: JsonView| is_rule_entry(j);
    match array_of(doc.get("rules")) {
        Some(v) => {
            let mut i: usize = 0;
            assert(json_views(v@).take(0).filter(p) =~= Seq::empty()) by {
                reveal(Seq::filter);
            }
            while i < v.len()
                invariant
                    i <= v.len(),
                    p == (|j: JsonView| is_rule_entry(j)),
                    out.len() == json_views(v@).take(i as int).filter(p).len(),
                    forall|k: int|
                        0 <= k < out.len() ==> rule_is(
                            #[trigger] out@[k],
                            json_views(v@).take(i as int).filter(p)[k],
                        ),
                decreases v.len() - i,
            {
                proof {
                    reveal(Seq::filter);
                    let t = json_views(v@).take(i + 1);
                    assert(t.drop_last() =~= json_views(v@).take(i as int));
                    assert(t.last() == v@[i as int]@);
                }
                match rule_from(&v[i]) {
                    Some(rule) => {
                        out.push(rule);
                    },
                    None => {},
                }
                i += 1;
            }
            assert(json_views(v@).take(i as int) =~= json_views(v@));
        },
        None => {
            assert(Seq::<JsonView>::empty().filter(p) =~= Seq::empty()) by {
                reveal(Seq::filter);
            }
        },
    }
    out
}

// ---------------------------------------------------------------------------------------------
// Laws

/// The names of the roles differ.
proof fn lemma_roles_apart()
    ensures
        forall|r: Seq<char>|
            #[trigger] infrastructure(r) ==> !vps_probe_role(r) && !p2p_mesh_role(r),
        forall|r: Seq<char>|
            #[trigger] in_match_allowed(r) ==> !vps_probe_role(r) && !p2p_mesh_role(r),
{
    reveal_strlit("warzone-game");
    reveal_strlit("dedicated-server");
    reveal_strlit("game-assets");
    reveal_strlit("matchmaking");
    reveal_strlit("xbox-live");
    reveal_strlit("azure-qos");
    reveal_strlit("telemetry");
    reveal_strlit("notifications");
    reveal_strlit("lan-local");
    reveal_strlit("lan-gateway");
    reveal_strlit("vps-probe");
    reveal_strlit("game-peer");
    reveal_strlit("p2p-mesh");
    reveal_strlit("p2p-unconfirmed");
    assert("warzone-game"@[0] == 'w' && "dedicated-server"@[0] == 'd' && "game-assets"@[0] == 'g'
        && "matchmaking"@[0] == 'm' && "xbox-live"@[0] == 'x' && "azure-qos"@[0] == 'a'
        && "telemetry"@[0] == 't' && "notifications"@[0] == 'n' && "lan-local"@[0] == 'l'
        && "lan-gateway"@[0] == 'l');
    assert("vps-probe"@[0] == 'v' && "p2p-mesh"@[0] == 'p' && "p2p-unconfirmed"@[0] == 'p');
    assert("game-peer"@.len() == 9 && "game-assets"@.len() == 11);
    assert("game-peer"@[0] == 'g');
}

/// An address that the home network or the table knows keeps its role, whatever host name and
/// port come with it: a server on a port that players use is no player.
pub proof fn known_address_keeps_its_role(
    rules: Seq<RoleRule>,
    remote: Seq<char>,
    hint: Seq<char>,
    port: Option<u16>,
    proto: Seq<char>,
)
    requires
        address_role(rules, ip_of(remote)) is Some,
    ensures
        inbound_role(rules, remote, hint, port, proto) == address_role(rules, ip_of(remote))->0,
        endpoint_role(rules, remote, hint, port, proto) == address_role(rules, ip_of(remote))->0,
{
}

/// Infrastructure stays infrastructure, whatever its packets look like, and nothing else becomes
/// infrastructure.
pub proof fn infrastructure_stays(
    rules: Seq<RoleRule>,
    ip: Seq<char>,
    hint: Seq<char>,
    base: Seq<char>,
    probe: bool,
)
    ensures
        infrastructure(base) ==> resolved_role(rules, ip, hint, base, probe) == base,
        infrastructure(resolved_role(rules, ip, hint, base, probe)) ==> infrastructure(base),
{
    lemma_roles_apart();
    let r = resolved_role(rules, ip, hint, base, probe);
    assert(infrastructure(r) ==> !vps_probe_role(r) && !p2p_mesh_role(r));
}

/// A peer is a probe host only with the traffic of one and on the host of a provider.
pub proof fn probe_host_needs_proof(
    rules: Seq<RoleRule>,
    ip: Seq<char>,
    hint: Seq<char>,
    base: Seq<char>,
    probe: bool,
)
    requires
        vps_probe_role(resolved_role(rules, ip, hint, base, probe)),
    ensures
        probe,
        vps_provider(rules, ip, hint),
{
    lemma_roles_apart();
    reveal_strlit("p2p-mesh");
    reveal_strlit("vps-probe");
    reveal_strlit("game-peer");
    assert("p2p-mesh"@[0] == 'p' && "vps-probe"@[0] == 'v' && "game-peer"@[0] == 'g');
    assert(infrastructure(base) ==> !vps_probe_role(base));
}

/// During a match exactly the allowed roles get through, of those that have a name; outside of it
/// probe hosts and unconfirmed peers alone are dropped.
pub proof fn match_lets_allowed_roles_through(role: Seq<char>, phase: Seq<char>)
    requires
        role.len() > 0,
    ensures
        phase == "in-match"@ ==> drop_role(role, phase) == !in_match_allowed(role),
        phase != "in-match"@ ==> drop_role(role, phase) == (vps_probe_role(role) || p2p_mesh_role(
            role,
        )),
{
    lemma_roles_apart();
    assert(in_match_allowed(role) ==> !vps_probe_role(role) && !p2p_mesh_role(role));
}

/// The peer table never shows infrastructure, and infrastructure is labelled by its role alone.
pub proof fn infrastructure_is_no_peer(
    role: Seq<char>,
    phase: Seq<char>,
    ip: Seq<char>,
    hint: Seq<char>,
)
    requires
        infrastructure(role),
    ensures
        !shown_in_table(role, phase),
        role_label(role) is Some,
        inbound_label(ip, hint, role) == role_label(role)->0,
{
}

proof fn lemma_entry_of_count(s: Seq<(Seq<char>, u64)>, name: Seq<char>)
    ensures
        uint_or(
            entry(s.map_values(|e: (Seq<char>, u64)| (e.0, JsonView::UInt(e.1))), name),
            0,
        ) == count_in(s, name),
    decreases s.len(),
{
    let o = s.map_values(|e: (Seq<char>, u64)| (e.0, JsonView::UInt(e.1)));
    if s.len() > 0 {
        let t = s.skip(1);
        assert(o.skip(1) =~= t.map_values(|e: (Seq<char>, u64)| (e.0, JsonView::UInt(e.1))));
        lemma_entry_of_count(t, name);
    }
}

proof fn lemma_entry_put(o: Seq<(Seq<char>, JsonView)>, key: Seq<char>, value: JsonView)
    ensures
        entry(with_entry(o, key, value), key) == Some(value),
    decreases o.len(),
{
    if o.len() > 0 && o[0].0 != key {
        lemma_entry_put(o.skip(1), key, value);
        assert(with_entry(o, key, value).skip(1) =~= with_entry(o.skip(1), key, value));
    }
}

/// An enriched snapshot states under each role how many of its hosts have it.
pub proof fn roles_are_counted(rules: Seq<RoleRule>, snapshot: JsonView, role: Seq<char>)
    requires
        snapshot is Obj,
        snapshot.field("error"@) is None,
        snapshot_hosts(rules, snapshot).len() <= u64::MAX,
    ensures
        ({
            let stated = enriched(rules, snapshot).field_in("_enriched"@, "roleCounts"@);
            let roles = name_roles(rules, snapshot_hosts(rules, snapshot));
            stated is Some && uint_or(stated->0.field(role), 0) == occurrences(roles, role)
        }),
{
    let roles = name_roles(rules, snapshot_hosts(rules, snapshot));
    let e = enrichment(rules, snapshot);
    lemma_entry_put(snapshot->Obj_0, "_enriched"@, e);
    assert(e->Obj_0[0] == ("roleCounts"@, tally_object(tally_of(roles))));
    assert(e.field("roleCounts"@) == Some(tally_object(tally_of(roles))));
    tally_has_names_once(roles);
    by_name_keeps_counts(tally_of(roles), role);
    lemma_entry_of_count(by_name(tally_of(roles)), role);
    tally_counts_occurrences(roles, role);
}

proof fn lemma_entry_other(
    o: Seq<(Seq<char>, JsonView)>,
    key: Seq<char>,
    value: JsonView,
    other: Seq<char>,
)
    requires
        other != key,
    ensures
        entry(with_entry(o, key, value), other) == entry(o, other),
    decreases o.len(),
{
    let r = with_entry(o, key, value);
    if o.len() == 0 {
        assert(r[0].0 == key);
        assert(r.skip(1) =~= o);
    } else if o[0].0 == key {
        assert(r.skip(1) =~= o.skip(1));
    } else {
        lemma_entry_other(o.skip(1), key, value, other);
        assert(r.skip(1) =~= with_entry(o.skip(1), key, value));
        assert(r[0] == o[0]);
    }
}

proof fn lemma_put_twice(o: Seq<(Seq<char>, JsonView)>, key: Seq<char>, value: JsonView)
    ensures
        with_entry(with_entry(o, key, value), key, value) == with_entry(o, key, value),
    decreases o.len(),
{
    let r = with_entry(o, key, value);
    if o.len() == 0 || o[0].0 == key {
        assert(r[0] == (key, value));
        assert(r.update(0, (key, value)) =~= r);
    } else {
        lemma_put_twice(o.skip(1), key, value);
        assert(r.skip(1) =~= with_entry(o.skip(1), key, value));
        assert(r[0] == o[0]);
    }
}

/// Enriching a snapshot a second time changes nothing.
pub proof fn enriching_again_changes_nothing(rules: Seq<RoleRule>, snapshot: JsonView)
    ensures
        enriched(rules, enriched(rules, snapshot)) == enriched(rules, snapshot),
{
    if snapshot is Obj && snapshot.field("error"@) is None {
        let o = snapshot->Obj_0;
        let e = enrichment(rules, snapshot);
        let key = "_enriched"@;
        reveal_strlit("_enriched");
        reveal_strlit("error");
        reveal_strlit("recentFlows");
        reveal_strlit("recent_flows");
        reveal_strlit("dnsDestinations");
        reveal_strlit("dns_destinations");
        reveal_strlit("connections");
        reveal_strlit("xbox");
        assert("_enriched"@[0] == '_');
        assert("error"@[0] == 'e' && "recentFlows"@[0] == 'r' && "recent_flows"@[0] == 'r');
        assert("dnsDestinations"@[0] == 'd' && "dns_destinations"@[0] == 'd');
        assert("connections"@[0] == 'c' && "xbox"@[0] == 'x');
        lemma_entry_other(o, key, e, "error"@);
        lemma_entry_other(o, key, e, "recentFlows"@);
        lemma_entry_other(o, key, e, "recent_flows"@);
        lemma_entry_other(o, key, e, "dnsDestinations"@);
        lemma_entry_other(o, key, e, "dns_destinations"@);
        lemma_entry_other(o, key, e, "connections"@);
        lemma_entry_other(o, key, e, "xbox"@);
        let once = enriched(rules, snapshot);
        assert(snapshot_hosts(rules, once) == snapshot_hosts(rules, snapshot));
        assert(enrichment(rules, once) == e);
        lemma_put_twice(o, key, e);
    }
}

/// The phase that is inferred: a game server in sight is a match, whatever else is seen; without
/// one, matchmaking is what looks like a queue; the console is idle only where it is off and
/// nothing moves; and all else is background.
pub proof fn phases_follow_what_is_seen(
    roles: Seq<(Seq<char>, u64)>,
    online: bool,
    conns: u32,
    game: Seq<char>,
)
    ensures
        ({
            let p = phase_of(roles, online, conns, game);
            let servers = count_in(roles, "warzone-game"@) > 0 || count_in(
                roles,
                "dedicated-server"@,
            ) > 0;
            let sessions = count_in(roles, "matchmaking"@) > 0;
            let probes = count_in(roles, "azure-qos"@);
            let content = count_in(roles, "game-assets"@) > 0 || count_in(roles, "telemetry"@) > 1;
            &&& servers <==> p == "in-match"@
            &&& p == "matchmaking"@ <==> !servers && (sessions || (online && game == "warzone"@
                && conns >= 22 && content) || (probes >= 2 && conns >= 45) || (online && conns >= 25
                && probes >= 1))
            &&& p == "idle"@ ==> !online && conns == 0
            &&& !online && conns == 0 && !servers && !sessions ==> p == "idle"@
            &&& p == "in-match"@ || p == "matchmaking"@ || p == "idle"@ || p == "background"@
        }),
{
    lemma_phase_words();
}

/// More connections never make a queue or a match look like less, all else equal.
pub proof fn more_connections_never_calm_a_phase(
    roles: Seq<(Seq<char>, u64)>,
    online: bool,
    fewer: u32,
    more: u32,
    game: Seq<char>,
)
    requires
        fewer <= more,
    ensures
        phase_of(roles, online, fewer, game) == "in-match"@ ==> phase_of(roles, online, more, game)
            == "in-match"@,
        phase_of(roles, online, fewer, game) == "matchmaking"@ ==> phase_of(
            roles,
            online,
            more,
            game,
        ) == "matchmaking"@,
        phase_of(roles, online, more, game) == "idle"@ ==> phase_of(roles, online, fewer, game)
            == "idle"@,
{
    phases_follow_what_is_seen(roles, online, fewer, game);
    phases_follow_what_is_seen(roles, online, more, game);
    lemma_phase_words();
}

proof fn lemma_enriched_fields(rules: Seq<RoleRule>, snapshot: JsonView)
    requires
        snapshot is Obj,
        snapshot.field("error"@) is None,
    ensures
        ({
            let e = enriched(rules, snapshot);
            let roles = tally_of(name_roles(rules, snapshot_hosts(rules, snapshot)));
            &&& e.field_in("_enriched"@, "phase"@) == Some(
                JsonView::Str(
                    phase_of(
                        roles,
                        console_online(snapshot),
                        connection_count(snapshot),
                        game_of(roles),
                    ),
                ),
            )
            &&& e.field_in("_enriched"@, "game"@) == Some(JsonView::Str(game_of(roles)))
        }),
{
    let e = enrichment(rules, snapshot);
    lemma_entry_put(snapshot->Obj_0, "_enriched"@, e);
    let o = e->Obj_0;
    reveal_strlit("roleCounts");
    reveal_strlit("classified");
    reveal_strlit("phase");
    reveal_strlit("game");
    assert("roleCounts"@[0] == 'r' && "classified"@[0] == 'c' && "phase"@[0] == 'p' && "game"@[0]
        == 'g');
    reveal_with_fuel(entry, 5);
    assert(o.len() == 4);
    assert(o.skip(1)[0] == o[1] && o.skip(1).skip(1)[0] == o[2] && o.skip(1).skip(1).skip(1)[0]
        == o[3]);
}

/// An enriched snapshot in which a game server was seen is in a match, whatever else it holds, and
/// one without is not; and the game is on exactly where a host of the game was seen.
pub proof fn seen_servers_make_a_match(rules: Seq<RoleRule>, snapshot: JsonView)
    requires
        snapshot is Obj,
        snapshot.field("error"@) is None,
    ensures
        ({
            let e = enriched(rules, snapshot);
            let roles = name_roles(rules, snapshot_hosts(rules, snapshot));
            &&& e.field_in("_enriched"@, "phase"@) == Some(JsonView::Str("in-match"@))
                <==> roles.contains("warzone-game"@) || roles.contains("dedicated-server"@)
            &&& e.field_in("_enriched"@, "game"@) == Some(JsonView::Str("warzone"@))
                <==> roles.contains("warzone-game"@) || roles.contains("dedicated-server"@)
                || roles.contains("game-assets"@) || roles.contains("telemetry"@)
                || roles.contains("matchmaking"@)
        }),
{
    let names = name_roles(rules, snapshot_hosts(rules, snapshot));
    let roles = tally_of(names);
    lemma_enriched_fields(rules, snapshot);
    lemma_phase_words();
    phases_follow_what_is_seen(
        roles,
        console_online(snapshot),
        connection_count(snapshot),
        game_of(roles),
    );
    lemma_seen(names, "warzone-game"@);
    lemma_seen(names, "dedicated-server"@);
    lemma_seen(names, "game-assets"@);
    lemma_seen(names, "telemetry"@);
    lemma_seen(names, "matchmaking"@);
}

proof fn lemma_seen(names: Seq<Seq<char>>, role: Seq<char>)
    ensures
        count_in(tally_of(names), role) > 0 <==> names.contains(role),
    decreases names.len(),
{
    if names.len() > 0 {
        let u = names.drop_last();
        lemma_seen(u, role);
        lemma_added(tally_of(u), names.last(), 1, role);
        lemma_pushed(u, names.last());
        assert(u.push(names.last()) =~= names);
    }
}

/// Phases are numbered from idle to over, and no two of them alike.
pub proof fn phases_are_numbered_in_order(phase: Seq<char>)
    ensures
        phase_number("idle"@) == 0,
        phase_number("background"@) == 1,
        phase_number("matchmaking"@) == 2,
        phase_number("in-match"@) == 3,
        phase_number("post-match"@) == 4,
        phase_number(phase) != 1 ==> phase == "idle"@ || phase == "matchmaking"@ || phase
            == "in-match"@ || phase == "post-match"@,
{
    lemma_phase_words();
}

/// A host has the role of the first rule that takes it, and none where no rule does. A rule takes a
/// host that holds one of its patterns and none of its exclusions.
pub proof fn hosts_have_the_role_of_their_first_rule(
    rules: Seq<RoleRule>,
    host: Seq<char>,
    i: int,
    k: int,
)
    requires
        0 <= i < rules.len(),
    ensures
        rule_takes(rules[i], host) && (forall|j: int| 0 <= j < i
            ==> !rule_takes(#[trigger] rules[j], host))
            ==> rule_role(rules, host) == rules[i].id@,
        (forall|j: int| 0 <= j < rules.len() ==> !rule_takes(#[trigger] rules[j], host))
            ==> rule_role(rules, host) == "unknown"@,
        0 <= k < rules[i].exclude@.len() && has_text(host, rules[i].exclude@[k]@) ==> !rule_takes(
            rules[i],
            host,
        ),
        rules[i].exclude@.len() == 0 && 0 <= k < rules[i].match_patterns@.len() && has_text(
            host,
            rules[i].match_patterns@[k]@,
        ) ==> rule_takes(rules[i], host),
        rules[i].match_patterns@.len() == 0 ==> !rule_takes(rules[i], host),
    decreases rules.len(),
{
    let r = rules[i];
    let e = views(r.exclude@);
    let m = views(r.match_patterns@);
    if 0 <= k < r.exclude@.len() {
        assert(e[k] == r.exclude@[k]@);
    }
    if 0 <= k < r.match_patterns@.len() {
        assert(m[k] == r.match_patterns@[k]@);
    }
    let t = rules.skip(1);
    if t.len() > 0 {
        hosts_have_the_role_of_their_first_rule(
            t,
            host,
            if i > 0 {
                i - 1
            } else {
                0
            },
            k,
        );
        assert forall|j: int| 0 <= j < t.len() implies t[j] == rules[j + 1] by {}
        if forall|j: int| 0 <= j < i ==> !rule_takes(#[trigger] rules[j], host) {
            assert forall|j: int| 0 <= j < i - 1 implies !rule_takes(#[trigger] t[j], host) by {
                assert(t[j] == rules[j + 1]);
            }
        }
        if forall|j: int| 0 <= j < rules.len() ==> !rule_takes(#[trigger] rules[j], host) {
            assert forall|j: int| 0 <= j < t.len() implies !rule_takes(#[trigger] t[j], host) by {
                assert(t[j] == rules[j + 1]);
            }
        }
        if i > 0 {
            assert(t[i - 1] == rules[i]);
        }
    } else {
        assert(rule_role(t, host) == "unknown"@);
    }
    assert(rules[0] == rules[0]);
}

/// An address has the role of the first rule with a network that it lies in, if there is one.
pub proof fn addresses_have_the_role_of_their_first_network(
    rules: Seq<RoleRule>,
    ip: Seq<char>,
    i: int,
)
    requires
        0 <= i < rules.len(),
    ensures
        rule_covers(rules[i], ip) && (forall|j: int| 0 <= j < i
            ==> !rule_covers(#[trigger] rules[j], ip))
            ==> network_role(rules, ip) == Some(rules[i].id@),
        (forall|j: int| 0 <= j < rules.len() ==> !rule_covers(#[trigger] rules[j], ip))
            ==> network_role(rules, ip) is None,
    decreases rules.len(),
{
    let t = rules.skip(1);
    if t.len() > 0 {
        addresses_have_the_role_of_their_first_network(
            t,
            ip,
            if i > 0 {
                i - 1
            } else {
                0
            },
        );
        if forall|j: int| 0 <= j < i ==> !rule_covers(#[trigger] rules[j], ip) {
            assert forall|j: int| 0 <= j < i - 1 implies !rule_covers(#[trigger] t[j], ip) by {
                assert(t[j] == rules[j + 1]);
            }
        }
        if forall|j: int| 0 <= j < rules.len() ==> !rule_covers(#[trigger] rules[j], ip) {
            assert forall|j: int| 0 <= j < t.len() implies !rule_covers(#[trigger] t[j], ip) by {
                assert(t[j] == rules[j + 1]);
            }
        }
        if i > 0 {
            assert(t[i - 1] == rules[i]);
        }
    } else {
        assert(network_role(t, ip) is None);
    }
    assert(rules[0] == rules[0]);
}

/// An address is the number of its four octets, the first the most significant; with more or fewer
/// it is none.
pub proof fn addresses_are_four_octets(ip: Seq<char>)
    ensures
        ({
            let o = octets(split_on(ip, '.'));
            let n = ipv4_number(ip);
            &&& n is Some <==> o.len() == 4
            &&& n is Some ==> {
                &&& n->0 / 0x100_0000 == o[0]
                &&& (n->0 / 0x1_0000) % 256 == o[1]
                &&& (n->0 / 0x100) % 256 == o[2]
                &&& n->0 % 256 == o[3]
                &&& n->0 < 0x1_0000_0000
            }
        }),
{
    let p = split_on(ip, '.');
    lemma_octets(p);
    let o = octets(p);
    if o.len() == 4 {
        assert(o[0] <= 255 && o[1] <= 255 && o[2] <= 255 && o[3] <= 255);
    }
}

proof fn lemma_octets(parts: Seq<Seq<char>>)
    ensures
        forall|i: int| 0 <= i < octets(parts).len() ==> #[trigger] octets(parts)[i] <= 255,
        octets(parts).len() <= parts.len(),
    decreases parts.len(),
{
    if parts.len() > 0 {
        lemma_octets(parts.drop_last());
    }
}

/// Private are the four blocks of home networks and of the host itself, and what is no address.
pub proof fn home_networks_are_private(ip: Seq<char>)
    ensures
        ({
            let n = ipv4_number(ip)->0;
            &&& ipv4_number(ip) is None ==> private_ip(ip)
            &&& ipv4_number(ip) is Some ==> (private_ip(ip) <==> {
                ||| 0x0a00_0000 <= n <= 0x0aff_ffff
                ||| 0xac10_0000 <= n <= 0xac1f_ffff
                ||| 0xc0a8_0000 <= n <= 0xc0a8_ffff
                ||| 0x7f00_0000 <= n <= 0x7fff_ffff
            })
        }),
{
    addresses_are_four_octets(ip);
}

/// Two addresses lie in one network where they agree in its first bits: with all of them they are
/// the same, with none any two do, and otherwise they lie in one block of that size.
pub proof fn networks_are_blocks(ip: Seq<char>, cidr: Seq<char>)
    ensures
        ({
            let at = first_at(cidr, '/');
            let prefix = parsed_uint(cidr.skip(at + 1), u32::MAX as nat);
            let n = ipv4_number(ip);
            let m = ipv4_number(cidr.take(at));
            let size = pow2((32 - prefix->0) as nat);
            let read = at < cidr.len() && prefix is Some && prefix->0 <= 32 && n is Some
                && m is Some;
            &&& !read ==> !in_network(ip, cidr)
            &&& read && prefix->0 == 32 ==> (in_network(ip, cidr) <==> n == m)
            &&& read && prefix->0 == 0 ==> in_network(ip, cidr)
            &&& read && n == m ==> in_network(ip, cidr)
            &&& in_network(ip, cidr) ==> n->0 - m->0 < size && m->0 - n->0 < size
            &&& read ==> (in_network(ip, cidr) <==> n->0 - n->0 % size == m->0 - m->0 % size)
        }),
{
    let at = first_at(cidr, '/');
    let prefix = parsed_uint(cidr.skip(at + 1), u32::MAX as nat);
    let n = ipv4_number(ip);
    let m = ipv4_number(cidr.take(at));
    if prefix is Some && prefix->0 <= 32 && n is Some && m is Some {
        let k = (32 - prefix->0) as nat;
        let size = pow2(k) as int;
        vstd::arithmetic::power2::lemma_pow2_pos(k);
        vstd::arithmetic::power2::lemma2_to64();
        addresses_are_four_octets(ip);
        addresses_are_four_octets(cidr.take(at));
        let (a, b) = (n->0 as int, m->0 as int);
        vstd::arithmetic::div_mod::lemma_fundamental_div_mod(a, size);
        vstd::arithmetic::div_mod::lemma_fundamental_div_mod(b, size);
        vstd::arithmetic::div_mod::lemma_mod_bound(a, size);
        vstd::arithmetic::div_mod::lemma_mod_bound(b, size);
        assert(size * (a / size) == size * (b / size) ==> a / size == b / size) by (nonlinear_arith)
            requires
                size > 0,
        ;
        if k == 0 {
            assert(size == 1);
        }
        if k == 32 {
            assert(size == 0x1_0000_0000);
            assert(a / size == 0 && b / size == 0) by (nonlinear_arith)
                requires
                    0 <= a < 0x1_0000_0000,
                    0 <= b < 0x1_0000_0000,
                    size == 0x1_0000_0000,
            ;
        }
    }
}

/// What a port tells: a public address on UDP is a dedicated server at 3074 and 3075, another
/// player from 1024 on, and nothing below; no other protocol and no private address tells anything.
pub proof fn ports_tell_of_players(ip: Seq<char>, port: u16, proto: Seq<char>)
    ensures
        ({
            let open = ip.len() > 0 && !private_ip(ip) && is_udp(proto);
            let server = port == 3074 || port == 3075;
            &&& udp_role(ip, Some(port), proto) == Some("dedicated-server"@) <==> open && server
            &&& udp_role(ip, Some(port), proto) == Some("p2p-mesh"@) <==> open && !server && port
                >= 1024
            &&& udp_role(ip, Some(port), proto) is None <==> !open || (port < 1024)
            &&& udp_role(ip, None, proto) is None
            &&& player_port(Some(port), proto) <==> is_udp(proto) && port >= 1024
            &&& !player_port(None, proto)
        }),
{
    lemma_roles_apart();
    reveal_strlit("dedicated-server");
    reveal_strlit("p2p-mesh");
    assert("dedicated-server"@.len() == 16 && "p2p-mesh"@.len() == 8);
}

/// Where the address tells nothing, a host name that the table knows does, before the port; and the
/// port where neither does.
pub proof fn names_come_before_ports(
    rules: Seq<RoleRule>,
    remote: Seq<char>,
    hint: Seq<char>,
    port: Option<u16>,
    proto: Seq<char>,
)
    requires
        address_role(rules, ip_of(remote)) is None,
    ensures
        ({
            let name = named_role(rules, trimmed(hint));
            let by_port = udp_role(ip_of(remote), port, proto);
            let r = endpoint_role(rules, remote, hint, port, proto);
            let s = inbound_role(rules, remote, hint, port, proto);
            &&& name is Some ==> r == name->0
            &&& name is Some && name->0 != "vps-probe-host"@ ==> s == name->0
            &&& name is None && by_port is Some ==> r == by_port->0
            &&& (name is None || name->0 == "vps-probe-host"@) && by_port is Some && player_port(
                port,
                proto,
            ) ==> s == by_port->0
            &&& (name is None || name->0 == "vps-probe-host"@) && !player_port(port, proto)
                ==> s == r
        }),
{
}

/// A name counts where it is no address and the table knows it.
pub proof fn names_are_no_addresses(rules: Seq<RoleRule>, hint: Seq<char>)
    ensures
        named_role(rules, hint) is Some <==> hint.len() > 0 && !(ip_of(hint) == hint) && host_role(
            rules,
            hint,
        ) != "unknown"@,
        named_role(rules, hint) is Some ==> named_role(rules, hint)->0 == host_role(rules, hint),
{
}

/// The role of an address is that of the home network first, then that of the table.
pub proof fn home_comes_before_the_table(rules: Seq<RoleRule>, ip: Seq<char>)
    ensures
        ip.len() == 0 ==> address_role(rules, ip) is None,
        ip.len() > 0 && ip == "192.0.2.1"@ ==> address_role(rules, ip) == Some("lan-gateway"@),
        ip.len() > 0 && ip != "192.0.2.1"@ && private_ip(ip) ==> address_role(rules, ip) == Some(
            "lan-local"@,
        ),
        ip.len() > 0 && ip != "192.0.2.1"@ && !private_ip(ip) ==> address_role(rules, ip)
            == network_role(rules, ip),
{
}

/// Probe traffic is six packets of one size, or three tiny ones among six. More packets never make
/// less of it.
pub proof fn probes_are_alike_or_tiny(
    same_size: u32,
    tiny: u64,
    all: u64,
    more_same: u32,
    more_tiny: u64,
    more: u64,
)
    requires
        same_size <= more_same,
        tiny <= more_tiny,
        all <= more,
    ensures
        probe_traffic(same_size, tiny, all) <==> same_size > 5 || (tiny > 2 && all > 5),
        probe_traffic(same_size, tiny, all) ==> probe_traffic(more_same, more_tiny, more),
{
}

/// What becomes of a role: infrastructure keeps it; a prober on a provider's host is a probe; any
/// other peer is part of the mesh; and what is neither keeps its role.
pub proof fn roles_are_resolved(
    rules: Seq<RoleRule>,
    ip: Seq<char>,
    hint: Seq<char>,
    base: Seq<char>,
    probe: bool,
)
    requires
        !infrastructure(base),
    ensures
        ({
            let r = resolved_role(rules, ip, hint, base, probe);
            let peer = base == "p2p-mesh"@ || base == "p2p-unconfirmed"@ || base == "vps-probe"@
                || base == "game-peer"@;
            &&& probe && vps_provider(rules, ip, hint) ==> r == "vps-probe"@
            &&& !(probe && vps_provider(rules, ip, hint)) && peer ==> r == "p2p-mesh"@
            &&& !(probe && vps_provider(rules, ip, hint)) && !peer ==> r == base
        }),
{
}

/// Which roles are infrastructure, which get through during a match, which are known, and which
/// are dropped and shown.
pub proof fn roles_are_sorted(role: Seq<char>, phase: Seq<char>)
    ensures
        ({
            let server = role == "warzone-game"@ || role == "dedicated-server"@;
            let live = role == "xbox-live"@;
            let home = role == "lan-local"@ || role == "lan-gateway"@;
            let service = role == "game-assets"@ || role == "matchmaking"@ || role == "azure-qos"@
                || role == "telemetry"@ || role == "notifications"@;
            let peer = role == "p2p-mesh"@ || role == "p2p-unconfirmed"@ || role == "vps-probe"@
                || role == "game-peer"@;
            &&& infrastructure(role) <==> server || live || service
            &&& in_match_allowed(role) <==> server || live || home
            &&& known_traffic(role) <==> server || live || service || home || peer
            &&& drop_role(role, phase) <==> peer || (phase == "in-match"@ && role.len() > 0
                && !server && !live && !home)
            &&& shown_in_table(role, phase) <==> peer || home || (!server && !live && !service && !(
            phase == "in-match"@ && role.len() > 0))
        }),
{
    lemma_roles_apart();
    lemma_roles_differ();
    reveal_strlit("lan-local");
    reveal_strlit("lan-gateway");
    assert("lan-local"@.len() == 9 && "lan-local"@[0] == 'l' && "lan-gateway"@.len() == 11
        && "lan-gateway"@[0] == 'l');
}

/// A port is the one that an item names, first its own, then the remote one, and else the number
/// behind the last colon of the address.
pub proof fn ports_are_named_first(item: JsonView, remote: Seq<char>)
    ensures
        ({
            let p = port_field(item, "port"@);
            let q = port_field(item, "remotePort"@);
            &&& p is Some ==> port_of(item, remote) == p
            &&& p is None && q is Some ==> port_of(item, remote) == q
            &&& p is None && q is None && !(remote.contains('.') && remote.contains(':'))
                ==> port_of(item, remote) is None
            &&& p is None && q is None && remote.contains('.') && remote.contains(':')
                ==> port_of(item, remote) == port_text(remote.skip(last_at(remote, ':') + 1))
        }),
{
}

/// An item that names its role has it.
pub proof fn named_roles_are_taken(rules: Seq<RoleRule>, item: JsonView)
    ensures
        text_or_empty(item.field("roleId"@)).len() > 0 ==> item_role(rules, item) == text_or_empty(
            item.field("roleId"@),
        ),
{
}

/// The game is on where one of its servers, its assets, its telemetry or its queue is seen.
pub proof fn the_game_is_told_by_its_roles(roles: Seq<(Seq<char>, u64)>)
    ensures
        game_of(roles) == "warzone"@ <==> count_in(roles, "warzone-game"@) > 0 || count_in(
            roles,
            "dedicated-server"@,
        ) > 0 || count_in(roles, "game-assets"@) > 0 || count_in(roles, "telemetry"@) > 0
            || count_in(roles, "matchmaking"@) > 0,
        game_of(roles) == "warzone"@ || game_of(roles) == "unknown"@,
{
    reveal_strlit("warzone");
    reveal_strlit("unknown");
    assert("warzone"@[0] == 'w' && "unknown"@[0] == 'u');
}

/// A host of a known role is listed, up to twenty of them, in the order in which they were seen.
pub proof fn known_hosts_are_listed(rules: Seq<RoleRule>, hosts: Seq<Seq<char>>, host: Seq<char>)
    ensures
        ({
            let a = classified_hosts(rules, hosts);
            let b = classified_hosts(rules, hosts.push(host));
            let role = name_role(rules, host);
            &&& a.len() <= 20
            &&& role == "unknown"@ || a.len() == 20 ==> b == a
            &&& role != "unknown"@ && a.len() < 20 ==> b.len() == a.len() + 1 && a.is_prefix_of(b)
                && b.last() is Obj && b.last()->Obj_0[0].1 == JsonView::Str(host)
                && b.last()->Obj_0[1].1 == JsonView::Str(role)
        }),
    decreases hosts.len(),
{
    assert(hosts.push(host).drop_last() =~= hosts);
    let a = classified_hosts(rules, hosts);
    let b = classified_hosts(rules, hosts.push(host));
    if hosts.len() > 0 {
        known_hosts_are_listed(rules, hosts.drop_last(), hosts.last());
        assert(hosts.drop_last().push(hosts.last()) =~= hosts);
    }
    if a.len() <= b.len() {
        assert(b.len() > a.len() ==> b.subrange(0, a.len() as int) =~= a);
    }
}

/// A provider's host is told by its network, by its name, or by a rule of the table, and only
/// where there is an address.
pub proof fn providers_are_told_by_network_or_name(
    rules: Seq<RoleRule>,
    ip: Seq<char>,
    hint: Seq<char>,
)
    ensures
        ({
            let host = lowercase(hint);
            let name = has_text(host, "vultr"@) || has_text(host, "choopa"@) || has_text(
                host,
                "linode"@,
            ) || has_text(host, "digitalocean"@) || has_text(host, "your-server"@);
            &&& ip.len() == 0 ==> !vps_provider(rules, ip, hint)
            &&& ip.len() > 0 && name ==> vps_provider(rules, ip, hint)
            &&& ip.len() > 0 && vultr_ip(ip) ==> vps_provider(rules, ip, hint)
            &&& ip.len() > 0 && hint.len() > 0 && host_role(rules, hint) == "vps-probe-host"@
                ==> vps_provider(rules, ip, hint)
            &&& !name && !vultr_ip(ip) && host_role(rules, hint) != "vps-probe-host"@
                ==> !vps_provider(rules, ip, hint)
            &&& (has_text(host, "vultr"@) || has_text(host, "choopa"@) || vultr_ip(ip))
                ==> provider_label(ip, hint) == Some("Vultr VPS"@)
        }),
{
}

/// A role is counted under its number: servers, services and peers each have their own, and what
/// has none is nothing.
pub proof fn roles_are_numbered(role: Seq<char>)
    ensures
        role_number(role) == 1 <==> role == "warzone-game"@,
        role_number(role) == 2 <==> role == "dedicated-server"@,
        role_number(role) == 3 <==> role == "matchmaking"@,
        role_number(role) == 4 <==> role == "game-assets"@,
        role_number(role) == 5 <==> role == "telemetry"@,
        role_number(role) == 6 <==> role == "xbox-live"@,
        role_number(role) == 7 <==> role == "azure-qos"@,
        role_number(role) == 8 <==> role == "notifications"@,
        role_number(role) == 9 <==> role == "vps-probe"@ || role == "game-peer"@,
        role_number(role) == 10 <==> role == "p2p-mesh"@ || role == "p2p-unconfirmed"@,
        role_number(role) <= 10,
        role_number(role) == 0 <==> !infrastructure(role) && !vps_probe_role(role)
            && !p2p_mesh_role(role),
{
    lemma_roles_apart();
    lemma_roles_differ();
}

proof fn lemma_roles_differ()
    ensures
        "warzone-game"@.len() == 12,
        "dedicated-server"@.len() == 16,
        "matchmaking"@.len() == 11,
        "matchmaking"@[0] == 'm',
        "game-assets"@.len() == 11,
        "game-assets"@[0] == 'g',
        "telemetry"@.len() == 9,
        "telemetry"@[0] == 't',
        "xbox-live"@.len() == 9,
        "xbox-live"@[0] == 'x',
        "azure-qos"@.len() == 9,
        "azure-qos"@[0] == 'a',
        "notifications"@.len() == 13,
        "vps-probe"@.len() == 9,
        "vps-probe"@[0] == 'v',
        "game-peer"@.len() == 9,
        "game-peer"@[0] == 'g',
        "p2p-mesh"@.len() == 8,
        "p2p-unconfirmed"@.len() == 15,
{
    reveal_strlit("warzone-game");
    reveal_strlit("dedicated-server");
    reveal_strlit("matchmaking");
    reveal_strlit("game-assets");
    reveal_strlit("telemetry");
    reveal_strlit("xbox-live");
    reveal_strlit("azure-qos");
    reveal_strlit("notifications");
    reveal_strlit("vps-probe");
    reveal_strlit("game-peer");
    reveal_strlit("p2p-mesh");
    reveal_strlit("p2p-unconfirmed");
}

/// An address with a port is the part before the last colon; one without is itself, where it has
/// three dots; brackets around it are left out.
pub proof fn addresses_are_taken_without_ports(remote: Seq<char>)
    requires
        trimmed(remote) == remote,
        remote.len() > 0,
        !is_bracket(remote[0]),
        !is_bracket(remote.last()),
    ensures
        ({
            let ip = ip_of(remote);
            let at = last_at(remote, ':');
            &&& remote.contains(':') && remote.contains('.') ==> ip == remote.take(at)
            &&& !remote.contains(':') && char_count(remote, '.') == 3 ==> ip == remote
            &&& !(remote.contains(':') && remote.contains('.')) && char_count(remote, '.') != 3
                ==> ip.len() == 0
        }),
{
}

/// The hosts of a list are those of its items that name one, in their order.
pub proof fn hosts_are_listed_in_order(
    rules: Seq<RoleRule>,
    list: HostList,
    items: Seq<JsonView>,
    x: JsonView,
)
    ensures
        named_host(rules, list, x) is Some ==> named_hosts(rules, list, items.push(x))
            == named_hosts(rules, list, items).push(named_host(rules, list, x)->0),
        named_host(rules, list, x) is None ==> named_hosts(rules, list, items.push(x))
            == named_hosts(rules, list, items),
{
    assert(items.push(x).drop_last() =~= items);
}

/// A host that is listed with its role in brackets has that role.
pub proof fn listed_roles_are_read_back(rules: Seq<RoleRule>, remote: Seq<char>, role: Seq<char>)
    requires
        !has_text(remote, " ("@),
        !has_text(role, " ("@),
    ensures
        name_role(rules, remote + " ("@ + role + ")"@) == role,
{
    reveal_strlit(" (");
    reveal_strlit(")");
    let sep = " ("@;
    let host = remote + sep + role + ")"@;
    let n = remote.len() as int;
    assert(sep.len() == 2 && sep[0] == ' ' && sep[1] == '(');
    assert(")"@.len() == 1 && ")"@[0] == ')');
    assert(host.subrange(n, n + 2) =~= sep);
    assert(occurs_at(host, sep, n));
    first_occurrences_are_first(host, sep, n);
    let k = first_occurrence(host, sep);
    if k < n {
        assert(host.subrange(k, k + 2) == sep);
        assert(host[k] == ' ' && host[k + 1] == '(') by {
            assert(host.subrange(k, k + 2)[0] == ' ' && host.subrange(k, k + 2)[1] == '(');
        }
        assert(host[n] == ' ');
        assert(k + 1 < n);
        assert(remote.subrange(k, k + 2) =~= sep);
        assert(occurs_at(remote, sep, k));
    }
    assert(k == n);
    let rest = host.skip(n + 2);
    assert(rest =~= role + ")"@);
    let next = first_occurrence(rest, sep);
    first_occurrences_are_first(rest, sep, 0);
    if next >= 0 {
        assert(rest.subrange(next, next + 2) == sep);
        assert(rest.subrange(next, next + 2)[1] == '(');
        assert(rest[next + 1] == '(');
        assert(next + 1 < role.len());
        assert(role.subrange(next, next + 2) =~= sep);
        assert(occurs_at(role, sep, next));
    }
    assert(after_bracket(host) == rest);
    assert(rest.last() == ')');
    assert(rest.drop_last() =~= role);
}

/// Brackets at the ends of an address are left out, and nothing else is.
pub proof fn brackets_are_left_out(s: Seq<char>)
    ensures
        unbracketed(s).len() > 0 ==> !is_bracket(unbracketed(s)[0]) && !is_bracket(
            unbracketed(s).last(),
        ),
        s.len() > 0 && !is_bracket(s[0]) && !is_bracket(s.last()) ==> unbracketed(s) == s,
        unbracketed(s).len() <= s.len(),
        is_bracket('[') && is_bracket(']') && !is_bracket('(') && !is_bracket('.'),
    decreases s.len(),
{
    if s.len() > 0 && is_bracket(s[0]) {
        brackets_are_left_out(s.skip(1));
    } else if s.len() > 0 && is_bracket(s.last()) {
        brackets_are_left_out(s.drop_last());
    }
}

/// The texts of a rule are those of its list that are texts, in lower case where asked for; a rule
/// needs a name and a list of patterns.
pub proof fn rules_take_texts(items: Seq<JsonView>, x: JsonView, fold: bool, j: JsonView)
    ensures
        !(x is Str) ==> texts_of(items.push(x), fold) == texts_of(items, fold),
        x is Str && fold ==> texts_of(items.push(x), fold) == texts_of(items, fold).push(
            lowercase(x->Str_0),
        ),
        x is Str && !fold ==> texts_of(items.push(x), fold) == texts_of(items, fold).push(x->Str_0),
        is_rule_entry(j) <==> (j.field("id"@) matches Some(JsonView::Str(s))) && (j.field("match"@)
            matches Some(JsonView::Arr(a))),
{
    assert(items.push(x).drop_last() =~= items);
}

/// Each character is counted once.
pub proof fn characters_are_counted_once(s: Seq<char>, x: char, c: char)
    ensures
        x == c ==> char_count(s.push(x), c) == char_count(s, c) + 1,
        x != c ==> char_count(s.push(x), c) == char_count(s, c),
{
    assert(s.push(x).drop_last() =~= s);
}

/// Which host an item names: a flow and a connection the name that is no address, a lookup any name
/// at all; a connection without one is named by its remote side and its role, where that is known.
pub proof fn items_name_their_host(rules: Seq<RoleRule>, item: JsonView)
    ensures
        ({
            let h = text_or_empty(first_field3(item, "hostname"@, "host"@, "label"@));
            let d = text_or_empty(first_field2(item, "hostname"@, "label"@));
            let remote = text_or_empty(first_field2(item, "remote"@, "ip"@));
            let role = endpoint_role(rules, remote, h, None, ""@);
            let name = h.len() > 0 && ip_of(h) != h;
            let flow = named_host(rules, HostList::Flows, item);
            let lookup = named_host(rules, HostList::Dns, item);
            let conn = named_host(rules, HostList::Connections, item);
            &&& name ==> flow == Some(h) && conn == Some(h)
            &&& !name ==> flow is None
            &&& d.len() > 0 ==> lookup == Some(d)
            &&& d.len() == 0 ==> lookup is None
            &&& !name && remote.len() > 0 && role != "unknown"@ ==> conn == Some(
                remote + " ("@ + role + ")"@,
            )
            &&& !name && (remote.len() == 0 || role == "unknown"@) ==> conn is None
        }),
{
}

/// What cannot be read is left as it is: a snapshot with an error, and what is no object. Any other
/// keeps all that it had.
pub proof fn snapshots_keep_what_they_had(
    rules: Seq<RoleRule>,
    snapshot: JsonView,
    key: Seq<char>,
)
    ensures
        snapshot.field("error"@) is Some ==> enriched(rules, snapshot) == snapshot,
        !(snapshot is Obj) ==> enriched(rules, snapshot) == snapshot,
        key != "_enriched"@ ==> enriched(rules, snapshot).field(key) == snapshot.field(key),
{
    if snapshot is Obj && key != "_enriched"@ {
        lemma_entry_other(
            snapshot->Obj_0,
            "_enriched"@,
            enrichment(rules, snapshot),
            key,
        );
    }
}

} // verus!
