//! Captured packets: what their sizes, senders and numbers say about a lobby.
use vstd::prelude::*;

use crate::counts::{
    count_in, counted, lemma_counted, lemma_insert_multiset, plus_one, sat_add, Tally,
};
use crate::enrich::{
    classify_endpoint_with_port, classify_inbound_endpoint, drop_role, endpoint_role, extract_ip,
    inbound_display_label, inbound_label, inbound_role, ip_of, is_known_traffic, is_unknown_inbound,
    is_vps_game_peer, is_vps_probe_role, known_traffic, player_port, probe_traffic,
    resolve_inbound_peer_role, resolved_role, should_drop_inbound, should_show_in_peer_table,
    shown_in_table, vps_label, vps_probe_role, RoleRule,
};
use crate::fixed::{
    capped, capped_ratio, clamp, clamped, fmt0, is_made_up, keep, makes_up, percent, percent_text,
    ratio, ratio_of, smaller, whole_text, LIMIT, ONE,
};
use crate::json::{
    array_of, bool_or, dup_first, dup_or_null, first_of, flag_or, items_or_empty, json_views,
    opt_view, or_else, or_null, real_or, real_or_default, str_or_empty, text_or_empty, u64_or,
    uint_or, Json, JsonView,
};
use crate::signals::{
    apart, chained, grown, lemma_chained, lemma_link, named, weigh, Findings, FindingsView, Signal,
};
use crate::snapshot::{gaming, is_gaming};
use crate::text::{
    before, cat, cat3, chars_of, dec, dec_int, decimal, decimal_int, has_text, is_digit, last_at,
    last_places_are_last, lemma_decimal, lemma_text_less_total, lemma_text_less_trans, rfind, same,
    text_less, text_of,
};

verus! {

/// The largest packet that counts as tiny.
pub const TINY_PKT_MAX: u64 = 79;

/// How many tiny packets of one peer are a signal.
pub const PEER_TINY_SIGNAL: u64 = 4;

/// How many packets of one size from one peer are a signal.
pub const PEER_BURST_SIGNAL: u64 = 6;

// ---------------------------------------------------------------------------------------------
// Records

/// The record is of a packet that came in.
pub open spec fn came_in(r: JsonView) -> bool {
    match r.field("dir"@) {
        Some(d) => d.text() == Some("in"@),
        None => false,
    }
}

pub open spec fn record_port(r: JsonView) -> Option<u16> {
    match r.field("remotePort"@) {
        Some(p) => match p.uint() {
            Some(n) => Some((n % 0x1_0000) as u16),
            None => None,
        },
        None => None,
    }
}

/// The role of the sender by address, name and port.
pub open spec fn sender_role(rules: Seq<RoleRule>, r: JsonView) -> Seq<char> {
    inbound_role(
        rules,
        text_or_empty(r.field("remote"@)),
        text_or_empty(r.field("hostname"@)),
        record_port(r),
        text_or_empty(r.field("proto"@)),
    )
}

/// The role of a record: the one that it carries, else that of its endpoint.
pub open spec fn role_of_record(rules: Seq<RoleRule>, r: JsonView) -> Seq<char> {
    let given = text_or_empty(r.field("roleId"@));
    if given.len() > 0 {
        given
    } else if came_in(r) {
        sender_role(rules, r)
    } else {
        endpoint_role(
            rules,
            text_or_empty(r.field("remote"@)),
            text_or_empty(r.field("hostname"@)),
            record_port(r),
            text_or_empty(r.field("proto"@)),
        )
    }
}

/// The remote of a record, with a question mark for one that has none.
pub open spec fn remote_or_mark(r: JsonView) -> Seq<char> {
    match r.field("remote"@) {
        Some(v) => match v.text() {
            Some(s) => s,
            None => "?"@,
        },
        None => "?"@,
    }
}

pub open spec fn has_remote(r: JsonView, remote: Seq<char>) -> bool {
    match r.field("remote"@) {
        Some(v) => v.text() == Some(remote),
        None => false,
    }
}

/// The role of a remote: that of its first record, else that of the bare endpoint over UDP.
pub open spec fn remote_role(
    rules: Seq<RoleRule>,
    recs: Seq<JsonView>,
    remote: Seq<char>,
) -> Seq<char>
    decreases recs.len(),
{
    if recs.len() == 0 {
        inbound_role(rules, remote, ""@, None, "udp"@)
    } else if has_remote(recs[0], remote) {
        role_of_record(rules, recs[0])
    } else {
        remote_role(rules, recs.skip(1), remote)
    }
}

fn dir_in(r: &Json) -> (b: bool)
    ensures
        b == came_in(r@),
{
    match r.get("dir") {
        Some(d) => match d.as_str() {
            Some(s) => same(s, "in"),
            None => false,
        },
        None => false,
    }
}

/// The remote port of a record: the lowest 16 bits of the number that it states.
pub fn parse_port(r: &Json) -> (p: Option<u16>)
    ensures
        p == record_port(r@),
{
    match r.get("remotePort") {
        Some(v) => match v.as_u64() {
            Some(n) => Some((n % 0x1_0000) as u16),
            None => None,
        },
        None => None,
    }
}

fn classify_sender(rules: &Vec<RoleRule>, r: &Json) -> (role: String)
    ensures
        role@ == sender_role(rules@, r@),
{
    classify_inbound_endpoint(
        rules,
        str_or_empty(r.get("remote")),
        str_or_empty(r.get("hostname")),
        parse_port(r),
        str_or_empty(r.get("proto")),
    )
}

/// The role of a record.
pub fn record_role(rules: &Vec<RoleRule>, r: &Json) -> (role: String)
    ensures
        role@ == role_of_record(rules@, r@),
{
    let given = str_or_empty(r.get("roleId"));
    if !given.is_empty() {
        return given.to_owned();
    }
    if dir_in(r) {
        return classify_sender(rules, r);
    }
    classify_endpoint_with_port(
        rules,
        str_or_empty(r.get("remote")),
        str_or_empty(r.get("hostname")),
        parse_port(r),
        str_or_empty(r.get("proto")),
    )
}

fn remote_is(r: &Json, remote: &str) -> (b: bool)
    ensures
        b == has_remote(r@, remote@),
{
    match r.get("remote") {
        Some(v) => match v.as_str() {
            Some(s) => same(s, remote),
            None => false,
        },
        None => false,
    }
}

fn remote_text(r: &Json) -> (s: &str)
    ensures
        s@ == remote_or_mark(r@),
{
    match r.get("remote") {
        Some(v) => match v.as_str() {
            Some(s) => s,
            None => "?",
        },
        None => "?",
    }
}

/// The role of a remote.
pub fn classify_record_role(rules: &Vec<RoleRule>, recs: &Vec<Json>, remote: &str) -> (role: String)
    ensures
        role@ == remote_role(rules@, json_views(recs@), remote@),
{
    let ghost views = json_views(recs@);
    let mut i: usize = 0;
    assert(views.skip(0) =~= views);
    while i < recs.len()
        invariant
            i <= recs.len(),
            views == json_views(recs@),
            remote_role(rules@, views, remote@) == remote_role(
                rules@,
                views.skip(i as int),
                remote@,
            ),
        decreases recs.len() - i,
    {
        assert(views.skip(i as int)[0] == recs@[i as int]@);
        assert(views.skip(i as int).skip(1) =~= views.skip(i + 1));
        if remote_is(&recs[i], remote) {
            return record_role(rules, &recs[i]);
        }
        i += 1;
    }
    assert(views.skip(i as int) =~= Seq::empty());
    classify_inbound_endpoint(rules, remote, "", None, "udp")
}

// ---------------------------------------------------------------------------------------------
// Peers that repeat themselves

/// The packets of one peer.
pub struct PeerPackets {
    pub ip: String,
    pub remote: String,
    pub hostname: String,
    pub role: String,
    pub total: u64,
    pub tiny: u64,
    pub max_identical: u64,
    pub identical_size: u64,
    pub packet_size_min: u64,
    pub packet_size_max: u64,
}

#[verifier::ext_equal]
pub struct PeerPacketsView {
    pub ip: Seq<char>,
    pub remote: Seq<char>,
    pub hostname: Seq<char>,
    pub role: Seq<char>,
    pub total: u64,
    pub tiny: u64,
    pub max_identical: u64,
    pub identical_size: u64,
    pub packet_size_min: u64,
    pub packet_size_max: u64,
}

impl View for PeerPackets {
    type V = PeerPacketsView;

    open spec fn view(&self) -> PeerPacketsView {
        PeerPacketsView {
            ip: self.ip@,
            remote: self.remote@,
            hostname: self.hostname@,
            role: self.role@,
            total: self.total,
            tiny: self.tiny,
            max_identical: self.max_identical,
            identical_size: self.identical_size,
            packet_size_min: self.packet_size_min,
            packet_size_max: self.packet_size_max,
        }
    }
}

pub open spec fn peer_views(v: Seq<PeerPackets>) -> Seq<PeerPacketsView> {
    v.map_values(|p: PeerPackets| p@)
}

impl PeerPacketsView {
    pub open spec fn fresh(
        ip: Seq<char>,
        remote: Seq<char>,
        hostname: Seq<char>,
        role: Seq<char>,
    ) -> PeerPacketsView {
        PeerPacketsView {
            ip,
            remote,
            hostname,
            role,
            total: 0,
            tiny: 0,
            max_identical: 0,
            identical_size: 0,
            packet_size_min: 0,
            packet_size_max: 0,
        }
    }

    /// With one more packet of `len` bytes, the `burst`-th of this size. A size of 0 is unknown
    /// and does not count for the smallest size.
    pub open spec fn with_packet(self, role: Seq<char>, len: u64, burst: u64) -> PeerPacketsView {
        PeerPacketsView {
            role: if self.role.len() == 0 || self.role == "unknown"@ {
                role
            } else {
                self.role
            },
            total: plus_one(self.total),
            tiny: if len <= TINY_PKT_MAX {
                plus_one(self.tiny)
            } else {
                self.tiny
            },
            max_identical: if burst > self.max_identical {
                burst
            } else {
                self.max_identical
            },
            identical_size: if burst > self.max_identical {
                len
            } else {
                self.identical_size
            },
            packet_size_min: if len > 0 && (self.packet_size_min == 0 || len
                < self.packet_size_min) {
                len
            } else {
                self.packet_size_min
            },
            packet_size_max: if len > self.packet_size_max {
                len
            } else {
                self.packet_size_max
            },
            ..self
        }
    }
}

/// The position of the peer with this address, or the number of peers.
pub open spec fn peer_at(peers: Seq<PeerPacketsView>, ip: Seq<char>) -> int
    decreases peers.len(),
{
    if peers.len() == 0 {
        0
    } else if peers[0].ip == ip {
        0
    } else {
        1 + peer_at(peers.skip(1), ip)
    }
}

/// The record counts for the peer table in this phase.
pub open spec fn counts_for_table(rules: Seq<RoleRule>, phase: Seq<char>, r: JsonView) -> bool {
    &&& came_in(r)
    &&& ip_of(remote_or_mark(r)).len() > 0
    &&& shown_in_table(role_of_record(rules, r), phase)
}

pub open spec fn record_len(r: JsonView) -> u64 {
    uint_or(r.field("len"@), 0)
}

/// A sender and a packet size as one name.
pub open spec fn run_name(sender: Seq<char>, len: u64) -> Seq<char> {
    sender + ":"@ + decimal(len as nat)
}

/// The peers with their packets, and how often each peer sent each size.
#[verifier::ext_equal]
pub struct PeerTable {
    pub peers: Seq<PeerPacketsView>,
    pub runs: Seq<(Seq<char>, u64)>,
}

impl PeerTable {
    pub open spec fn with_record(
        self,
        rules: Seq<RoleRule>,
        phase: Seq<char>,
        r: JsonView,
    ) -> PeerTable {
        if !counts_for_table(rules, phase, r) {
            self
        } else {
            let ip = ip_of(remote_or_mark(r));
            let role = role_of_record(rules, r);
            let name = run_name(ip, record_len(r));
            let runs = counted(self.runs, name);
            let burst = count_in(runs, name);
            let at = peer_at(self.peers, ip);
            let peer = if at < self.peers.len() {
                self.peers[at]
            } else {
                PeerPacketsView::fresh(
                    ip,
                    remote_or_mark(r),
                    text_or_empty(r.field("hostname"@)),
                    role,
                )
            };
            let changed = peer.with_packet(role, record_len(r), burst);
            PeerTable {
                peers: if at < self.peers.len() {
                    self.peers.update(at, changed)
                } else {
                    self.peers.push(changed)
                },
                runs,
            }
        }
    }
}

/// The peer table of a capture: its records one after the other.
pub open spec fn peer_table(
    rules: Seq<RoleRule>,
    phase: Seq<char>,
    recs: Seq<JsonView>,
) -> PeerTable
    decreases recs.len(),
{
    if recs.len() == 0 {
        PeerTable { peers: Seq::empty(), runs: Seq::empty() }
    } else {
        peer_table(rules, phase, recs.drop_last()).with_record(rules, phase, recs.last())
    }
}

fn find_peer(peers: &Vec<PeerPackets>, ip: &str) -> (r: usize)
    ensures
        r == peer_at(peer_views(peers@), ip@),
        r <= peers.len(),
{
    let ghost views = peer_views(peers@);
    let mut i: usize = 0;
    assert(views.skip(0) =~= views);
    while i < peers.len()
        invariant
            i <= peers.len(),
            views == peer_views(peers@),
            peer_at(views, ip@) == i + peer_at(views.skip(i as int), ip@),
        decreases peers.len() - i,
    {
        assert(views.skip(i as int)[0] == peers@[i as int]@);
        assert(views.skip(i as int).skip(1) =~= views.skip(i + 1));
        if same(peers[i].ip.as_str(), ip) {
            return i;
        }
        i += 1;
    }
    assert(views.skip(i as int) =~= Seq::empty());
    i
}

fn with_packet(p: PeerPackets, role: &str, len: u64, burst: u64) -> (r: PeerPackets)
    ensures
        r@ == p@.with_packet(role@, len, burst),
{
    let mut p = p;
    if p.role.as_str().is_empty() || same(p.role.as_str(), "unknown") {
        p.role = role.to_owned();
    }
    p.total = sat_add(p.total, 1);
    if len > 0 {
        if p.packet_size_min == 0 || len < p.packet_size_min {
            p.packet_size_min = len;
        }
        if len > p.packet_size_max {
            p.packet_size_max = len;
        }
    }
    if len <= TINY_PKT_MAX {
        p.tiny = sat_add(p.tiny, 1);
    }
    if burst > p.max_identical {
        p.max_identical = burst;
        p.identical_size = len;
    }
    p
}

fn run_text(sender: &str, len: u64) -> (r: String)
    ensures
        r@ == run_name(sender@, len),
{
    let n = dec(len);
    cat3(sender, ":", n.as_str())
}

fn add_record(
    rules: &Vec<RoleRule>,
    phase: &str,
    r: &Json,
    peers: &mut Vec<PeerPackets>,
    runs: &mut Tally,
)
    ensures
        (PeerTable { peers: peer_views(final(peers)@), runs: final(runs)@ }) == (PeerTable {
            peers: peer_views(old(peers)@),
            runs: old(runs)@,
        }).with_record(rules@, phase@, r@),
{
    if !dir_in(r) {
        return ;
    }
    let remote = remote_text(r);
    let ip = extract_ip(remote);
    if ip.as_str().is_empty() {
        return ;
    }
    let len: u64 = u64_or(r.get("len"), 0);
    let host = str_or_empty(r.get("hostname"));
    let role = record_role(rules, r);
    if !should_show_in_peer_table(role.as_str(), phase) {
        return ;
    }
    let name = run_text(ip.as_str(), len);
    runs.add(name.as_str());
    let burst: u64 = runs.count(name.as_str());
    let at = find_peer(peers, ip.as_str());
    if at < peers.len() {
        let p = peers.remove(at);
        let changed = with_packet(p, role.as_str(), len, burst);
        peers.insert(at, changed);
        assert(peer_views(peers@) =~= peer_views(old(peers)@).update(at as int, changed@));
    } else {
        let fresh = PeerPackets {
            ip: ip.clone(),
            remote: remote.to_owned(),
            hostname: host.to_owned(),
            role: role.clone(),
            total: 0,
            tiny: 0,
            max_identical: 0,
            identical_size: 0,
            packet_size_min: 0,
            packet_size_max: 0,
        };
        let changed = with_packet(fresh, role.as_str(), len, burst);
        peers.push(changed);
        assert(peer_views(peers@) =~= peer_views(old(peers)@).push(changed@));
    }
}

/// The peers of a capture with their packets, in the order in which they first came.
pub fn collect_peers(rules: &Vec<RoleRule>, phase: &str, recs: &Vec<Json>) -> (r: Vec<PeerPackets>)
    ensures
        peer_views(r@) == peer_table(rules@, phase@, json_views(recs@)).peers,
{
    let mut peers: Vec<PeerPackets> = Vec::new();
    let mut runs = Tally::new();
    let mut i: usize = 0;
    assert(peer_views(peers@) =~= Seq::empty());
    while i < recs.len()
        invariant
            i <= recs.len(),
            (PeerTable { peers: peer_views(peers@), runs: runs@ }) == peer_table(
                rules@,
                phase@,
                json_views(recs@).take(i as int),
            ),
        decreases recs.len() - i,
    {
        proof {
            let t = json_views(recs@).take(i + 1);
            assert(t.drop_last() =~= json_views(recs@).take(i as int));
            assert(t.last() == recs@[i as int]@);
        }
        add_record(rules, phase, &recs[i], &mut peers, &mut runs);
        i += 1;
    }
    assert(json_views(recs@).take(i as int) =~= json_views(recs@));
    peers
}

/// A row of the peer table.
pub struct PeerRow {
    pub ip: String,
    pub remote: String,
    pub label: String,
    pub role: String,
    pub confirmed: bool,
    pub total_packets: u64,
    pub tiny_packets: u64,
    pub identical_count: u64,
    pub identical_size: u64,
    pub packet_size_min: u64,
    pub packet_size_max: u64,
    pub fixed_size: bool,
    pub vps_probe: bool,
    pub suspicious: bool,
}

#[verifier::ext_equal]
pub struct PeerRowView {
    pub ip: Seq<char>,
    pub remote: Seq<char>,
    pub label: Seq<char>,
    pub role: Seq<char>,
    pub confirmed: bool,
    pub total_packets: u64,
    pub tiny_packets: u64,
    pub identical_count: u64,
    pub identical_size: u64,
    pub packet_size_min: u64,
    pub packet_size_max: u64,
    pub fixed_size: bool,
    pub vps_probe: bool,
    pub suspicious: bool,
}

impl View for PeerRow {
    type V = PeerRowView;

    open spec fn view(&self) -> PeerRowView {
        PeerRowView {
            ip: self.ip@,
            remote: self.remote@,
            label: self.label@,
            role: self.role@,
            confirmed: self.confirmed,
            total_packets: self.total_packets,
            tiny_packets: self.tiny_packets,
            identical_count: self.identical_count,
            identical_size: self.identical_size,
            packet_size_min: self.packet_size_min,
            packet_size_max: self.packet_size_max,
            fixed_size: self.fixed_size,
            vps_probe: self.vps_probe,
            suspicious: self.suspicious,
        }
    }
}

pub open spec fn row_views(v: Seq<PeerRow>) -> Seq<PeerRowView> {
    v.map_values(|p: PeerRow| p@)
}

pub open spec fn cut_to_u32(n: u64) -> u32 {
    if n <= u32::MAX {
        n as u32
    } else {
        u32::MAX
    }
}

/// The row of a peer: its role once its packets were looked at, and what is remarkable in them.
pub open spec fn row_of(rules: Seq<RoleRule>, p: PeerPacketsView) -> PeerRowView {
    let role = resolved_role(
        rules,
        p.ip,
        p.hostname,
        p.role,
        probe_traffic(cut_to_u32(p.max_identical), p.tiny, p.total),
    );
    let label = inbound_label(p.ip, p.hostname, role);
    let confirmed = vps_probe_role(role);
    let vps_probe = confirmed && (vps_label(label) || has_text(label, "VPS"@));
    let fixed_size = p.packet_size_min > 0 && p.packet_size_min == p.packet_size_max
        && p.max_identical >= PEER_BURST_SIGNAL;
    PeerRowView {
        ip: p.ip,
        remote: p.remote,
        label,
        role,
        confirmed,
        total_packets: p.total,
        tiny_packets: p.tiny,
        identical_count: p.max_identical,
        identical_size: p.identical_size,
        packet_size_min: p.packet_size_min,
        packet_size_max: p.packet_size_max,
        fixed_size,
        vps_probe,
        suspicious: confirmed && (vps_probe || fixed_size || p.max_identical >= PEER_BURST_SIGNAL
            || p.tiny >= PEER_TINY_SIGNAL || (p.tiny >= 3 && p.total >= 6)),
    }
}

/// `a` stands above `b`: it has the longer run of one size, or as long a run and the lower address.
pub open spec fn row_above(a: PeerRowView, b: PeerRowView) -> bool {
    a.identical_count > b.identical_count || (a.identical_count == b.identical_count && text_less(
        a.ip,
        b.ip,
    ))
}

pub open spec fn rows_ordered(rows: Seq<PeerRowView>) -> bool {
    forall|i: int, j: int|
        0 <= i < j < rows.len() ==> !row_above(#[trigger] rows[j], #[trigger] rows[i])
}

proof fn lemma_row_above(a: PeerRowView, b: PeerRowView, c: PeerRowView)
    requires
        row_above(a, b),
        !row_above(c, b),
    ensures
        !row_above(c, a),
{
    lemma_text_less_total(a.ip, c.ip);
    lemma_text_less_total(b.ip, c.ip);
    if text_less(a.ip, b.ip) && text_less(b.ip, c.ip) {
        lemma_text_less_trans(a.ip, b.ip, c.ip);
    }
    if text_less(c.ip, a.ip) && text_less(a.ip, b.ip) {
        lemma_text_less_trans(c.ip, a.ip, b.ip);
    }
}

fn above(a: &PeerRow, b: &PeerRow) -> (r: bool)
    ensures
        r == row_above(a@, b@),
{
    a.identical_count > b.identical_count || (a.identical_count == b.identical_count && before(
        a.ip.as_str(),
        b.ip.as_str(),
    ))
}

/// Puts a row in its place among ordered rows.
fn place_row(rows: &mut Vec<PeerRow>, row: PeerRow)
    requires
        rows_ordered(row_views(old(rows)@)),
    ensures
        rows_ordered(row_views(final(rows)@)),
        row_views(final(rows)@).to_multiset() == row_views(old(rows)@).to_multiset().insert(row@),
        final(rows).len() == old(rows).len() + 1,
{
    let ghost views = row_views(rows@);
    let mut at: usize = 0;
    while at < rows.len() && !above(&row, &rows[at])
        invariant
            at <= rows.len(),
            rows@ == old(rows)@,
            forall|j: int| 0 <= j < at ==> !row_above(row@, (#[trigger] rows@[j])@),
        decreases rows.len() - at,
    {
        at += 1;
    }
    rows.insert(at, row);
    proof {
        let after = row_views(rows@);
        assert(after =~= views.insert(at as int, row@));
        lemma_insert_multiset(views, at as int, row@);
        assert forall|i: int, j: int| 0 <= i < j < after.len() implies !row_above(
            #[trigger] after[j],
            #[trigger] after[i],
        ) by {
            if j == at {
                assert(after[i] == old(rows)@[i]@);
            } else if i == at {
                assert(after[j] == views[j - 1]);
                assert(after[i] == row@);
                if at < j - 1 {
                    assert(!row_above(views[j - 1], views[at as int]));
                } else {
                    lemma_text_less_total(row@.ip, views[at as int].ip);
                }
                if at < j - 1 {
                    lemma_row_above(row@, views[at as int], views[j - 1]);
                }
            } else {
                let a = if i < at {
                    i
                } else {
                    i - 1
                };
                let b = if j < at {
                    j
                } else {
                    j - 1
                };
                assert(after[i] == views[a] && after[j] == views[b]);
            }
        }
    }
}

fn make_row(rules: &Vec<RoleRule>, p: &PeerPackets) -> (r: PeerRow)
    ensures
        r@ == row_of(rules@, p@),
{
    let identical: u32 = if p.max_identical <= 0xffff_ffff {
        p.max_identical as u32
    } else {
        0xffff_ffff
    };
    let role = resolve_inbound_peer_role(
        rules,
        p.ip.as_str(),
        p.hostname.as_str(),
        p.role.as_str(),
        identical,
        p.tiny,
        p.total,
        p.packet_size_min,
        p.packet_size_max,
    );
    let label = inbound_display_label(p.ip.as_str(), p.hostname.as_str(), role.as_str());
    let confirmed = is_vps_probe_role(role.as_str());
    let vps_probe = confirmed && is_vps_game_peer(label.as_str(), role.as_str());
    let fixed_size = p.packet_size_min > 0 && p.packet_size_min == p.packet_size_max
        && p.max_identical >= PEER_BURST_SIGNAL;
    let suspicious = confirmed && (vps_probe || fixed_size || p.max_identical >= PEER_BURST_SIGNAL
        || p.tiny >= PEER_TINY_SIGNAL || (p.tiny >= 3 && p.total >= 6));
    PeerRow {
        ip: p.ip.clone(),
        remote: p.remote.clone(),
        label,
        role,
        confirmed,
        total_packets: p.total,
        tiny_packets: p.tiny,
        identical_count: p.max_identical,
        identical_size: p.identical_size,
        packet_size_min: p.packet_size_min,
        packet_size_max: p.packet_size_max,
        fixed_size,
        vps_probe,
        suspicious,
    }
}

pub open spec fn rows_of(rules: Seq<RoleRule>, peers: Seq<PeerPacketsView>) -> Seq<PeerRowView> {
    peers.map_values(|p: PeerPacketsView| row_of(rules, p))
}

/// `rows` are the rows of the peers of a capture, in the order of the table.
pub open spec fn are_peer_rows(
    rows: Seq<PeerRowView>,
    rules: Seq<RoleRule>,
    phase: Seq<char>,
    recs: Seq<JsonView>,
) -> bool {
    &&& rows_ordered(rows)
    &&& rows.to_multiset() == rows_of(rules, peer_table(rules, phase, recs).peers).to_multiset()
}

/// For each inbound address the longest run of packets of one size, longest run first.
pub fn analyze_inbound_identical(rules: &Vec<RoleRule>, recs: &Vec<Json>, phase: &str) -> (r: Vec<
    PeerRow,
>)
    ensures
        are_peer_rows(row_views(r@), rules@, phase@, json_views(recs@)),
        r.len() == peer_table(rules@, phase@, json_views(recs@)).peers.len(),
{
    let peers = collect_peers(rules, phase, recs);
    let ghost want = rows_of(rules@, peer_views(peers@));
    let mut rows: Vec<PeerRow> = Vec::new();
    let mut i: usize = 0;
    assert(row_views(rows@) =~= want.take(0));
    while i < peers.len()
        invariant
            i <= peers.len(),
            rows.len() == i,
            want == rows_of(rules@, peer_views(peers@)),
            rows_ordered(row_views(rows@)),
            row_views(rows@).to_multiset() == want.take(i as int).to_multiset(),
        decreases peers.len() - i,
    {
        let row = make_row(rules, &peers[i]);
        proof {
            broadcast use vstd::seq_lib::group_to_multiset_ensures;
            assert(want[i as int] == row@);
            assert(want.take(i + 1) =~= want.take(i as int).push(row@));
        }
        place_row(&mut rows, row);
        i += 1;
    }
    assert(want.take(i as int) =~= want);
    rows
}

// ---------------------------------------------------------------------------------------------
// The whole capture

/// The counts that a capture states. The sizes are in millionths of a byte.
#[derive(Clone, Copy)]
pub struct CaptureStats {
    pub total: u64,
    pub inbound: u64,
    pub tiny_in: u64,
    pub large_in: u64,
    pub unique_in: u64,
    pub udp_in: u64,
    pub syn_in: u64,
    pub avg_in: i64,
    pub avg_out: i64,
}

pub open spec fn capture_stats(st: JsonView) -> CaptureStats {
    CaptureStats {
        total: uint_or(st.field("total"@), 0),
        inbound: uint_or(st.field("inbound"@), 0),
        tiny_in: uint_or(st.field("tinyInbound"@), 0),
        large_in: uint_or(st.field("largeInbound"@), 0),
        unique_in: uint_or(st.field("uniqueInboundRemotes"@), 0),
        udp_in: uint_or(st.field("udpInbound"@), 0),
        syn_in: uint_or(st.field("tcpSynInbound"@), 0),
        avg_in: real_or(st.field("avgInboundSize"@), 0) as i64,
        avg_out: real_or(st.field("avgOutboundSize"@), 0) as i64,
    }
}

pub open spec fn capture_block(snapshot: JsonView) -> Option<JsonView> {
    or_else(snapshot.field("packetCapture"@), snapshot.field("packet_capture"@))
}

pub open spec fn stats_block(snapshot: JsonView) -> Option<JsonView> {
    match capture_block(snapshot) {
        Some(p) => p.field("stats"@),
        None => None,
    }
}

pub open spec fn capture_records(snapshot: JsonView) -> Seq<JsonView> {
    match capture_block(snapshot) {
        Some(p) => items_or_empty(p.field("records"@)),
        None => Seq::empty(),
    }
}

/// What the statistics of a capture state of outbound packets.
pub open spec fn sent_packets(snapshot: JsonView) -> JsonView {
    match stats_block(snapshot) {
        Some(st) => or_null(st.field("outbound"@)),
        None => JsonView::Null,
    }
}

/// The statistics of a capture that holds at least one packet.
pub open spec fn live_stats(snapshot: JsonView) -> Option<CaptureStats> {
    match stats_block(snapshot) {
        Some(st) => if uint_or(st.field("total"@), 0) > 0 {
            Some(capture_stats(st))
        } else {
            None
        },
        None => None,
    }
}

fn read_stats(st: &Json) -> (r: CaptureStats)
    ensures
        r == capture_stats(st@),
        -LIMIT <= r.avg_in <= LIMIT,
        -LIMIT <= r.avg_out <= LIMIT,
{
    CaptureStats {
        total: u64_or(st.get("total"), 0),
        inbound: u64_or(st.get("inbound"), 0),
        tiny_in: u64_or(st.get("tinyInbound"), 0),
        large_in: u64_or(st.get("largeInbound"), 0),
        unique_in: u64_or(st.get("uniqueInboundRemotes"), 0),
        udp_in: u64_or(st.get("udpInbound"), 0),
        syn_in: u64_or(st.get("tcpSynInbound"), 0),
        avg_in: real_or_default(st.get("avgInboundSize"), 0),
        avg_out: real_or_default(st.get("avgOutboundSize"), 0),
    }
}

/// The capture of a snapshot.
pub fn packet_block(snapshot: &Json) -> (r: Option<&Json>)
    ensures
        opt_view(r) == capture_block(snapshot@),
{
    snapshot.get_either("packetCapture", "packet_capture")
}

/// The statistics of a snapshot's capture.
pub fn stats(snapshot: &Json) -> (r: Option<&Json>)
    ensures
        opt_view(r) == stats_block(snapshot@),
{
    match packet_block(snapshot) {
        Some(p) => p.get("stats"),
        None => None,
    }
}

/// Many tiny packets: a probe or a stress test.
pub open spec fn tiny_noted(f: FindingsView, st: CaptureStats) -> FindingsView {
    if st.tiny_in >= 15 && makes_up(st.tiny_in as nat, st.inbound as nat, 350_000) {
        f.noted(
            240_000,
            "tiny_packet_flood"@,
            capped_ratio(st.tiny_in as nat, 40),
            decimal(st.tiny_in as nat) + " tiny inbound packets ("@ + percent_text(
                st.tiny_in as nat,
                st.inbound as nat,
            ) + "% of capture) — probe/stress pattern"@,
        )
    } else if st.tiny_in >= 8 && makes_up(st.tiny_in as nat, st.inbound as nat, 250_000) {
        f.noted(
            120_000,
            "tiny_packet_elevated"@,
            500_000,
            "Elevated tiny inbound packets ("@ + decimal(st.tiny_in as nat) + ")"@,
        )
    } else {
        f
    }
}

fn note_tiny(f: &mut Findings, st: &CaptureStats)
    requires
        -ONE <= old(f)@.score <= 10 * ONE,
    ensures
        final(f)@ == tiny_noted(old(f)@, *st),
{
    if st.tiny_in >= 15 && is_made_up(st.tiny_in, st.inbound, 350_000) {
        let mut s = dec(st.tiny_in);
        s.append(" tiny inbound packets (");
        s.append(percent(st.tiny_in, st.inbound).as_str());
        s.append("% of capture) — probe/stress pattern");
        f.note(240_000, "tiny_packet_flood", capped(st.tiny_in, 40), s);
    } else if st.tiny_in >= 8 && is_made_up(st.tiny_in, st.inbound, 250_000) {
        let n = dec(st.tiny_in);
        let s = cat3("Elevated tiny inbound packets (", n.as_str(), ")");
        f.note(120_000, "tiny_packet_elevated", 500_000, s);
    }
}

/// Many distinct senders in a short window: peers fanning out.
pub open spec fn fanout_noted(f: FindingsView, st: CaptureStats, phase: Seq<char>) -> FindingsView {
    if st.unique_in >= 12 {
        f.noted(
            220_000,
            "inbound_remote_fanout"@,
            capped_ratio(st.unique_in as nat, 20),
            decimal(st.unique_in as nat)
                + " unique inbound remotes in packet window — multi-peer lobby load"@,
        )
    } else if st.unique_in >= 7 && phase == "matchmaking"@ {
        f.noted(
            140_000,
            "inbound_remote_elevated"@,
            550_000,
            "Multiple inbound remotes ("@ + decimal(st.unique_in as nat) + ") during matchmaking"@,
        )
    } else {
        f
    }
}

fn note_fanout(f: &mut Findings, st: &CaptureStats, phase: &str)
    requires
        -ONE <= old(f)@.score <= 10 * ONE,
    ensures
        final(f)@ == fanout_noted(old(f)@, *st, phase@),
{
    if st.unique_in >= 12 {
        let n = dec(st.unique_in);
        let s = cat(
            n.as_str(),
            " unique inbound remotes in packet window — multi-peer lobby load",
        );
        f.note(220_000, "inbound_remote_fanout", capped(st.unique_in, 20), s);
    } else if st.unique_in >= 7 && same(phase, "matchmaking") {
        let n = dec(st.unique_in);
        let s = cat3("Multiple inbound remotes (", n.as_str(), ") during matchmaking");
        f.note(140_000, "inbound_remote_elevated", 550_000, s);
    }
}

/// Connection probes, heavy UDP with few connections, and large packets from many senders.
pub open spec fn load_noted(f: FindingsView, st: CaptureStats, conns: int) -> FindingsView {
    let f1 = if st.syn_in >= 3 {
        f.noted(
            200_000,
            "tcp_syn_inbound"@,
            capped_ratio(st.syn_in as nat, 8),
            decimal(st.syn_in as nat) + " inbound TCP SYN packets — connection probe pattern"@,
        )
    } else {
        f
    };
    let f2 = if st.udp_in >= 20 && 18 <= conns <= 50 {
        f1.noted(
            180_000,
            "udp_inbound_quiet_pool"@,
            650_000,
            decimal(st.udp_in as nat) + " inbound UDP packets with only "@ + decimal_int(conns)
                + " connections — quiet cheater pool"@,
        )
    } else {
        f1
    };
    if st.large_in >= 8 && st.unique_in >= 5 {
        f2.noted(
            160_000,
            "large_inbound_burst"@,
            capped_ratio(st.large_in as nat, 20),
            decimal(st.large_in as nat) + " large inbound packets from "@ + decimal(
                st.unique_in as nat,
            ) + " remotes — lobby sync burst"@,
        )
    } else {
        f2
    }
}

fn note_load(f: &mut Findings, st: &CaptureStats, conns: i64)
    requires
        -ONE <= old(f)@.score <= 10 * ONE,
    ensures
        final(f)@ == load_noted(old(f)@, *st, conns as int),
{
    if st.syn_in >= 3 {
        let n = dec(st.syn_in);
        let s = cat(n.as_str(), " inbound TCP SYN packets — connection probe pattern");
        f.note(200_000, "tcp_syn_inbound", capped(st.syn_in, 8), s);
    }
    if st.udp_in >= 20 && conns >= 18 && conns <= 50 {
        let mut s = dec(st.udp_in);
        s.append(" inbound UDP packets with only ");
        s.append(dec_int(conns).as_str());
        s.append(" connections — quiet cheater pool");
        f.note(180_000, "udp_inbound_quiet_pool", 650_000, s);
    }
    if st.large_in >= 8 && st.unique_in >= 5 {
        let mut s = dec(st.large_in);
        s.append(" large inbound packets from ");
        s.append(dec(st.unique_in).as_str());
        s.append(" remotes — lobby sync burst");
        f.note(160_000, "large_inbound_burst", capped(st.large_in, 20), s);
    }
}

/// Mostly inbound packets, large ones in and small ones out: passive receiving.
pub open spec fn asymmetry_noted(f: FindingsView, st: CaptureStats) -> FindingsView {
    let share = ratio(st.inbound as nat, st.total as nat);
    if makes_up(st.inbound as nat, st.total as nat, 650_000) && st.avg_in > 200_000_000
        && st.avg_out < 120_000_000 && st.inbound >= 30 {
        f.noted(
            140_000,
            "inbound_packet_asymmetry"@,
            clamped(share as int, 0, LIMIT as int),
            "Inbound packet ratio "@ + percent_text(st.inbound as nat, st.total as nat)
                + "% with avg in "@ + whole_text(st.avg_in as int) + "B vs out "@ + whole_text(
                st.avg_out as int,
            ) + "B"@,
        )
    } else {
        f
    }
}

fn note_asymmetry(f: &mut Findings, st: &CaptureStats)
    requires
        -ONE <= old(f)@.score <= 10 * ONE,
    ensures
        final(f)@ == asymmetry_noted(old(f)@, *st),
{
    let share: i128 = ratio_of(st.inbound, st.total);
    if is_made_up(st.inbound, st.total, 650_000) && st.avg_in > 200_000_000 && st.avg_out
        < 120_000_000 && st.inbound >= 30 {
        let mut s = "Inbound packet ratio ".to_owned();
        s.append(percent(st.inbound, st.total).as_str());
        s.append("% with avg in ");
        s.append(fmt0(st.avg_in).as_str());
        s.append("B vs out ");
        s.append(fmt0(st.avg_out).as_str());
        s.append("B");
        f.note(140_000, "inbound_packet_asymmetry", keep(share), s);
    }
}

/// How many inbound packets that are not dropped came from unknown hosts, and how many from hosts
/// with a known role.
pub open spec fn sender_counts(
    rules: Seq<RoleRule>,
    phase: Seq<char>,
    recs: Seq<JsonView>,
) -> (nat, nat)
    decreases recs.len(),
{
    if recs.len() == 0 {
        (0, 0)
    } else {
        let before = sender_counts(rules, phase, recs.drop_last());
        let r = recs.last();
        let role = sender_role(rules, r);
        let dropped = drop_role(role, phase) || player_port(
            record_port(r),
            text_or_empty(r.field("proto"@)),
        );
        if !came_in(r) || dropped {
            before
        } else if role == "unknown"@ {
            (before.0 + 1, before.1)
        } else if known_traffic(role) {
            (before.0, before.1 + 1)
        } else {
            before
        }
    }
}

fn count_senders(rules: &Vec<RoleRule>, phase: &str, recs: &Vec<Json>) -> (r: (u64, u64))
    ensures
        r.0 == sender_counts(rules@, phase@, json_views(recs@)).0,
        r.1 == sender_counts(rules@, phase@, json_views(recs@)).1,
{
    let mut unknown: u64 = 0;
    let mut known: u64 = 0;
    let mut i: usize = 0;
    while i < recs.len()
        invariant
            i <= recs.len(),
            unknown <= i,
            known <= i,
            unknown == sender_counts(rules@, phase@, json_views(recs@).take(i as int)).0,
            known == sender_counts(rules@, phase@, json_views(recs@).take(i as int)).1,
        decreases recs.len() - i,
    {
        let r = &recs[i];
        proof {
            let t = json_views(recs@).take(i + 1);
            assert(t.drop_last() =~= json_views(recs@).take(i as int));
            assert(t.last() == r@);
        }
        if dir_in(r) {
            let role = classify_sender(rules, r);
            let dropped = should_drop_inbound(
                role.as_str(),
                parse_port(r),
                str_or_empty(r.get("proto")),
                phase,
            );
            if !dropped {
                if is_unknown_inbound(role.as_str()) {
                    unknown += 1;
                } else if is_known_traffic(role.as_str()) {
                    known += 1;
                }
            }
        }
        i += 1;
    }
    assert(json_views(recs@).take(i as int) =~= json_views(recs@));
    (unknown, known)
}

pub open spec fn unknown_noted(f: FindingsView, unknown: nat, known: nat) -> FindingsView {
    if unknown >= 10 && unknown > known {
        f.noted(
            180_000,
            "unknown_inbound_packets"@,
            capped_ratio(unknown, 30),
            decimal(unknown) + " inbound packets from unknown hosts vs "@ + decimal(known)
                + " game-tagged"@,
        )
    } else {
        f
    }
}

fn note_unknown(f: &mut Findings, unknown: u64, known: u64)
    requires
        -ONE <= old(f)@.score <= 10 * ONE,
    ensures
        final(f)@ == unknown_noted(old(f)@, unknown as nat, known as nat),
{
    if unknown >= 10 && unknown > known {
        let mut s = dec(unknown);
        s.append(" inbound packets from unknown hosts vs ");
        s.append(dec(known).as_str());
        s.append(" game-tagged");
        f.note(180_000, "unknown_inbound_packets", capped(unknown, 30), s);
    }
}

/// How often each remote that is not dropped sent each packet size.
pub open spec fn size_runs(
    rules: Seq<RoleRule>,
    phase: Seq<char>,
    all: Seq<JsonView>,
    recs: Seq<JsonView>,
) -> Seq<(Seq<char>, u64)>
    decreases recs.len(),
{
    if recs.len() == 0 {
        Seq::empty()
    } else {
        let runs = size_runs(rules, phase, all, recs.drop_last());
        let r = recs.last();
        let remote = remote_or_mark(r);
        if !came_in(r) || drop_role(remote_role(rules, all, remote), phase) {
            runs
        } else {
            counted(runs, run_name(remote, record_len(r)))
        }
    }
}

/// The position of the first of the highest counts, for a tally that is not empty.
pub open spec fn top_at(t: Seq<(Seq<char>, u64)>) -> int
    decreases t.len(),
{
    if t.len() <= 1 {
        0
    } else {
        let best = top_at(t.drop_last());
        if t.last().1 > t[best].1 {
            t.len() - 1
        } else {
            best
        }
    }
}

fn count_runs(rules: &Vec<RoleRule>, phase: &str, recs: &Vec<Json>) -> (r: Tally)
    ensures
        r@ == size_runs(rules@, phase@, json_views(recs@), json_views(recs@)),
{
    let ghost all = json_views(recs@);
    let mut runs = Tally::new();
    let mut i: usize = 0;
    while i < recs.len()
        invariant
            i <= recs.len(),
            all == json_views(recs@),
            runs@ == size_runs(rules@, phase@, all, all.take(i as int)),
        decreases recs.len() - i,
    {
        let r = &recs[i];
        proof {
            let t = all.take(i + 1);
            assert(t.drop_last() =~= all.take(i as int));
            assert(t.last() == r@);
        }
        if dir_in(r) {
            let remote = remote_text(r);
            let role = classify_record_role(rules, recs, remote);
            if !should_drop_inbound(role.as_str(), None, "udp", phase) {
                let name = run_text(remote, u64_or(r.get("len"), 0));
                runs.add(name.as_str());
            }
        }
        i += 1;
    }
    assert(all.take(i as int) =~= all);
    runs
}

fn top_run(t: &Tally) -> (r: usize)
    requires
        t@.len() > 0,
    ensures
        r == top_at(t@),
        r < t@.len(),
{
    let mut best: usize = 0;
    let mut i: usize = 1;
    while i < t.len()
        invariant
            1 <= i <= t@.len(),
            best < i,
            best == top_at(t@.take(i as int)),
        decreases t@.len() - i,
    {
        proof {
            let u = t@.take(i + 1);
            assert(u.drop_last() =~= t@.take(i as int));
            assert(u.last() == t@[i as int]);
            assert(u[best as int] == t@[best as int]);
        }
        if t.count_at(i) > t.count_at(best) {
            best = i;
        }
        i += 1;
    }
    assert(t@.take(i as int) =~= t@);
    best
}

/// The remote of a run's name.
pub open spec fn run_remote(name: Seq<char>) -> Seq<char> {
    let at = last_at(name, ':');
    if at < 0 {
        name
    } else {
        name.take(at)
    }
}

/// The longest run is of six packets at least, and a confirmed probe host sent it.
pub open spec fn probe_burst(
    rules: Seq<RoleRule>,
    recs: Seq<JsonView>,
    runs: Seq<(Seq<char>, u64)>,
) -> bool {
    &&& runs.len() > 0
    &&& runs[top_at(runs)].1 >= PEER_BURST_SIGNAL
    &&& vps_probe_role(remote_role(rules, recs, run_remote(runs[top_at(runs)].0)))
}

/// Many packets of one size from one remote.
pub open spec fn burst_noted(f: FindingsView, runs: Seq<(Seq<char>, u64)>) -> FindingsView {
    if runs.len() > 0 && runs[top_at(runs)].1 >= 12 {
        let top = runs[top_at(runs)];
        f.noted(
            120_000,
            "micro_burst"@,
            capped_ratio(top.1 as nat, 25),
            "Micro-burst: "@ + decimal(top.1 as nat) + " identical-size packets from "@ + top.0,
        )
    } else {
        f
    }
}

fn note_burst(f: &mut Findings, runs: &Tally)
    requires
        -ONE <= old(f)@.score <= 10 * ONE,
    ensures
        final(f)@ == burst_noted(old(f)@, runs@),
{
    if runs.len() > 0 {
        let top = top_run(runs);
        let n: u64 = runs.count_at(top);
        if n >= 12 {
            let mut s = "Micro-burst: ".to_owned();
            s.append(dec(n).as_str());
            s.append(" identical-size packets from ");
            s.append(runs.name_at(top));
            f.note(120_000, "micro_burst", capped(n, 25), s);
        }
    }
}

fn is_probe_burst(rules: &Vec<RoleRule>, recs: &Vec<Json>, runs: &Tally) -> (r: bool)
    ensures
        r == probe_burst(rules@, json_views(recs@), runs@),
{
    if runs.len() == 0 {
        return false;
    }
    let top = top_run(runs);
    if runs.count_at(top) < PEER_BURST_SIGNAL {
        return false;
    }
    let name = chars_of(runs.name_at(top));
    let end: usize = match rfind(&name, ':') {
        Some(k) => k,
        None => name.len(),
    };
    let remote = text_of(&name, 0, end);
    assert(remote@ =~= run_remote(runs@[top as int].0));
    let role = classify_record_role(rules, recs, remote.as_str());
    is_vps_probe_role(role.as_str())
}

pub open spec fn probe_rows(rows: Seq<PeerRowView>) -> nat {
    rows.filter(|r: PeerRowView| r.vps_probe).len()
}

/// Probe hosts: a burst from one, and how many of them the table holds.
pub open spec fn probes_noted(f: FindingsView, burst: bool, probes: nat) -> FindingsView {
    let f1 = if burst {
        f.marked(180_000, "peer_micro_burst"@, capped_ratio(PEER_BURST_SIGNAL as nat, 15))
    } else {
        f
    };
    if probes > 0 {
        f1.noted(
            180_000,
            "suspicious_peer"@,
            capped_ratio(probes, 3),
            decimal(probes) + " VPS probe host(s) detected — auto-block active"@,
        )
    } else {
        f1
    }
}

fn note_probes(f: &mut Findings, burst: bool, probes: u64)
    requires
        -ONE <= old(f)@.score <= 10 * ONE,
    ensures
        final(f)@ == probes_noted(old(f)@, burst, probes as nat),
{
    if burst {
        f.mark(180_000, "peer_micro_burst", capped(PEER_BURST_SIGNAL, 15));
    }
    if probes > 0 {
        let n = dec(probes);
        let s = cat(n.as_str(), " VPS probe host(s) detected — auto-block active");
        f.note(180_000, "suspicious_peer", capped(probes, 3), s);
    }
}

fn count_probes(rows: &Vec<PeerRow>) -> (r: u64)
    ensures
        r == probe_rows(row_views(rows@)),
{
    let ghost p = |r: PeerRowView| r.vps_probe;
    let mut n: u64 = 0;
    let mut i: usize = 0;
    proof {
        reveal(Seq::filter);
    }
    while i < rows.len()
        invariant
            i <= rows.len(),
            n <= i,
            p == (|r: PeerRowView| r.vps_probe),
            n == row_views(rows@).take(i as int).filter(p).len(),
        decreases rows.len() - i,
    {
        proof {
            reveal(Seq::filter);
            let t = row_views(rows@).take(i + 1);
            assert(t.drop_last() =~= row_views(rows@).take(i as int));
            assert(t.last() == rows@[i as int]@);
        }
        if rows[i].vps_probe {
            n += 1;
        }
        i += 1;
    }
    assert(row_views(rows@).take(i as int) =~= row_views(rows@));
    n
}

/// Everything that a capture shows, before the score is cut to its range.
pub open spec fn capture_findings(
    rules: Seq<RoleRule>,
    phase: Seq<char>,
    conns: int,
    st: CaptureStats,
    recs: Seq<JsonView>,
) -> FindingsView {
    let counts = sender_counts(rules, phase, recs);
    let runs = size_runs(rules, phase, recs, recs);
    let rows = rows_of(rules, peer_table(rules, phase, recs).peers);
    let f = tiny_noted(FindingsView::none(), st);
    let f = fanout_noted(f, st, phase);
    let f = load_noted(f, st, conns);
    let f = asymmetry_noted(f, st);
    let f = unknown_noted(f, counts.0, counts.1);
    let f = burst_noted(f, runs);
    probes_noted(f, probe_burst(rules, recs, runs), probe_rows(rows))
}

/// What an analysis of packets is based on.
pub enum PacketMetrics {
    /// Nothing was looked at.
    Idle,
    /// There was no packet to look at.
    NoCapture {
        reason: String,
        xbox_online: bool,
        capture_enabled: bool,
        pressure_mode: String,
        window_sec: u64,
    },
    Capture {
        stats: CaptureStats,
        /// What the statistics state under "outbound".
        outbound: Json,
        unknown_in: u64,
        game_in: u64,
        peers: Vec<PeerRow>,
        records: usize,
    },
}

/// The result of an analysis. The score is in millionths.
pub struct PacketAnalysis {
    pub score: i64,
    pub signals: Vec<Signal>,
    pub alerts: Vec<String>,
    pub verdict: &'static str,
    pub metrics: PacketMetrics,
}

impl PacketAnalysis {
    /// Score, signals and alerts of the analysis.
    pub open spec fn findings(self) -> FindingsView {
        (Findings { score: self.score, signals: self.signals, alerts: self.alerts })@
    }
}

pub open spec fn packet_verdict(score: int) -> Seq<char> {
    if score >= 420_000 {
        "likely_cheat_packets"@
    } else if score >= 160_000 {
        "suspicious_packets"@
    } else {
        "normal_packets"@
    }
}

/// Why there is no packet: the alert and the reason in short.
pub open spec fn no_capture_reason(snapshot: JsonView) -> (Seq<char>, Seq<char>) {
    let online = flag_or(snapshot.field_in("xbox"@, "online"@), false);
    let enabled = flag_or(snapshot.field_in("packetCapture"@, "enabled"@), true);
    if !online {
        (
            "Xbox offline — packet capture runs when the console is on the network."@,
            "xbox_offline"@,
        )
    } else if !enabled || stats_off(snapshot) || pressure(snapshot) != "normal"@ {
        ("Packet capture paused on array-firewall (memory pressure mode)."@, "memory_pressure"@)
    } else {
        (
            "No Xbox traffic in the capture window — idle or between Warzone sessions."@,
            "idle_window"@,
        )
    }
}

pub open spec fn stats_off(snapshot: JsonView) -> bool {
    match stats_block(snapshot) {
        Some(st) => match st.field("enabled"@) {
            Some(e) => e.flag() == Some(false),
            None => false,
        },
        None => false,
    }
}

pub open spec fn pressure(snapshot: JsonView) -> Seq<char> {
    match snapshot.field_in("preabstract"@, "mode"@) {
        Some(v) => match v.text() {
            Some(s) => s,
            None => "normal"@,
        },
        None => "normal"@,
    }
}

/// What an analysis says of a snapshot without packets.
pub open spec fn is_no_capture_analysis(r: PacketAnalysis, snapshot: JsonView) -> bool {
    &&& r.findings() == (FindingsView {
        score: 0,
        signals: Seq::empty(),
        alerts: seq![no_capture_reason(snapshot).0],
    })
    &&& r.verdict@ == "no_capture"@
    &&& r.metrics matches PacketMetrics::NoCapture {
        reason,
        xbox_online,
        capture_enabled,
        pressure_mode,
        window_sec,
    }
    &&& reason@ == no_capture_reason(snapshot).1
    &&& xbox_online == flag_or(snapshot.field_in("xbox"@, "online"@), false)
    &&& capture_enabled == flag_or(snapshot.field_in("packetCapture"@, "enabled"@), true)
    &&& pressure_mode@ == pressure(snapshot)
    &&& window_sec == uint_or(snapshot.field_in("sample"@, "windowSec"@), 3)
}

/// The analysis of a snapshot without packets.
pub fn no_capture_analysis(snapshot: &Json) -> (r: PacketAnalysis)
    ensures
        is_no_capture_analysis(r, snapshot@),
{
    let online = bool_or(snapshot.get_in("xbox", "online"), false);
    let enabled = bool_or(snapshot.get_in("packetCapture", "enabled"), true);
    let off = match stats(snapshot) {
        Some(st) => match st.get("enabled") {
            Some(e) => match e.as_bool() {
                Some(b) => !b,
                None => false,
            },
            None => false,
        },
        None => false,
    };
    let mode = match snapshot.get_in("preabstract", "mode") {
        Some(v) => match v.as_str() {
            Some(s) => s,
            None => "normal",
        },
        None => "normal",
    };
    let (alert, reason) = if !online {
        ("Xbox offline — packet capture runs when the console is on the network.", "xbox_offline")
    } else if !enabled || off || !same(mode, "normal") {
        ("Packet capture paused on array-firewall (memory pressure mode).", "memory_pressure")
    } else {
        (
            "No Xbox traffic in the capture window — idle or between Warzone sessions.",
            "idle_window",
        )
    };
    idle_with(
        alert,
        "no_capture",
        PacketMetrics::NoCapture {
            reason: reason.to_owned(),
            xbox_online: online,
            capture_enabled: enabled,
            pressure_mode: mode.to_owned(),
            window_sec: u64_or(snapshot.get_in("sample", "windowSec"), 3),
        },
    )
}

fn idle_with(alert: &str, verdict: &'static str, metrics: PacketMetrics) -> (r: PacketAnalysis)
    ensures
        r.findings() == (FindingsView { score: 0, signals: Seq::empty(), alerts: seq![alert@] }),
        r.verdict == verdict,
        r.metrics == metrics,
{
    let mut alerts: Vec<String> = Vec::new();
    alerts.push(alert.to_owned());
    let r = PacketAnalysis { score: 0, signals: Vec::new(), alerts, verdict, metrics };
    assert(r.findings() =~= FindingsView { score: 0, signals: Seq::empty(), alerts: seq![alert@] });
    r
}

/// The analysis where nothing is looked at.
pub fn idle_analysis(msg: &str) -> (r: PacketAnalysis)
    ensures
        r.findings() == (FindingsView { score: 0, signals: Seq::empty(), alerts: seq![msg@] }),
        r.verdict@ == "idle"@,
        r.metrics is Idle,
{
    idle_with(msg, "idle", PacketMetrics::Idle)
}

/// What an analysis says of a capture that holds packets.
pub open spec fn is_capture_analysis(
    r: PacketAnalysis,
    rules: Seq<RoleRule>,
    phase: Seq<char>,
    conns: int,
    st: CaptureStats,
    sent: JsonView,
    recs: Seq<JsonView>,
) -> bool {
    let f = capture_findings(rules, phase, conns, st, recs);
    &&& r.score == clamped(f.score, 0, ONE as int)
    &&& r.findings().signals == f.signals
    &&& r.findings().alerts == f.alerts
    &&& r.verdict@ == packet_verdict(r.score as int)
    &&& r.metrics matches PacketMetrics::Capture {
        stats,
        outbound,
        unknown_in,
        game_in,
        peers,
        records,
    }
    &&& stats == st
    &&& outbound@ == sent
    &&& unknown_in == sender_counts(rules, phase, recs).0
    &&& game_in == sender_counts(rules, phase, recs).1
    &&& records == recs.len()
    &&& are_peer_rows(row_views(peers@), rules, phase, recs)
}

proof fn lemma_probe_rows(a: Seq<PeerRowView>, b: Seq<PeerRowView>)
    requires
        a.to_multiset() == b.to_multiset(),
    ensures
        probe_rows(a) == probe_rows(b),
    decreases a.len(),
{
    let p = |r: PeerRowView| r.vps_probe;
    reveal(Seq::filter);
    broadcast use vstd::seq_lib::group_to_multiset_ensures;
    assert(a.to_multiset().len() == a.len());
    assert(b.to_multiset().len() == b.len());
    if a.len() > 0 {
        let x = a.last();
        assert(a.to_multiset().count(x) > 0) by {
            assert(a.contains(x));
        }
        assert(b.contains(x));
        let k = b.index_of(x);
        let b2 = b.remove(k);
        assert(a =~= a.drop_last().push(x));
        assert(b =~= b2.insert(k, x));
        lemma_insert_multiset(b2, k, x);
        assert(a.drop_last().to_multiset() =~= b2.to_multiset()) by {
            assert(a.to_multiset() =~= a.drop_last().to_multiset().insert(x));
            assert(a.drop_last().to_multiset() =~= a.to_multiset().remove(x));
            assert(b2.to_multiset() =~= b.to_multiset().remove(x));
        }
        lemma_probe_rows(a.drop_last(), b2);
        lemma_filter_insert(b2, k, x);
    } else {
        assert(b =~= a);
    }
}

proof fn lemma_filter_insert(s: Seq<PeerRowView>, k: int, x: PeerRowView)
    requires
        0 <= k <= s.len(),
    ensures
        probe_rows(s.insert(k, x)) == probe_rows(s) + if x.vps_probe {
            1nat
        } else {
            0nat
        },
    decreases s.len(),
{
    let p = |r: PeerRowView| r.vps_probe;
    reveal(Seq::filter);
    let t = s.insert(k, x);
    if k == s.len() {
        assert(t.drop_last() =~= s);
        assert(t.last() == x);
    } else {
        assert(t.last() == s.last());
        assert(t.drop_last() =~= s.drop_last().insert(k, x));
        lemma_filter_insert(s.drop_last(), k, x);
    }
}

/// `r` is the analysis of the packets that a snapshot holds.
#[verifier::opaque]
pub open spec fn is_packet_analysis(
    r: PacketAnalysis,
    rules: Seq<RoleRule>,
    snapshot: JsonView,
    phase: Seq<char>,
    conns: int,
) -> bool {
    if !gaming(phase) {
        &&& r.findings() == (FindingsView {
            score: 0,
            signals: Seq::empty(),
            alerts: seq!["Not in lobby or match"@],
        })
        &&& r.verdict@ == "idle"@
        &&& r.metrics is Idle
    } else {
        match live_stats(snapshot) {
            Some(st) => is_capture_analysis(
                r,
                rules,
                phase,
                conns,
                st,
                sent_packets(snapshot),
                capture_records(snapshot),
            ),
            None => is_no_capture_analysis(r, snapshot),
        }
    }
}

/// Analyses captured packets for the behaviour of a cheater lobby.
pub fn analyze_packets(rules: &Vec<RoleRule>, snapshot: &Json, phase: &str, conns: i64) -> (r:
    PacketAnalysis)
    ensures
        is_packet_analysis(r, rules@, snapshot@, phase@, conns as int),
        0 <= r.score <= ONE,
{
    proof {
        reveal(is_packet_analysis);
    }
    if !is_gaming(phase) {
        return idle_analysis("Not in lobby or match");
    }
    let (st, outbound) = match stats(snapshot) {
        Some(s) => {
            let st = read_stats(s);
            if st.total == 0 {
                return no_capture_analysis(snapshot);
            }
            (st, dup_or_null(s.get("outbound")))
        },
        None => {
            return no_capture_analysis(snapshot);
        },
    };
    let none: Vec<Json> = Vec::new();
    assert(json_views(none@) =~= Seq::empty());
    let recs: &Vec<Json> = match packet_block(snapshot) {
        Some(p) => match array_of(p.get("records")) {
            Some(v) => v,
            None => &none,
        },
        None => &none,
    };
    let mut f = Findings::new();
    note_tiny(&mut f, &st);
    note_fanout(&mut f, &st, phase);
    note_load(&mut f, &st, conns);
    note_asymmetry(&mut f, &st);
    let (unknown, known) = count_senders(rules, phase, recs);
    note_unknown(&mut f, unknown, known);
    let runs = count_runs(rules, phase, recs);
    note_burst(&mut f, &runs);
    let burst = is_probe_burst(rules, recs, &runs);
    let rows = analyze_inbound_identical(rules, recs, phase);
    let probes = count_probes(&rows);
    proof {
        lemma_probe_rows(
            row_views(rows@),
            rows_of(rules@, peer_table(rules@, phase@, json_views(recs@)).peers),
        );
    }
    note_probes(&mut f, burst, probes);
    let score = clamp(f.score, 0, ONE);
    let verdict = if score >= 420_000 {
        "likely_cheat_packets"
    } else if score >= 160_000 {
        "suspicious_packets"
    } else {
        "normal_packets"
    };
    PacketAnalysis {
        score,
        signals: f.signals,
        alerts: f.alerts,
        verdict,
        metrics: PacketMetrics::Capture {
            stats: st,
            outbound,
            unknown_in: unknown,
            game_in: known,
            peers: rows,
            records: recs.len(),
        },
    }
}

// ---------------------------------------------------------------------------------------------
// A capture by itself

/// What an inspection of a capture reports.
pub struct CaptureReport {
    pub analysis: PacketAnalysis,
    pub captured: Json,
    pub capture_count: Json,
    pub records: Vec<Json>,
    pub flows: Vec<Json>,
    pub stats: Json,
}

fn head_of(j: Option<&Json>, n: usize) -> (r: Vec<Json>)
    ensures
        json_views(r@) == first_of(items_or_empty(opt_view(j)), n as nat),
{
    match array_of(j) {
        Some(v) => dup_first(v, n),
        None => {
            let none: Vec<Json> = Vec::new();
            assert(json_views(none@) =~= first_of(items_or_empty(opt_view(j)), n as nat));
            none
        },
    }
}

/// Inspects a capture: its analysis with its first records and flows.
pub fn inspect_capture(rules: &Vec<RoleRule>, capture: &Json, phase: &str, conns: i64) -> (r:
    CaptureReport)
    ensures
        is_packet_analysis(r.analysis, rules@, capture@, phase@, conns as int),
        r.captured@ == or_null(capture@.field("captured"@)),
        r.capture_count@ == or_null(capture@.field("captureCount"@)),
        json_views(r.records@) == first_of(items_or_empty(capture@.field("records"@)), 100),
        json_views(r.flows@) == first_of(items_or_empty(capture@.field("flows"@)), 24),
        r.stats@ == or_null(capture@.field("stats"@)),
{
    CaptureReport {
        analysis: analyze_packets(rules, capture, phase, conns),
        captured: dup_or_null(capture.get("captured")),
        capture_count: dup_or_null(capture.get("captureCount")),
        records: head_of(capture.get("records"), 100),
        flows: head_of(capture.get("flows"), 24),
        stats: dup_or_null(capture.get("stats")),
    }
}

// ---------------------------------------------------------------------------------------------
// Laws

proof fn lemma_peer_at(peers: Seq<PeerPacketsView>, ip: Seq<char>)
    ensures
        0 <= peer_at(peers, ip) <= peers.len(),
        peer_at(peers, ip) < peers.len() ==> peers[peer_at(peers, ip)].ip == ip,
        peer_at(peers, ip) == peers.len() ==> forall|i: int|
            0 <= i < peers.len() ==> (#[trigger] peers[i]).ip != ip,
    decreases peers.len(),
{
    if peers.len() > 0 && peers[0].ip != ip {
        let t = peers.skip(1);
        lemma_peer_at(t, ip);
        if peer_at(t, ip) == t.len() {
            assert forall|i: int| 0 <= i < peers.len() implies (#[trigger] peers[i]).ip != ip by {
                if i > 0 {
                    assert(t[i - 1] == peers[i]);
                }
            }
        }
    }
}

/// The table of a capture has one row for each address, no row without a packet, and no more
/// tiny packets in a row than packets.
pub proof fn table_is_sound(rules: Seq<RoleRule>, phase: Seq<char>, recs: Seq<JsonView>)
    ensures
        ({
            let peers = peer_table(rules, phase, recs).peers;
            &&& forall|i: int, j: int|
                0 <= i < j < peers.len() ==> (#[trigger] peers[i]).ip != (#[trigger] peers[j]).ip
            &&& forall|i: int|
                0 <= i < peers.len() ==> (#[trigger] peers[i]).total >= 1 && peers[i].tiny
                    <= peers[i].total
        }),
    decreases recs.len(),
{
    if recs.len() > 0 {
        table_is_sound(rules, phase, recs.drop_last());
        let s = peer_table(rules, phase, recs.drop_last()).peers;
        let t = peer_table(rules, phase, recs).peers;
        let ip = ip_of(remote_or_mark(recs.last()));
        lemma_peer_at(s, ip);
        let at = peer_at(s, ip);
        assert forall|i: int, j: int| 0 <= i < j < t.len() implies (#[trigger] t[i]).ip != (
        #[trigger] t[j]).ip by {
            if t.len() == s.len() {
                assert(t[i].ip == s[i].ip);
                assert(t[j].ip == s[j].ip);
            } else {
                assert(t[i] == s[i]);
            }
        }
        assert forall|i: int| 0 <= i < t.len() implies (#[trigger] t[i]).total >= 1 && t[i].tiny
            <= t[i].total by {
            if i < s.len() {
                assert(s[i].total >= 1);
            }
        }
    }
}

/// A signal of a capture is given exactly when there is cause for it in what the capture states and
/// holds, with the strength that belongs to it; and the score is what the signals weigh, at most
/// one.
#[verifier::spinoff_prover]
#[verifier::rlimit(100)]
pub proof fn captures_are_judged_by_their_signals(
    r: PacketAnalysis,
    rules: Seq<RoleRule>,
    snapshot: JsonView,
    phase: Seq<char>,
    conns: int,
)
    requires
        is_packet_analysis(r, rules, snapshot, phase, conns),
        phase == "matchmaking"@ || phase == "in-match"@,
        stats_block(snapshot) is Some,
        uint_or(stats_block(snapshot)->0.field("total"@), 0) > 0,
    ensures
        ({
            let st = stats_block(snapshot)->0;
            let recs = capture_records(snapshot);
            let s = r.findings().signals;
            let total = uint_or(st.field("total"@), 0);
            let inbound = uint_or(st.field("inbound"@), 0);
            let tiny = uint_or(st.field("tinyInbound"@), 0);
            let large = uint_or(st.field("largeInbound"@), 0);
            let senders = uint_or(st.field("uniqueInboundRemotes"@), 0);
            let udp = uint_or(st.field("udpInbound"@), 0);
            let syn = uint_or(st.field("tcpSynInbound"@), 0);
            let size_in = real_or(st.field("avgInboundSize"@), 0);
            let size_out = real_or(st.field("avgOutboundSize"@), 0);
            let unknown = sender_counts(rules, phase, recs).0;
            let known = sender_counts(rules, phase, recs).1;
            let runs = size_runs(rules, phase, recs, recs);
            let top = runs[top_at(runs)].1;
            let probes = probe_rows(rows_of(rules, peer_table(rules, phase, recs).peers));
            let flood = named(s, "tiny_packet_flood"@);
            let elevated = named(s, "tiny_packet_elevated"@);
            let fanout = named(s, "inbound_remote_fanout"@);
            let several = named(s, "inbound_remote_elevated"@);
            let probe = named(s, "tcp_syn_inbound"@);
            let quiet = named(s, "udp_inbound_quiet_pool"@);
            let burst = named(s, "large_inbound_burst"@);
            let asymmetry = named(s, "inbound_packet_asymmetry"@);
            let strangers = named(s, "unknown_inbound_packets"@);
            let micro = named(s, "micro_burst"@);
            let peer_micro = named(s, "peer_micro_burst"@);
            let suspicious = named(s, "suspicious_peer"@);
            &&& flood <==> tiny >= 15 && inbound > 0 && 100 * tiny >= 35 * inbound
            &&& elevated <==> !flood && tiny >= 8 && inbound > 0 && 4 * tiny >= inbound
            &&& fanout <==> senders >= 12
            &&& several <==> 7 <= senders < 12 && phase == "matchmaking"@
            &&& probe <==> syn >= 3
            &&& quiet <==> udp >= 20 && 18 <= conns <= 50
            &&& burst <==> large >= 8 && senders >= 5
            &&& asymmetry <==> total > 0 && 100 * inbound >= 65 * total && size_in > 200_000_000
                && size_out < 120_000_000 && inbound >= 30
            &&& strangers <==> unknown >= 10 && unknown > known
            &&& micro <==> runs.len() > 0 && top >= 12
            &&& suspicious <==> probes > 0
            &&& peer_micro <==> probe_burst(rules, recs, runs)
            &&& flood ==> s.contains(("tiny_packet_flood"@, capped_ratio(tiny as nat, 40)))
            &&& elevated ==> s.contains(("tiny_packet_elevated"@, 500_000))
            &&& fanout ==> s.contains(("inbound_remote_fanout"@, capped_ratio(senders as nat, 20)))
            &&& several ==> s.contains(("inbound_remote_elevated"@, 550_000))
            &&& probe ==> s.contains(("tcp_syn_inbound"@, capped_ratio(syn as nat, 8)))
            &&& quiet ==> s.contains(("udp_inbound_quiet_pool"@, 650_000))
            &&& burst ==> s.contains(("large_inbound_burst"@, capped_ratio(large as nat, 20)))
            &&& strangers ==> s.contains(("unknown_inbound_packets"@, capped_ratio(unknown, 30)))
            &&& micro ==> s.contains(("micro_burst"@, capped_ratio(top as nat, 25)))
            &&& suspicious ==> s.contains(("suspicious_peer"@, capped_ratio(probes, 3)))
            &&& r.score == smaller(
                weigh(flood, 240_000) + weigh(elevated, 120_000) + weigh(fanout, 220_000) + weigh(
                    several,
                    140_000,
                ) + weigh(probe, 200_000) + weigh(quiet, 180_000) + weigh(burst, 160_000) + weigh(
                    asymmetry,
                    140_000,
                ) + weigh(strangers, 180_000) + weigh(micro, 120_000) + weigh(peer_micro, 180_000)
                    + weigh(suspicious, 180_000),
                1_000_000,
            )
        }),
{
    let st = capture_stats(stats_block(snapshot)->0);
    let recs = capture_records(snapshot);
    let counts = sender_counts(rules, phase, recs);
    let runs = size_runs(rules, phase, recs, recs);
    let burst = probe_burst(rules, recs, runs);
    let probes = probe_rows(rows_of(rules, peer_table(rules, phase, recs).peers));
    let f = lemma_capture_of(r, rules, snapshot, phase, conns, counts, runs, burst, probes);
    lemma_read_chain(f.signals, st, phase, conns, counts, runs, burst, probes);
}

proof fn lemma_capture_of(
    r: PacketAnalysis,
    rules: Seq<RoleRule>,
    snapshot: JsonView,
    phase: Seq<char>,
    conns: int,
    counts: (nat, nat),
    runs: Seq<(Seq<char>, u64)>,
    burst: bool,
    probes: nat,
) -> (f: FindingsView)
    requires
        is_packet_analysis(r, rules, snapshot, phase, conns),
        phase == "matchmaking"@ || phase == "in-match"@,
        stats_block(snapshot) is Some,
        uint_or(stats_block(snapshot)->0.field("total"@), 0) > 0,
        counts == sender_counts(rules, phase, capture_records(snapshot)),
        runs == size_runs(rules, phase, capture_records(snapshot), capture_records(snapshot)),
        burst == probe_burst(rules, capture_records(snapshot), runs),
        probes == probe_rows(
            rows_of(rules, peer_table(rules, phase, capture_records(snapshot)).peers),
        ),
    ensures
        r.score == clamped(f.score, 0, ONE as int),
        r.findings().signals == f.signals,
        ({
            let st = capture_stats(stats_block(snapshot)->0);
            let g = first_given(st, phase, conns);
            let h = last_given(st, counts, runs, burst, probes);
            &&& chained(
                f.signals,
                g + h,
                first_names() + last_names(),
                first_strengths(st) + last_strengths(st, counts, runs, probes),
            )
            &&& f.score == weigh(g[0], 240_000) + weigh(g[1], 120_000) + weigh(g[2], 220_000)
                + weigh(g[3], 140_000) + weigh(g[4], 200_000) + weigh(g[5], 180_000) + weigh(
                g[6],
                160_000,
            ) + weigh(h[0], 140_000) + weigh(h[1], 180_000) + weigh(h[2], 120_000) + weigh(
                h[3],
                180_000,
            ) + weigh(h[4], 180_000)
        }),
{
    reveal(is_packet_analysis);
    let st = capture_stats(stats_block(snapshot)->0);
    assert(live_stats(snapshot) == Some(st));
    let recs = capture_records(snapshot);
    lemma_capture_chain(rules, phase, conns, st, recs);
    capture_findings(rules, phase, conns, st, recs)
}

#[verifier::spinoff_prover]
#[verifier::rlimit(60)]
proof fn lemma_capture_chain(
    rules: Seq<RoleRule>,
    phase: Seq<char>,
    conns: int,
    st: CaptureStats,
    recs: Seq<JsonView>,
)
    ensures
        ({
            let f = capture_findings(rules, phase, conns, st, recs);
            let counts = sender_counts(rules, phase, recs);
            let runs = size_runs(rules, phase, recs, recs);
            let burst = probe_burst(rules, recs, runs);
            let probes = probe_rows(rows_of(rules, peer_table(rules, phase, recs).peers));
            let g = first_given(st, phase, conns);
            let h = last_given(st, counts, runs, burst, probes);
            &&& chained(
                f.signals,
                g + h,
                first_names() + last_names(),
                first_strengths(st) + last_strengths(st, counts, runs, probes),
            )
            &&& f.score == weigh(g[0], 240_000) + weigh(g[1], 120_000) + weigh(g[2], 220_000)
                + weigh(g[3], 140_000) + weigh(g[4], 200_000) + weigh(g[5], 180_000) + weigh(
                g[6],
                160_000,
            ) + weigh(h[0], 140_000) + weigh(h[1], 180_000) + weigh(h[2], 120_000) + weigh(
                h[3],
                180_000,
            ) + weigh(h[4], 180_000)
        }),
{
    let counts = sender_counts(rules, phase, recs);
    let runs = size_runs(rules, phase, recs, recs);
    let burst = probe_burst(rules, recs, runs);
    let probes = probe_rows(rows_of(rules, peer_table(rules, phase, recs).peers));
    let f5 = load_noted(
        fanout_noted(tiny_noted(FindingsView::none(), st), st, phase),
        st,
        conns,
    );
    let f = capture_findings(rules, phase, conns, st, recs);
    lemma_first_signals(st, phase, conns, f5);
    lemma_last_signals(st, f5, f, counts, runs, burst, probes);
}

#[verifier::spinoff_prover]
proof fn lemma_read_chain(
    s: Seq<(Seq<char>, int)>,
    st: CaptureStats,
    phase: Seq<char>,
    conns: int,
    counts: (nat, nat),
    runs: Seq<(Seq<char>, u64)>,
    burst: bool,
    probes: nat,
)
    requires
        chained(
            s,
            first_given(st, phase, conns) + last_given(st, counts, runs, burst, probes),
            first_names() + last_names(),
            first_strengths(st) + last_strengths(st, counts, runs, probes),
        ),
    ensures
        ({
            let g = first_given(st, phase, conns);
            let h = last_given(st, counts, runs, burst, probes);
            let top = runs[top_at(runs)].1;
            &&& named(s, "tiny_packet_flood"@) == g[0]
            &&& named(s, "tiny_packet_elevated"@) == g[1]
            &&& named(s, "inbound_remote_fanout"@) == g[2]
            &&& named(s, "inbound_remote_elevated"@) == g[3]
            &&& named(s, "tcp_syn_inbound"@) == g[4]
            &&& named(s, "udp_inbound_quiet_pool"@) == g[5]
            &&& named(s, "large_inbound_burst"@) == g[6]
            &&& named(s, "inbound_packet_asymmetry"@) == h[0]
            &&& named(s, "unknown_inbound_packets"@) == h[1]
            &&& named(s, "micro_burst"@) == h[2]
            &&& named(s, "peer_micro_burst"@) == h[3]
            &&& named(s, "suspicious_peer"@) == h[4]
            &&& g[0] ==> s.contains(("tiny_packet_flood"@, capped_ratio(st.tiny_in as nat, 40)))
            &&& g[1] ==> s.contains(("tiny_packet_elevated"@, 500_000))
            &&& g[2] ==> s.contains(
                ("inbound_remote_fanout"@, capped_ratio(st.unique_in as nat, 20)),
            )
            &&& g[3] ==> s.contains(("inbound_remote_elevated"@, 550_000))
            &&& g[4] ==> s.contains(("tcp_syn_inbound"@, capped_ratio(st.syn_in as nat, 8)))
            &&& g[5] ==> s.contains(("udp_inbound_quiet_pool"@, 650_000))
            &&& g[6] ==> s.contains(("large_inbound_burst"@, capped_ratio(st.large_in as nat, 20)))
            &&& h[1] ==> s.contains(("unknown_inbound_packets"@, capped_ratio(counts.0, 30)))
            &&& h[2] ==> s.contains(("micro_burst"@, capped_ratio(top as nat, 25)))
            &&& h[4] ==> s.contains(("suspicious_peer"@, capped_ratio(probes, 3)))
        }),
{
    let g = first_given(st, phase, conns);
    let h = last_given(st, counts, runs, burst, probes);
    let names = first_names() + last_names();
    let strengths = first_strengths(st) + last_strengths(st, counts, runs, probes);
    lemma_packet_names();
    lemma_chained(s, g + h, names, strengths);
    assert(names[0] == "tiny_packet_flood"@ && names[1] == "tiny_packet_elevated"@ && names[2]
        == "inbound_remote_fanout"@ && names[3] == "inbound_remote_elevated"@ && names[4]
        == "tcp_syn_inbound"@ && names[5] == "udp_inbound_quiet_pool"@ && names[6]
        == "large_inbound_burst"@ && names[7] == "inbound_packet_asymmetry"@ && names[8]
        == "unknown_inbound_packets"@ && names[9] == "micro_burst"@ && names[10]
        == "peer_micro_burst"@ && names[11] == "suspicious_peer"@);
    assert((g + h)[7] == h[0] && (g + h)[8] == h[1] && (g + h)[9] == h[2] && (g + h)[10] == h[3]
        && (g + h)[11] == h[4]);
}

spec fn first_names() -> Seq<Seq<char>> {
    Seq::empty().push("tiny_packet_flood"@).push("tiny_packet_elevated"@).push(
        "inbound_remote_fanout"@,
    ).push("inbound_remote_elevated"@).push("tcp_syn_inbound"@)
        .push("udp_inbound_quiet_pool"@).push(
        "large_inbound_burst"@,
    )
}

spec fn last_names() -> Seq<Seq<char>> {
    Seq::empty().push("inbound_packet_asymmetry"@).push("unknown_inbound_packets"@).push(
        "micro_burst"@,
    ).push("peer_micro_burst"@).push("suspicious_peer"@)
}

spec fn first_given(st: CaptureStats, phase: Seq<char>, conns: int) -> Seq<bool> {
    let flood = st.tiny_in >= 15 && st.inbound > 0 && 100 * st.tiny_in >= 35 * st.inbound;
    Seq::empty().push(flood).push(
        !flood && st.tiny_in >= 8 && st.inbound > 0 && 4 * st.tiny_in >= st.inbound,
    ).push(st.unique_in >= 12).push(7 <= st.unique_in < 12 && phase == "matchmaking"@).push(
        st.syn_in >= 3,
    ).push(st.udp_in >= 20 && 18 <= conns <= 50).push(st.large_in >= 8 && st.unique_in >= 5)
}

spec fn first_strengths(st: CaptureStats) -> Seq<int> {
    Seq::empty().push(capped_ratio(st.tiny_in as nat, 40)).push(500_000).push(
        capped_ratio(st.unique_in as nat, 20),
    ).push(550_000).push(capped_ratio(st.syn_in as nat, 8)).push(650_000).push(
        capped_ratio(st.large_in as nat, 20),
    )
}

spec fn last_given(
    st: CaptureStats,
    counts: (nat, nat),
    runs: Seq<(Seq<char>, u64)>,
    burst: bool,
    probes: nat,
) -> Seq<bool> {
    Seq::empty().push(
        st.total > 0 && 100 * st.inbound >= 65 * st.total && st.avg_in > 200_000_000 && st.avg_out
            < 120_000_000 && st.inbound >= 30,
    ).push(counts.0 >= 10 && counts.0 > counts.1).push(
        runs.len() > 0 && runs[top_at(runs)].1 >= 12,
    ).push(burst).push(probes > 0)
}

spec fn last_strengths(
    st: CaptureStats,
    counts: (nat, nat),
    runs: Seq<(Seq<char>, u64)>,
    probes: nat,
) -> Seq<int> {
    Seq::empty().push(
        clamped(ratio(st.inbound as nat, st.total as nat), 0, LIMIT as int),
    ).push(capped_ratio(counts.0, 30)).push(capped_ratio(runs[top_at(runs)].1 as nat, 25)).push(
        capped_ratio(PEER_BURST_SIGNAL as nat, 15),
    ).push(capped_ratio(probes, 3))
}

#[verifier::spinoff_prover]
proof fn lemma_first_signals(st: CaptureStats, phase: Seq<char>, conns: int, f: FindingsView)
    requires
        f == load_noted(fanout_noted(tiny_noted(FindingsView::none(), st), st, phase), st, conns),
    ensures
        chained(f.signals, first_given(st, phase, conns), first_names(), first_strengths(st)),
        ({
            let g = first_given(st, phase, conns);
            f.score == weigh(g[0], 240_000) + weigh(g[1], 120_000) + weigh(g[2], 220_000) + weigh(
                g[3],
                140_000,
            ) + weigh(g[4], 200_000) + weigh(g[5], 180_000) + weigh(g[6], 160_000)
        }),
{
    let g = first_given(st, phase, conns);
    let ns = first_names();
    let ss = first_strengths(st);
    let e: Seq<(Seq<char>, int)> = Seq::empty();
    let s1 = if g[0] {
        e.push((ns[0], ss[0]))
    } else {
        e
    };
    let s2 = tiny_noted(FindingsView::none(), st).signals;
    let s3 = if g[2] {
        s2.push((ns[2], ss[2]))
    } else {
        s2
    };
    let s4 = fanout_noted(tiny_noted(FindingsView::none(), st), st, phase).signals;
    let s5 = if g[4] {
        s4.push((ns[4], ss[4]))
    } else {
        s4
    };
    let s6 = if g[5] {
        s5.push((ns[5], ss[5]))
    } else {
        s5
    };
    let b0: Seq<bool> = Seq::empty();
    let n0: Seq<Seq<char>> = Seq::empty();
    let t0: Seq<int> = Seq::empty();
    assert(chained(e, b0, n0, t0));
    lemma_link(e, s1, b0, n0, t0, g[0], ns[0], ss[0]);
    let (b1, n1, t1) = (b0.push(g[0]), n0.push(ns[0]), t0.push(ss[0]));
    lemma_link(s1, s2, b1, n1, t1, g[1], ns[1], ss[1]);
    let (b2, n2, t2) = (b1.push(g[1]), n1.push(ns[1]), t1.push(ss[1]));
    lemma_link(s2, s3, b2, n2, t2, g[2], ns[2], ss[2]);
    let (b3, n3, t3) = (b2.push(g[2]), n2.push(ns[2]), t2.push(ss[2]));
    lemma_link(s3, s4, b3, n3, t3, g[3], ns[3], ss[3]);
    let (b4, n4, t4) = (b3.push(g[3]), n3.push(ns[3]), t3.push(ss[3]));
    lemma_link(s4, s5, b4, n4, t4, g[4], ns[4], ss[4]);
    let (b5, n5, t5) = (b4.push(g[4]), n4.push(ns[4]), t4.push(ss[4]));
    lemma_link(s5, s6, b5, n5, t5, g[5], ns[5], ss[5]);
    let (b6, n6, t6) = (b5.push(g[5]), n5.push(ns[5]), t5.push(ss[5]));
    lemma_link(s6, f.signals, b6, n6, t6, g[6], ns[6], ss[6]);
}

#[verifier::spinoff_prover]
proof fn lemma_last_signals(
    st: CaptureStats,
    f5: FindingsView,
    f: FindingsView,
    counts: (nat, nat),
    runs: Seq<(Seq<char>, u64)>,
    burst: bool,
    probes: nat,
)
    requires
        f == probes_noted(
            burst_noted(unknown_noted(asymmetry_noted(f5, st), counts.0, counts.1), runs),
            burst,
            probes,
        ),
    ensures
        ({
            let g = last_given(st, counts, runs, burst, probes);
            f.score == f5.score + weigh(g[0], 140_000) + weigh(g[1], 180_000) + weigh(g[2], 120_000)
                + weigh(g[3], 180_000) + weigh(g[4], 180_000)
        }),
        forall|given: Seq<bool>, names: Seq<Seq<char>>, strengths: Seq<int>|
            given.len() == names.len() && given.len() == strengths.len() && #[trigger] chained(
                f5.signals,
                given,
                names,
                strengths,
            ) ==> chained(
                f.signals,
                given + last_given(st, counts, runs, burst, probes),
                names + last_names(),
                strengths + last_strengths(st, counts, runs, probes),
            ),
{
    let g = last_given(st, counts, runs, burst, probes);
    let ns = last_names();
    let ss = last_strengths(st, counts, runs, probes);
    let s1 = asymmetry_noted(f5, st).signals;
    let s2 = unknown_noted(asymmetry_noted(f5, st), counts.0, counts.1).signals;
    let s3 = burst_noted(
        unknown_noted(asymmetry_noted(f5, st), counts.0, counts.1),
        runs,
    ).signals;
    let s4 = if g[3] {
        s3.push((ns[3], ss[3]))
    } else {
        s3
    };
    assert(grown(f5.signals, s1, g[0], ns[0], ss[0]));
    assert(grown(s1, s2, g[1], ns[1], ss[1]));
    assert(grown(s2, s3, g[2], ns[2], ss[2]));
    assert(grown(s3, s4, g[3], ns[3], ss[3]));
    assert(grown(s4, f.signals, g[4], ns[4], ss[4]));
    assert forall|b0: Seq<bool>, n0: Seq<Seq<char>>, t0: Seq<int>|
        b0.len() == n0.len() && b0.len() == t0.len() && #[trigger] chained(
            f5.signals,
            b0,
            n0,
            t0,
        ) implies chained(f.signals, b0 + g, n0 + ns, t0 + ss) by {
        lemma_link(f5.signals, s1, b0, n0, t0, g[0], ns[0], ss[0]);
        let (b1, n1, t1) = (b0.push(g[0]), n0.push(ns[0]), t0.push(ss[0]));
        lemma_link(s1, s2, b1, n1, t1, g[1], ns[1], ss[1]);
        let (b2, n2, t2) = (b1.push(g[1]), n1.push(ns[1]), t1.push(ss[1]));
        lemma_link(s2, s3, b2, n2, t2, g[2], ns[2], ss[2]);
        let (b3, n3, t3) = (b2.push(g[2]), n2.push(ns[2]), t2.push(ss[2]));
        lemma_link(s3, s4, b3, n3, t3, g[3], ns[3], ss[3]);
        let (b4, n4, t4) = (b3.push(g[3]), n3.push(ns[3]), t3.push(ss[3]));
        lemma_link(s4, f.signals, b4, n4, t4, g[4], ns[4], ss[4]);
        assert(b4.push(g[4]) =~= b0 + g);
        assert(n4.push(ns[4]) =~= n0 + ns);
        assert(t4.push(ss[4]) =~= t0 + ss);
    }
}

proof fn lemma_packet_names()
    ensures
        "tiny_packet_flood"@.len() == 17,
        "tiny_packet_elevated"@.len() == 20,
        "inbound_remote_fanout"@.len() == 21,
        "inbound_remote_elevated"@.len() == 23,
        "inbound_remote_elevated"@[0] == 'i',
        "tcp_syn_inbound"@.len() == 15,
        "tcp_syn_inbound"@[0] == 't',
        "udp_inbound_quiet_pool"@.len() == 22,
        "large_inbound_burst"@.len() == 19,
        "inbound_packet_asymmetry"@.len() == 24,
        "unknown_inbound_packets"@.len() == 23,
        "unknown_inbound_packets"@[0] == 'u',
        "micro_burst"@.len() == 11,
        "peer_micro_burst"@.len() == 16,
        "suspicious_peer"@.len() == 15,
        "suspicious_peer"@[0] == 's',
        apart(first_names() + last_names()),
{
    reveal_strlit("tiny_packet_flood");
    reveal_strlit("tiny_packet_elevated");
    reveal_strlit("inbound_remote_fanout");
    reveal_strlit("inbound_remote_elevated");
    reveal_strlit("tcp_syn_inbound");
    reveal_strlit("udp_inbound_quiet_pool");
    reveal_strlit("large_inbound_burst");
    reveal_strlit("inbound_packet_asymmetry");
    reveal_strlit("unknown_inbound_packets");
    reveal_strlit("micro_burst");
    reveal_strlit("peer_micro_burst");
    reveal_strlit("suspicious_peer");
}

/// More packets from unknown hosts never lower the score, and more from known ones never raise it,
/// all else equal.
pub proof fn strangers_raise_and_friends_lower(
    a: PacketAnalysis,
    b: PacketAnalysis,
    rules: Seq<RoleRule>,
    first: JsonView,
    second: JsonView,
    phase: Seq<char>,
    conns: int,
)
    requires
        is_packet_analysis(a, rules, first, phase, conns),
        is_packet_analysis(b, rules, second, phase, conns),
        phase == "matchmaking"@ || phase == "in-match"@,
        stats_block(first) is Some,
        stats_block(second) == stats_block(first),
        uint_or(stats_block(first)->0.field("total"@), 0) > 0,
        ({
            let r1 = capture_records(first);
            let r2 = capture_records(second);
            &&& sender_counts(rules, phase, r1).0 <= sender_counts(rules, phase, r2).0
            &&& sender_counts(rules, phase, r1).1 >= sender_counts(rules, phase, r2).1
            &&& size_runs(rules, phase, r1, r1) == size_runs(rules, phase, r2, r2)
            &&& probe_burst(rules, r1, size_runs(rules, phase, r1, r1)) == probe_burst(
                rules,
                r2,
                size_runs(rules, phase, r2, r2),
            )
            &&& probe_rows(rows_of(rules, peer_table(rules, phase, r1).peers)) == probe_rows(
                rows_of(rules, peer_table(rules, phase, r2).peers),
            )
        }),
    ensures
        a.score <= b.score,
{
    captures_are_judged_by_their_signals(a, rules, first, phase, conns);
    captures_are_judged_by_their_signals(b, rules, second, phase, conns);
}

/// Every packet is counted once or not at all: as one of an unknown host where its sender has no
/// role, as one of a known host where its role has a meaning, and never where it was sent, is
/// dropped, or its role has none.
pub proof fn packets_are_counted_once(
    rules: Seq<RoleRule>,
    phase: Seq<char>,
    recs: Seq<JsonView>,
    r: JsonView,
)
    ensures
        ({
            let before = sender_counts(rules, phase, recs);
            let after = sender_counts(rules, phase, recs.push(r));
            let role = sender_role(rules, r);
            let seen = came_in(r) && !drop_role(role, phase) && !player_port(
                record_port(r),
                text_or_empty(r.field("proto"@)),
            );
            &&& after.0 == before.0 + (if seen && role == "unknown"@ {
                1nat
            } else {
                0nat
            })
            &&& after.1 == before.1 + (if seen && role != "unknown"@ && known_traffic(role) {
                1nat
            } else {
                0nat
            })
            &&& after.0 + after.1 <= recs.len() + 1
        }),
    decreases recs.len(),
{
    assert(recs.push(r).drop_last() =~= recs);
    if recs.len() > 0 {
        packets_are_counted_once(rules, phase, recs.drop_last(), recs.last());
        assert(recs.drop_last().push(recs.last()) =~= recs);
    }
}

/// The verdict names what the score stands for: cheat packets from 0.42 on, suspicious ones from
/// 0.16 on. Outside queue and match nothing is looked at.
pub proof fn packet_verdicts_follow_the_score(
    r: PacketAnalysis,
    rules: Seq<RoleRule>,
    snapshot: JsonView,
    phase: Seq<char>,
    conns: int,
)
    requires
        is_packet_analysis(r, rules, snapshot, phase, conns),
    ensures
        r.verdict@ == "likely_cheat_packets"@ <==> r.score >= 420_000,
        r.verdict@ == "suspicious_packets"@ <==> 160_000 <= r.score < 420_000,
        r.verdict@ == "idle"@ <==> phase != "matchmaking"@ && phase != "in-match"@,
        r.verdict@ == "no_capture"@ <==> (phase == "matchmaking"@ || phase == "in-match"@) && !(
        stats_block(snapshot) is Some && uint_or(stats_block(snapshot)->0.field("total"@), 0) > 0),
{
    reveal(is_packet_analysis);
    reveal_strlit("likely_cheat_packets");
    reveal_strlit("suspicious_packets");
    reveal_strlit("normal_packets");
    reveal_strlit("idle");
    reveal_strlit("no_capture");
    assert("likely_cheat_packets"@.len() == 20 && "suspicious_packets"@.len() == 18
        && "normal_packets"@.len() == 14 && "idle"@.len() == 4 && "no_capture"@.len() == 10);
}

/// Why there is no packet: the console is off, else the capture is paused, else nothing moved.
pub proof fn missing_packets_are_explained(snapshot: JsonView)
    ensures
        ({
            let why = no_capture_reason(snapshot).1;
            let online = snapshot.field_in("xbox"@, "online"@) matches Some(v) && v.flag() == Some(
                true,
            );
            let normal = match snapshot.field_in("preabstract"@, "mode"@) {
                Some(v) => v.text() is None || v.text() == Some("normal"@),
                None => true,
            };
            let paused = (snapshot.field_in("packetCapture"@, "enabled"@) matches Some(v)
                && v.flag() == Some(false)) || (stats_block(snapshot) is Some && (stats_block(
                snapshot,
            )->0.field("enabled"@) matches Some(e) && e.flag() == Some(false)));
            &&& why == "xbox_offline"@ <==> !online
            &&& why == "memory_pressure"@ <==> online && (paused || !normal)
            &&& why == "idle_window"@ <==> online && !paused && normal
        }),
{
    reveal_strlit("xbox_offline");
    reveal_strlit("memory_pressure");
    reveal_strlit("idle_window");
    assert("xbox_offline"@.len() == 12 && "memory_pressure"@.len() == 15 && "idle_window"@.len()
        == 11);
}

/// What a packet adds to its peer: one to its count, one to its tiny ones where it has 79 bytes or
/// fewer; its size to the range; and a longer run of one size takes the place of the longest. A
/// role that is known stays.
pub proof fn packets_add_to_their_peer(p: PeerPacketsView, role: Seq<char>, len: u64, burst: u64)
    requires
        p.total < u64::MAX,
        p.tiny < u64::MAX,
    ensures
        ({
            let q = p.with_packet(role, len, burst);
            &&& q.total == p.total + 1
            &&& len <= 79 ==> q.tiny == p.tiny + 1
            &&& len > 79 ==> q.tiny == p.tiny
            &&& q.max_identical >= p.max_identical && q.max_identical >= burst
            &&& q.max_identical == p.max_identical || (q.max_identical == burst
                && q.identical_size == len)
            &&& burst <= p.max_identical ==> q.identical_size == p.identical_size
            &&& q.packet_size_max >= len && q.packet_size_max >= p.packet_size_max
            &&& q.packet_size_max == len || q.packet_size_max == p.packet_size_max
            &&& len > 0 ==> 0 < q.packet_size_min <= len
            &&& p.packet_size_min > 0 ==> 0 < q.packet_size_min <= p.packet_size_min
            &&& q.packet_size_min == len || q.packet_size_min == p.packet_size_min
            &&& q.ip == p.ip && q.remote == p.remote && q.hostname == p.hostname
            &&& p.role.len() > 0 && p.role != "unknown"@ ==> q.role == p.role
            &&& p.role.len() == 0 || p.role == "unknown"@ ==> q.role == role
        }),
{
}

/// Which packets count for the table: those that came in, from an address, in a role that is shown.
/// One that does not count leaves the table as it was; one that does adds to the peer of its
/// address, or adds that peer.
pub proof fn inbound_packets_count_for_the_table(
    t: PeerTable,
    rules: Seq<RoleRule>,
    phase: Seq<char>,
    r: JsonView,
    i: int,
)
    requires
        0 <= i < t.peers.len(),
    ensures
        ({
            let u = t.with_record(rules, phase, r);
            let ip = ip_of(remote_or_mark(r));
            let counts = r.field("dir"@) == Some(JsonView::Str("in"@)) && ip.len() > 0
                && shown_in_table(role_of_record(rules, r), phase);
            let known = exists|k: int| 0 <= k < t.peers.len() && (#[trigger] t.peers[k]).ip == ip;
            let name = run_name(ip, record_len(r));
            &&& !counts ==> u == t
            &&& t.peers[i].ip != ip ==> u.peers[i] == t.peers[i]
            &&& counts && known ==> u.peers.len() == t.peers.len()
            &&& counts && !known ==> u.peers.len() == t.peers.len() + 1 && u.peers.last().ip == ip
            &&& counts && count_in(t.runs, name) < u64::MAX ==> count_in(u.runs, name) == count_in(
                t.runs,
                name,
            ) + 1
        }),
{
    let ip = ip_of(remote_or_mark(r));
    lemma_peer_place(t.peers, ip);
    let name = run_name(ip, record_len(r));
    lemma_counted(t.runs, name, name);
    let at = peer_at(t.peers, ip);
    if at < t.peers.len() {
        assert(t.peers[at].ip == ip);
    }
}

proof fn lemma_peer_place(peers: Seq<PeerPacketsView>, ip: Seq<char>)
    ensures
        0 <= peer_at(peers, ip) <= peers.len(),
        peer_at(peers, ip) < peers.len() ==> peers[peer_at(peers, ip)].ip == ip,
        forall|k: int| 0 <= k < peer_at(peers, ip) ==> (#[trigger] peers[k]).ip != ip,
    decreases peers.len(),
{
    if peers.len() > 0 && peers[0].ip != ip {
        let t = peers.skip(1);
        lemma_peer_place(t, ip);
        assert forall|k: int| 0 <= k < peer_at(peers, ip) implies (#[trigger] peers[k]).ip
            != ip by {
            if k > 0 {
                assert(t[k - 1] == peers[k]);
            }
        }
    }
}

/// When a peer is suspicious: it is a confirmed probe, and one of these holds: it is on the host of
/// a provider, six of its packets had one size, four were tiny, or three of six were. It is of one
/// fixed size where all its packets are, six at least.
pub proof fn peers_are_suspicious_for_a_reason(rules: Seq<RoleRule>, p: PeerPacketsView)
    ensures
        ({
            let r = row_of(rules, p);
            &&& r.confirmed <==> r.role == "vps-probe"@ || r.role == "game-peer"@
            &&& r.vps_probe <==> r.confirmed && (vps_label(r.label) || has_text(r.label, "VPS"@))
            &&& r.fixed_size <==> p.packet_size_min > 0 && p.packet_size_min == p.packet_size_max
                && p.max_identical >= 6
            &&& r.suspicious <==> r.confirmed && (r.vps_probe || p.max_identical >= 6 || p.tiny >= 4
                || (p.tiny >= 3 && p.total >= 6))
            &&& r.total_packets == p.total && r.tiny_packets == p.tiny && r.identical_count
                == p.max_identical && r.ip == p.ip
        }),
{
}

/// A run is named after its sender, and the name gives the sender back.
pub proof fn runs_name_their_sender(sender: Seq<char>, len: u64)
    ensures
        run_remote(run_name(sender, len)) == sender,
{
    reveal_strlit(":");
    let name = run_name(sender, len);
    let d = decimal(len as nat);
    let n = sender.len() as int;
    assert(":"@.len() == 1 && ":"@[0] == ':');
    assert(name.len() == n + 1 + d.len());
    assert(name[n] == ':');
    lemma_decimal(len as nat);
    last_places_are_last(name, ':', n);
    let at = last_at(name, ':');
    if at > n {
        assert(name[at] == d[at - n - 1]);
        assert(is_digit(d[at - n - 1]));
    }
    assert(at == n);
    assert(name.take(n) =~= sender);
}

/// The role of a remote is that of the first packet with it, and that of its address where there
/// is none; the role of a packet is the one that it names, else that of its sender.
pub proof fn remotes_have_the_role_of_their_first_packet(
    rules: Seq<RoleRule>,
    recs: Seq<JsonView>,
    r: JsonView,
    remote: Seq<char>,
)
    ensures
        r.field("remote"@) == Some(JsonView::Str(remote)) ==> remote_role(
            rules,
            seq![r] + recs,
            remote,
        ) == role_of_record(rules, r),
        r.field("remote"@) is None ==> remote_role(rules, seq![r] + recs, remote) == remote_role(
            rules,
            recs,
            remote,
        ),
        recs.len() == 0 ==> remote_role(rules, recs, remote) == inbound_role(
            rules,
            remote,
            ""@,
            None,
            "udp"@,
        ),
        text_or_empty(r.field("roleId"@)).len() > 0 ==> role_of_record(rules, r) == text_or_empty(
            r.field("roleId"@),
        ),
        text_or_empty(r.field("roleId"@)).len() == 0 && r.field("dir"@) == Some(
            JsonView::Str("in"@),
        ) ==> role_of_record(rules, r) == sender_role(rules, r),
{
    let s = seq![r] + recs;
    assert(s[0] == r);
    assert(s.skip(1) =~= recs);
}

/// Rows with longer runs stand above, then those of the lower address; of two never both do.
pub proof fn longer_runs_stand_above(a: PeerRowView, b: PeerRowView)
    ensures
        a.identical_count > b.identical_count ==> row_above(a, b),
        a.identical_count == b.identical_count ==> (row_above(a, b) <==> text_less(a.ip, b.ip)),
        !(row_above(a, b) && row_above(b, a)),
{
    lemma_text_less_total(a.ip, b.ip);
}

} // verus!
