//! The table of inbound peers of a gaming session, over its polls.
use vstd::prelude::*;

use crate::counts::{lemma_insert_multiset, plus, sat_add};
use crate::enrich::{
    inbound_display_label, inbound_label, infrastructure, infrastructure_stays, is_vps_game_peer,
    probe_traffic, resolve_inbound_peer_role, resolved_role, should_show_in_peer_table,
    shown_in_table, vps_label, vps_probe_role, RoleRule,
};
use crate::json::{
    bool_or, flag_or, json_views, or_else, str_or_empty, text_or_empty, u64_or, uint_or, Json,
    JsonView,
};
use crate::learning::{one_more_u32, plus_one_u32};
use crate::snapshot::{gaming, is_gaming};
use crate::text::{
    before, cat3, chars_of, dec, decimal, dup_texts, has_text, lemma_text_less_total,
    lemma_text_less_trans, same, text_less, views,
};

verus! {

/// A peer of the session. Times are in millionths of a second.
pub struct PeerRow {
    pub ip: String,
    pub remote: String,
    pub label: String,
    pub role: String,
    /// The longest run of packets of one size within a poll, and that size.
    pub identical_count: u32,
    pub identical_size: u64,
    pub packet_size_min: u64,
    pub packet_size_max: u64,
    pub total_packets: u64,
    pub tiny_packets: u64,
    /// In how many polls the peer was seen.
    pub poll_hits: u32,
    pub first_seen: i64,
    pub last_seen: i64,
    pub suspicious: bool,
    pub vps_probe: bool,
}

#[verifier::ext_equal]
pub struct PeerRowView {
    pub ip: Seq<char>,
    pub remote: Seq<char>,
    pub label: Seq<char>,
    pub role: Seq<char>,
    pub identical_count: u32,
    pub identical_size: u64,
    pub packet_size_min: u64,
    pub packet_size_max: u64,
    pub total_packets: u64,
    pub tiny_packets: u64,
    pub poll_hits: u32,
    pub first_seen: i64,
    pub last_seen: i64,
    pub suspicious: bool,
    pub vps_probe: bool,
}

impl View for PeerRow {
    type V = PeerRowView;

    open spec fn view(&self) -> PeerRowView {
        PeerRowView {
            ip: self.ip@,
            remote: self.remote@,
            label: self.label@,
            role: self.role@,
            identical_count: self.identical_count,
            identical_size: self.identical_size,
            packet_size_min: self.packet_size_min,
            packet_size_max: self.packet_size_max,
            total_packets: self.total_packets,
            tiny_packets: self.tiny_packets,
            poll_hits: self.poll_hits,
            first_seen: self.first_seen,
            last_seen: self.last_seen,
            suspicious: self.suspicious,
            vps_probe: self.vps_probe,
        }
    }
}

pub open spec fn row_views(v: Seq<PeerRow>) -> Seq<PeerRowView> {
    v.map_values(|p: PeerRow| p@)
}

// ---------------------------------------------------------------------------------------------
// What a poll tells of a peer

/// What a poll tells of a peer.
pub struct Sighting {
    pub role: String,
    pub ip: String,
    pub remote: String,
    pub host: String,
    pub identical: u32,
    pub size: u64,
    pub size_min: u64,
    pub size_max: u64,
    pub total: u64,
    pub tiny: u64,
    pub suspicious: bool,
    pub vps_probe: bool,
    pub fixed_size: bool,
}

#[verifier::ext_equal]
pub struct SightingView {
    pub role: Seq<char>,
    pub ip: Seq<char>,
    pub remote: Seq<char>,
    pub host: Seq<char>,
    pub identical: u32,
    pub size: u64,
    pub size_min: u64,
    pub size_max: u64,
    pub total: u64,
    pub tiny: u64,
    pub suspicious: bool,
    pub vps_probe: bool,
    pub fixed_size: bool,
}

impl View for Sighting {
    type V = SightingView;

    open spec fn view(&self) -> SightingView {
        SightingView {
            role: self.role@,
            ip: self.ip@,
            remote: self.remote@,
            host: self.host@,
            identical: self.identical,
            size: self.size,
            size_min: self.size_min,
            size_max: self.size_max,
            total: self.total,
            tiny: self.tiny,
            suspicious: self.suspicious,
            vps_probe: self.vps_probe,
            fixed_size: self.fixed_size,
        }
    }
}

/// The low 32 bits.
pub open spec fn low_32(n: u64) -> u32 {
    (n % 0x1_0000_0000) as u32
}

/// What an entry of a poll tells of a peer.
pub open spec fn sighting(p: JsonView) -> SightingView {
    let role = text_or_empty(p.field("role"@));
    let ip = text_or_empty(or_else(p.field("ip"@), p.field("remote"@)));
    let label = text_or_empty(p.field("label"@));
    SightingView {
        role,
        ip,
        remote: match p.field("remote"@) {
            Some(v) => match v.text() {
                Some(t) => t,
                None => ip,
            },
            None => ip,
        },
        host: text_or_empty(or_else(p.field("hostname"@), p.field("host"@))),
        identical: low_32(uint_or(p.field("identical_count"@), 0)),
        size: uint_or(p.field("identical_size"@), 0),
        size_min: uint_or(p.field("packet_size_min"@), 0),
        size_max: uint_or(p.field("packet_size_max"@), 0),
        total: uint_or(or_else(p.field("total_packets"@), p.field("packets"@)), 0),
        tiny: uint_or(p.field("tiny_packets"@), 0),
        suspicious: flag_or(p.field("suspicious"@), false),
        vps_probe: flag_or(p.field("vps_probe"@), false) || (vps_probe_role(role) && (vps_label(
            label,
        ) || has_text(label, "VPS"@))),
        fixed_size: flag_or(p.field("fixed_size"@), false),
    }
}

fn read_sighting(p: &Json) -> (r: Sighting)
    ensures
        r@ == sighting(p@),
{
    let role = str_or_empty(p.get("role"));
    let ip = str_or_empty(p.get_either("ip", "remote"));
    let label = str_or_empty(p.get("label"));
    let mut remote = ip;
    if let Some(v) = p.get("remote") {
        if let Some(t) = v.as_str() {
            remote = t;
        }
    }
    let identical: u64 = u64_or(p.get("identical_count"), 0);
    Sighting {
        role: role.to_owned(),
        ip: ip.to_owned(),
        remote: remote.to_owned(),
        host: str_or_empty(p.get_either("hostname", "host")).to_owned(),
        identical: (identical % 0x1_0000_0000) as u32,
        size: u64_or(p.get("identical_size"), 0),
        size_min: u64_or(p.get("packet_size_min"), 0),
        size_max: u64_or(p.get("packet_size_max"), 0),
        total: u64_or(p.get_either("total_packets", "packets"), 0),
        tiny: u64_or(p.get("tiny_packets"), 0),
        suspicious: bool_or(p.get("suspicious"), false),
        vps_probe: bool_or(p.get("vps_probe"), false) || is_vps_game_peer(label, role),
        fixed_size: bool_or(p.get("fixed_size"), false),
    }
}

// ---------------------------------------------------------------------------------------------
// The table

/// The row of a peer that is seen for the first time, before its packets are counted.
pub open spec fn first_row(rules: Seq<RoleRule>, s: SightingView, now: i64) -> PeerRowView {
    let role = resolved_role(
        rules,
        s.ip,
        s.host,
        s.role,
        probe_traffic(s.identical, s.tiny, s.total),
    );
    PeerRowView {
        ip: s.ip,
        remote: s.remote,
        label: inbound_label(s.ip, s.host, role),
        role,
        identical_count: 0,
        identical_size: 0,
        packet_size_min: 0,
        packet_size_max: 0,
        total_packets: 0,
        tiny_packets: 0,
        poll_hits: 0,
        first_seen: now,
        last_seen: now,
        suspicious: false,
        vps_probe: false,
    }
}

pub open spec fn least_size(a: u64, b: u64) -> u64 {
    if b == 0 {
        a
    } else if a == 0 || b < a {
        b
    } else {
        a
    }
}

/// All packets have one size, and many came in a row.
pub open spec fn of_one_size(r: PeerRowView) -> bool {
    r.packet_size_min > 0 && r.packet_size_min == r.packet_size_max && r.identical_count >= 6
}

/// The row after a poll that saw the peer. The role is resolved with the sums so far.
pub open spec fn seen(
    rules: Seq<RoleRule>,
    row: PeerRowView,
    s: SightingView,
    now: i64,
) -> PeerRowView {
    let total = plus(row.total_packets, s.total);
    let tiny = plus(row.tiny_packets, s.tiny);
    let identical = if s.identical > row.identical_count {
        s.identical
    } else {
        row.identical_count
    };
    let role = resolved_role(
        rules,
        s.ip,
        s.host,
        row.role,
        probe_traffic(identical, tiny, total),
    );
    let counted = PeerRowView {
        label: inbound_label(s.ip, s.host, role),
        role,
        identical_count: identical,
        identical_size: if s.identical > row.identical_count {
            s.size
        } else {
            row.identical_size
        },
        packet_size_min: least_size(row.packet_size_min, s.size_min),
        packet_size_max: if s.size_max > row.packet_size_max {
            s.size_max
        } else {
            row.packet_size_max
        },
        total_packets: total,
        tiny_packets: tiny,
        poll_hits: plus_one_u32(row.poll_hits),
        last_seen: now,
        ..row
    };
    PeerRowView {
        suspicious: row.suspicious || s.suspicious || s.vps_probe || s.fixed_size || of_one_size(
            counted,
        ) || identical >= 6 || tiny >= 4,
        vps_probe: row.vps_probe || s.vps_probe,
        ..counted
    }
}

/// The position of the row with this address, or the number of rows.
pub open spec fn row_at(rows: Seq<PeerRowView>, ip: Seq<char>) -> int
    decreases rows.len(),
{
    if rows.len() == 0 {
        0
    } else if rows[0].ip == ip {
        0
    } else {
        1 + row_at(rows.skip(1), ip)
    }
}

/// The table after an entry of a poll. What is not shown in the phase, and what has no address,
/// is left out.
pub open spec fn with_sighting(
    rules: Seq<RoleRule>,
    rows: Seq<PeerRowView>,
    phase: Seq<char>,
    p: JsonView,
    now: i64,
) -> Seq<PeerRowView> {
    let s = sighting(p);
    let at = row_at(rows, s.ip);
    if !shown_in_table(s.role, phase) || s.ip.len() == 0 {
        rows
    } else if at < rows.len() {
        rows.update(at, seen(rules, rows[at], s, now))
    } else {
        rows.push(seen(rules, first_row(rules, s, now), s, now))
    }
}

pub open spec fn with_sightings(
    rules: Seq<RoleRule>,
    rows: Seq<PeerRowView>,
    phase: Seq<char>,
    peers: Seq<JsonView>,
    now: i64,
) -> Seq<PeerRowView>
    decreases peers.len(),
{
    if peers.len() == 0 {
        rows
    } else {
        with_sighting(
            rules,
            with_sightings(rules, rows, phase, peers.drop_last(), now),
            phase,
            peers.last(),
            now,
        )
    }
}

/// The rows that the phase shows.
pub open spec fn shown_rows(rows: Seq<PeerRowView>, phase: Seq<char>) -> Seq<PeerRowView> {
    rows.filter(|r: PeerRowView| shown_in_table(r.role, phase))
}

/// No two rows have one address.
pub open spec fn one_row_each(rows: Seq<PeerRowView>) -> bool {
    forall|i: int, j: int|
        0 <= i < j < rows.len() ==> (#[trigger] rows[i]).ip != (#[trigger] rows[j]).ip
}

fn find_row(rows: &Vec<PeerRow>, ip: &str) -> (r: usize)
    ensures
        r == row_at(row_views(rows@), ip@),
        r <= rows.len(),
{
    let ghost all = row_views(rows@);
    let mut i: usize = 0;
    assert(all.skip(0) =~= all);
    while i < rows.len()
        invariant
            i <= rows.len(),
            all == row_views(rows@),
            row_at(all, ip@) == i + row_at(all.skip(i as int), ip@),
        decreases rows.len() - i,
    {
        assert(all.skip(i as int)[0] == rows@[i as int]@);
        assert(all.skip(i as int).skip(1) =~= all.skip(i + 1));
        if same(rows[i].ip.as_str(), ip) {
            return i;
        }
        i += 1;
    }
    assert(all.skip(i as int) =~= Seq::empty());
    i
}

fn new_row(rules: &Vec<RoleRule>, s: &Sighting, now: i64) -> (r: PeerRow)
    ensures
        r@ == first_row(rules@, s@, now),
{
    let role = resolve_inbound_peer_role(
        rules,
        s.ip.as_str(),
        s.host.as_str(),
        s.role.as_str(),
        s.identical,
        s.tiny,
        s.total,
        s.size_min,
        s.size_max,
    );
    let label = inbound_display_label(s.ip.as_str(), s.host.as_str(), role.as_str());
    PeerRow {
        ip: s.ip.clone(),
        remote: s.remote.clone(),
        label,
        role,
        identical_count: 0,
        identical_size: 0,
        packet_size_min: 0,
        packet_size_max: 0,
        total_packets: 0,
        tiny_packets: 0,
        poll_hits: 0,
        first_seen: now,
        last_seen: now,
        suspicious: false,
        vps_probe: false,
    }
}

fn see(rules: &Vec<RoleRule>, row: PeerRow, s: &Sighting, now: i64) -> (r: PeerRow)
    ensures
        r@ == seen(rules@, row@, s@, now),
{
    let mut e = row;
    e.poll_hits = one_more_u32(e.poll_hits);
    e.last_seen = now;
    e.total_packets = sat_add(e.total_packets, s.total);
    e.tiny_packets = sat_add(e.tiny_packets, s.tiny);
    let longest: u32 = if s.identical > e.identical_count {
        s.identical
    } else {
        e.identical_count
    };
    let role = resolve_inbound_peer_role(
        rules,
        s.ip.as_str(),
        s.host.as_str(),
        e.role.as_str(),
        longest,
        e.tiny_packets,
        e.total_packets,
        e.packet_size_min,
        e.packet_size_max,
    );
    e.label = inbound_display_label(s.ip.as_str(), s.host.as_str(), role.as_str());
    e.role = role;
    if s.identical > e.identical_count {
        e.identical_count = s.identical;
        e.identical_size = s.size;
    }
    if s.size_min > 0 && (e.packet_size_min == 0 || s.size_min < e.packet_size_min) {
        e.packet_size_min = s.size_min;
    }
    if s.size_max > e.packet_size_max {
        e.packet_size_max = s.size_max;
    }
    let fixed = s.fixed_size || (e.packet_size_min > 0 && e.packet_size_min == e.packet_size_max
        && e.identical_count >= 6);
    e.suspicious = e.suspicious || s.suspicious || s.vps_probe || fixed || e.identical_count >= 6
        || e.tiny_packets >= 4;
    e.vps_probe = e.vps_probe || s.vps_probe;
    e
}

fn add_sighting(
    rules: &Vec<RoleRule>,
    rows: &mut Vec<PeerRow>,
    phase: &str,
    p: &Json,
    now: i64,
)
    ensures
        row_views(final(rows)@) == with_sighting(
            rules@,
            row_views(old(rows)@),
            phase@,
            p@,
            now,
        ),
{
    let s = read_sighting(p);
    if !should_show_in_peer_table(s.role.as_str(), phase) {
        return ;
    }
    if s.ip.as_str().is_empty() {
        return ;
    }
    let at: usize = find_row(rows, s.ip.as_str());
    if at < rows.len() {
        let row = rows.remove(at);
        let changed = see(rules, row, &s, now);
        rows.insert(at, changed);
        assert(row_views(rows@) =~= row_views(old(rows)@).update(at as int, changed@));
    } else {
        let fresh = new_row(rules, &s, now);
        let changed = see(rules, fresh, &s, now);
        rows.push(changed);
        assert(row_views(rows@) =~= row_views(old(rows)@).push(changed@));
    }
}

/// Drops the rows that the phase does not show.
fn retain_shown(rows: &mut Vec<PeerRow>, phase: &str)
    ensures
        row_views(final(rows)@) == shown_rows(row_views(old(rows)@), phase@),
{
    let ghost all = row_views(rows@);
    let ghost keeps = |r: PeerRowView| shown_in_table(r.role, phase@);
    let total: usize = rows.len();
    let mut i: usize = 0;
    let mut done: usize = 0;
    proof {
        reveal(Seq::filter);
        assert(all.take(0).filter(keeps) =~= Seq::empty());
        assert(row_views(rows@) =~= all.take(0).filter(keeps) + all.skip(0));
    }
    while i < rows.len()
        invariant
            i <= rows.len(),
            done <= all.len() == total,
            rows.len() - i == all.len() - done,
            keeps == (|r: PeerRowView| shown_in_table(r.role, phase@)),
            all.take(done as int).filter(keeps).len() == i,
            row_views(rows@) == all.take(done as int).filter(keeps) + all.skip(done as int),
        decreases all.len() - done,
    {
        let ghost prefix = all.take(done as int).filter(keeps);
        let ghost before = row_views(rows@);
        proof {
            assert(before[i as int] == all[done as int]);
            assert(rows@[i as int]@ == before[i as int]);
            let t = all.take(done + 1);
            assert(t.drop_last() =~= all.take(done as int));
            assert(t.last() == all[done as int]);
            reveal(Seq::filter);
        }
        if should_show_in_peer_table(rows[i].role.as_str(), phase) {
            proof {
                assert(prefix.push(all[done as int]) + all.skip(done + 1) =~= prefix + all.skip(
                    done as int,
                ));
            }
            i += 1;
        } else {
            let _dropped = rows.remove(i);
            proof {
                assert(row_views(rows@) =~= before.remove(i as int));
                assert(before.remove(i as int) =~= prefix + all.skip(done + 1));
            }
        }
        done += 1;
    }
    assert(all.take(done as int) =~= all);
    assert(all.skip(done as int) =~= Seq::empty());
    assert(row_views(rows@) =~= all.filter(keeps));
}

// ---------------------------------------------------------------------------------------------
// The names of sessions

/// A hexadecimal digit.
pub open spec fn hex_char(d: nat) -> char {
    if d < 10 {
        (('0' as u32) + d) as char
    } else {
        (('a' as u32) + d - 10) as char
    }
}

/// The last `width` hexadecimal digits of a number.
pub open spec fn hex_text(n: nat, width: nat) -> Seq<char>
    decreases width,
{
    if width == 0 {
        Seq::empty()
    } else {
        hex_text(n / 16, (width - 1) as nat).push(hex_char(n % 16))
    }
}

pub open spec fn is_hex_char(c: char) -> bool {
    '0' <= c <= '9' || 'a' <= c <= 'f' || 'A' <= c <= 'F'
}

/// Sixteen hexadecimal digits.
pub open spec fn is_session_hex(s: Seq<char>) -> bool {
    s.len() == 16 && forall|i: int| 0 <= i < s.len() ==> is_hex_char(#[trigger] s[i])
}

fn hex_digit(d: u64) -> (r: char)
    requires
        d < 16,
    ensures
        r == hex_char(d as nat),
{
    if d < 10 {
        (48u8 + d as u8) as char
    } else {
        (97u8 + (d - 10) as u8) as char
    }
}

fn hex_chars(n: u64, width: u64) -> (r: String)
    requires
        width <= 16,
    ensures
        r@ == hex_text(n as nat, width as nat),
    decreases width,
{
    if width == 0 {
        return String::new();
    }
    let mut s = hex_chars(n / 16, width - 1);
    s.push(hex_digit(n % 16));
    s
}

/// The name of a session that began at this number of nanoseconds.
pub fn session_name(nanos: u64) -> (r: String)
    ensures
        r@ == hex_text(nanos as nat, 16),
{
    hex_chars(nanos, 16)
}

/// Whether a text can be the name of a session.
pub fn valid_session_hex(hex: &str) -> (r: bool)
    ensures
        r == is_session_hex(hex@),
{
    let v = chars_of(hex);
    if v.len() != 16 {
        return false;
    }
    let mut i: usize = 0;
    while i < v.len()
        invariant
            i <= v.len(),
            v@ == hex@,
            v@.len() == 16,
            forall|k: int| 0 <= k < i ==> is_hex_char(#[trigger] v@[k]),
        decreases v.len() - i,
    {
        let c = v[i];
        let ok = ('0' <= c && c <= '9') || ('a' <= c && c <= 'f') || ('A' <= c && c <= 'F');
        if !ok {
            assert(!is_hex_char(v@[i as int]));
            return false;
        }
        i += 1;
    }
    true
}

// ---------------------------------------------------------------------------------------------
// The tracker

/// The running session with its table.
pub struct PeerTracker {
    session_hex: Option<String>,
    session_started: i64,
    phase: String,
    rows: Vec<PeerRow>,
    clear_count: u32,
    snapshot_files: Vec<String>,
}

#[verifier::ext_equal]
pub struct TrackerView {
    pub session_hex: Option<Seq<char>>,
    pub session_started: i64,
    pub phase: Seq<char>,
    pub rows: Seq<PeerRowView>,
    pub clear_count: u32,
    pub snapshot_files: Seq<Seq<char>>,
}

pub open spec fn opt_chars(s: Option<String>) -> Option<Seq<char>> {
    match s {
        Some(t) => Some(t@),
        None => None,
    }
}

impl View for PeerTracker {
    type V = TrackerView;

    closed spec fn view(&self) -> TrackerView {
        TrackerView {
            session_hex: opt_chars(self.session_hex),
            session_started: self.session_started,
            phase: self.phase@,
            rows: row_views(self.rows@),
            clear_count: self.clear_count,
            snapshot_files: views(self.snapshot_files@),
        }
    }
}

impl TrackerView {
    /// No address has two rows, and the session has a proper name.
    pub open spec fn wf(self) -> bool {
        &&& one_row_each(self.rows)
        &&& self.session_hex matches Some(h) ==> is_session_hex(h)
    }

    /// No session runs.
    pub open spec fn idle() -> TrackerView {
        TrackerView {
            session_hex: None,
            session_started: 0,
            phase: Seq::empty(),
            rows: Seq::empty(),
            clear_count: 0,
            snapshot_files: Seq::empty(),
        }
    }

    /// A session is due: none runs, and a lobby or match is on.
    pub open spec fn wants_session(self, phase: Seq<char>) -> bool {
        self.session_hex is None && gaming(phase)
    }

    /// After a session began, where one is due.
    pub open spec fn ensured(self, phase: Seq<char>, now: i64, nanos: u64) -> TrackerView {
        if self.wants_session(phase) {
            TrackerView {
                session_hex: Some(hex_text(nanos as nat, 16)),
                session_started: now,
                phase,
                rows: Seq::empty(),
                clear_count: 0,
                snapshot_files: Seq::empty(),
            }
        } else {
            self
        }
    }

    /// After a change of phase. Leaving lobby and match empties the table.
    pub open spec fn in_phase(self, phase: Seq<char>, now: i64, nanos: u64) -> TrackerView {
        let moved = TrackerView {
            phase,
            rows: if gaming(self.phase) && !gaming(phase) {
                Seq::empty()
            } else {
                self.rows
            },
            ..self
        };
        if self.wants_session(phase) {
            TrackerView {
                session_hex: Some(hex_text(nanos as nat, 16)),
                session_started: now,
                ..moved
            }
        } else {
            moved
        }
    }

    /// After the peers of a poll, in lobby or match.
    pub open spec fn with_peers(
        self,
        rules: Seq<RoleRule>,
        phase: Seq<char>,
        peers: Seq<JsonView>,
        now: i64,
        nanos: u64,
    ) -> TrackerView {
        if gaming(phase) {
            let t = self.ensured(phase, now, nanos);
            TrackerView {
                phase,
                rows: with_sightings(rules, shown_rows(t.rows, phase), phase, peers, now),
                ..t
            }
        } else {
            self
        }
    }

    /// The name of the snapshot that the next clearing of the table makes.
    pub open spec fn clear_name(self, secs: u64) -> Seq<char> {
        "clear-"@ + decimal(plus_one_u32(self.clear_count) as nat) + "-"@ + decimal(secs as nat)
            + ".json"@
    }

    /// After the table was cleared.
    pub open spec fn cleared(self, secs: u64) -> TrackerView {
        if self.session_hex is Some {
            TrackerView {
                rows: Seq::empty(),
                clear_count: plus_one_u32(self.clear_count),
                snapshot_files: self.snapshot_files.push(self.clear_name(secs)),
                ..self
            }
        } else {
            TrackerView { rows: Seq::empty(), ..self }
        }
    }

    /// After the session ended, where one ran.
    pub open spec fn ended(self) -> TrackerView {
        if self.session_hex is Some {
            TrackerView::idle()
        } else {
            self
        }
    }
}

/// The session that runs, and whether it just began.
pub struct EnsuredSession {
    /// Empty where none runs.
    pub hex: String,
    pub created: bool,
}

/// A table that was cleared and is to be kept as a snapshot.
pub struct ClearedTable {
    pub hex: String,
    pub phase: String,
    pub snapshot: String,
    pub rows: Vec<PeerRow>,
    pub clear_count: u32,
    pub message: String,
}

/// A session that ended, with its last table.
pub struct EndedSession {
    pub hex: String,
    pub phase: String,
    pub rows: Vec<PeerRow>,
}

/// What is written of a session.
pub struct SessionMeta {
    pub session_hex: String,
    pub started_at: i64,
    pub ended_at: Option<i64>,
    pub phase: String,
    pub clear_count: u32,
    pub snapshot_files: Vec<String>,
}

/// A row as it is shown.
pub struct PeerLine {
    pub row: PeerRow,
    pub fixed_size: bool,
}

pub open spec fn line_rows(v: Seq<PeerLine>) -> Seq<PeerRowView> {
    v.map_values(|l: PeerLine| l.row@)
}

/// The running session as the dashboard shows it.
pub struct TrackerReport {
    pub session_hex: Option<String>,
    pub session_started: i64,
    pub phase: String,
    pub clear_count: u32,
    pub peer_count: usize,
    pub snapshots: Vec<String>,
    /// The session whose directory holds the files.
    pub stored_as: Option<String>,
    pub peers: Vec<PeerLine>,
}

fn dup_opt(s: &Option<String>) -> (r: Option<String>)
    ensures
        opt_chars(r) == opt_chars(*s),
{
    match s {
        Some(t) => Some(t.as_str().to_owned()),
        None => None,
    }
}

fn dup_row(p: &PeerRow) -> (r: PeerRow)
    ensures
        r@ == p@,
{
    PeerRow {
        ip: p.ip.as_str().to_owned(),
        remote: p.remote.as_str().to_owned(),
        label: p.label.as_str().to_owned(),
        role: p.role.as_str().to_owned(),
        identical_count: p.identical_count,
        identical_size: p.identical_size,
        packet_size_min: p.packet_size_min,
        packet_size_max: p.packet_size_max,
        total_packets: p.total_packets,
        tiny_packets: p.tiny_packets,
        poll_hits: p.poll_hits,
        first_seen: p.first_seen,
        last_seen: p.last_seen,
        suspicious: p.suspicious,
        vps_probe: p.vps_probe,
    }
}

impl PeerTracker {
    /// A tracker without a session.
    pub fn new() -> (r: PeerTracker)
        ensures
            r@ == TrackerView::idle(),
            r@.wf(),
    {
        let t = PeerTracker {
            session_hex: None,
            session_started: 0,
            phase: String::new(),
            rows: Vec::new(),
            clear_count: 0,
            snapshot_files: Vec::new(),
        };
        assert(t@ =~= TrackerView::idle());
        t
    }

    /// Begins a session where one is due.
    pub fn ensure_session(&mut self, phase: &str, now: i64, nanos: u64) -> (r: EnsuredSession)
        requires
            old(self)@.wf(),
        ensures
            final(self)@ == old(self)@.ensured(phase@, now, nanos),
            final(self)@.wf(),
            r.created == old(self)@.wants_session(phase@),
            r.hex@ == match final(self)@.session_hex {
                Some(h) => h,
                None => Seq::empty(),
            },
    {
        if self.session_hex.is_none() && is_gaming(phase) {
            let hex = session_name(nanos);
            proof {
                session_names_are_valid(nanos);
            }
            self.session_hex = Some(hex.as_str().to_owned());
            self.session_started = now;
            self.phase = phase.to_owned();
            self.rows = Vec::new();
            self.clear_count = 0;
            self.snapshot_files = Vec::new();
            assert(self@ =~= old(self)@.ensured(phase@, now, nanos));
            EnsuredSession { hex, created: true }
        } else {
            let hex = match &self.session_hex {
                Some(h) => h.as_str().to_owned(),
                None => String::new(),
            };
            EnsuredSession { hex, created: false }
        }
    }

    /// Takes in a phase; gives the name of the session that began with it, if one did.
    pub fn set_phase(&mut self, phase: &str, now: i64, nanos: u64) -> (r: Option<String>)
        requires
            old(self)@.wf(),
        ensures
            final(self)@ == old(self)@.in_phase(phase@, now, nanos),
            final(self)@.wf(),
            opt_chars(r) == if old(self)@.wants_session(phase@) {
                Some(hex_text(nanos as nat, 16))
            } else {
                None
            },
    {
        let gaming_before = is_gaming(self.phase.as_str());
        let gaming_now = is_gaming(phase);
        self.phase = phase.to_owned();
        if gaming_before && !gaming_now {
            self.rows = Vec::new();
            assert(row_views(self.rows@) =~= Seq::empty());
        }
        if gaming_now && self.session_hex.is_none() {
            let hex = session_name(nanos);
            proof {
                session_names_are_valid(nanos);
            }
            self.session_hex = Some(hex.as_str().to_owned());
            self.session_started = now;
            Some(hex)
        } else {
            None
        }
    }

    /// Takes in the peers of a poll; gives the session that they went to.
    pub fn ingest_identical_peers(
        &mut self,
        rules: &Vec<RoleRule>,
        phase: &str,
        peers: &Vec<Json>,
        now: i64,
        nanos: u64,
    ) -> (r: Option<EnsuredSession>)
        requires
            old(self)@.wf(),
        ensures
            final(self)@ == old(self)@.with_peers(rules@, phase@, json_views(peers@), now, nanos),
            final(self)@.wf(),
            r is Some <==> gaming(phase@),
            r matches Some(e) ==> e.created == old(self)@.wants_session(phase@) && Some(e.hex@)
                == final(self)@.session_hex,
    {
        if !is_gaming(phase) {
            return None;
        }
        let session = self.ensure_session(phase, now, nanos);
        let ghost t = self@;
        let ghost all = json_views(peers@);
        self.phase = phase.to_owned();
        retain_shown(&mut self.rows, phase);
        let mut i: usize = 0;
        assert(all.take(0) =~= Seq::empty());
        while i < peers.len()
            invariant
                i <= peers.len(),
                all == json_views(peers@),
                self@ == (TrackerView {
                    phase: phase@,
                    rows: with_sightings(
                        rules@,
                        shown_rows(t.rows, phase@),
                        phase@,
                        all.take(i as int),
                        now,
                    ),
                    ..t
                }),
            decreases peers.len() - i,
        {
            proof {
                let u = all.take(i + 1);
                assert(u.drop_last() =~= all.take(i as int));
                assert(u.last() == peers@[i as int]@);
            }
            add_sighting(rules, &mut self.rows, phase, &peers[i], now);
            i += 1;
        }
        proof {
            assert(all.take(i as int) =~= all);
            lemma_shown_rows(t.rows, phase@);
            lemma_sightings_keep_rows_apart(rules@, shown_rows(t.rows, phase@), phase@, all, now);
        }
        Some(session)
    }

    /// Empties the table. Where a session runs, the table is handed out to be kept as a snapshot.
    pub fn clear_table(&mut self, secs: u64) -> (r: Option<ClearedTable>)
        requires
            old(self)@.wf(),
        ensures
            final(self)@ == old(self)@.cleared(secs),
            final(self)@.wf(),
            r is Some <==> old(self)@.session_hex is Some,
            r matches Some(c) ==> {
                &&& Some(c.hex@) == old(self)@.session_hex
                &&& c.phase@ == old(self)@.phase
                &&& c.snapshot@ == old(self)@.clear_name(secs)
                &&& row_views(c.rows@) == old(self)@.rows
                &&& c.clear_count == final(self)@.clear_count
                &&& c.message@ == "Saved "@ + decimal(old(self)@.rows.len()) + " peer(s) to snapshot, table cleared"@
            },
    {
        let mut rows: Vec<PeerRow> = Vec::new();
        rows.append(&mut self.rows);
        assert(row_views(rows@) =~= old(self)@.rows);
        assert(row_views(self.rows@) =~= Seq::empty());
        match dup_opt(&self.session_hex) {
            None => None,
            Some(hex) => {
                self.clear_count = one_more_u32(self.clear_count);
                let mut name = "clear-".to_owned();
                name.append(dec(self.clear_count as u64).as_str());
                name.append("-");
                name.append(dec(secs).as_str());
                name.append(".json");
                let ghost files = self.snapshot_files@;
                self.snapshot_files.push(name.as_str().to_owned());
                assert(views(self.snapshot_files@) =~= views(files).push(name@));
                let count = dec(rows.len() as u64);
                let message = cat3(
                    "Saved ",
                    count.as_str(),
                    " peer(s) to snapshot, table cleared",
                );
                Some(
                    ClearedTable {
                        hex,
                        phase: self.phase.as_str().to_owned(),
                        snapshot: name,
                        rows,
                        clear_count: self.clear_count,
                        message,
                    },
                )
            },
        }
    }

    /// Ends the session, where one runs, and hands out its last table.
    pub fn end_session(&mut self) -> (r: Option<EndedSession>)
        requires
            old(self)@.wf(),
        ensures
            final(self)@ == old(self)@.ended(),
            final(self)@.wf(),
            r is Some <==> old(self)@.session_hex is Some,
            r matches Some(e) ==> Some(e.hex@) == old(self)@.session_hex && e.phase@ == old(
                self,
            )@.phase && row_views(e.rows@) == old(self)@.rows,
    {
        match dup_opt(&self.session_hex) {
            None => None,
            Some(hex) => {
                let mut rows: Vec<PeerRow> = Vec::new();
                rows.append(&mut self.rows);
                assert(row_views(rows@) =~= old(self)@.rows);
                let phase = self.phase.as_str().to_owned();
                *self = PeerTracker::new();
                Some(EndedSession { hex, phase, rows })
            },
        }
    }

    /// Ends the session, where one runs, and begins another.
    pub fn start_fresh_session(&mut self, phase: &str, now: i64, nanos: u64) -> (r: (
        Option<EndedSession>,
        EnsuredSession,
    ))
        requires
            old(self)@.wf(),
        ensures
            final(self)@ == old(self)@.ended().ensured(phase@, now, nanos),
            final(self)@.wf(),
            r.0 is Some <==> old(self)@.session_hex is Some,
            r.0 matches Some(e) ==> Some(e.hex@) == old(self)@.session_hex && e.phase@ == old(
                self,
            )@.phase && row_views(e.rows@) == old(self)@.rows,
            r.1.created == gaming(phase@),
            r.1.hex@ == match final(self)@.session_hex {
                Some(h) => h,
                None => Seq::empty(),
            },
    {
        let ended = self.end_session();
        let begun = self.ensure_session(phase, now, nanos);
        (ended, begun)
    }

    /// What is written of a session; the counts are those of the tracker as it is.
    pub fn session_meta(&self, hex: &str, phase: &str, ended_at: Option<i64>) -> (r: SessionMeta)
        ensures
            r.session_hex@ == hex@,
            r.started_at == self@.session_started,
            r.ended_at == ended_at,
            r.phase@ == phase@,
            r.clear_count == self@.clear_count,
            views(r.snapshot_files@) == self@.snapshot_files,
    {
        SessionMeta {
            session_hex: hex.to_owned(),
            started_at: self.session_started,
            ended_at,
            phase: phase.to_owned(),
            clear_count: self.clear_count,
            snapshot_files: dup_texts(&self.snapshot_files),
        }
    }

    /// The rows of the table in the order of the table.
    pub fn lines(&self, phase: &str) -> (r: Vec<PeerLine>)
        ensures
            are_lines(r@, self@.rows, phase@),
    {
        rows_sorted(&self.rows, phase)
    }

    /// The running session as the dashboard shows it. Outside of lobby and match it has no table.
    pub fn to_json(&self) -> (r: TrackerReport)
        ensures
            opt_chars(r.session_hex) == if gaming(self@.phase) {
                self@.session_hex
            } else {
                None
            },
            r.session_started == self@.session_started,
            r.phase@ == self@.phase,
            r.clear_count == self@.clear_count,
            r.peer_count == if gaming(self@.phase) {
                self@.rows.len()
            } else {
                0
            },
            views(r.snapshots@) == self@.snapshot_files,
            opt_chars(r.stored_as) == self@.session_hex,
            gaming(self@.phase) ==> are_lines(r.peers@, self@.rows, self@.phase),
            !gaming(self@.phase) ==> r.peers@.len() == 0,
    {
        let on = is_gaming(self.phase.as_str());
        let session_hex = if on {
            dup_opt(&self.session_hex)
        } else {
            None
        };
        let peer_count: usize = if on {
            self.rows.len()
        } else {
            0
        };
        let peers = if on {
            rows_sorted(&self.rows, self.phase.as_str())
        } else {
            Vec::new()
        };
        TrackerReport {
            session_hex,
            session_started: self.session_started,
            phase: self.phase.as_str().to_owned(),
            clear_count: self.clear_count,
            peer_count,
            snapshots: dup_texts(&self.snapshot_files),
            stored_as: dup_opt(&self.session_hex),
            peers,
        }
    }
}

// ---------------------------------------------------------------------------------------------
// The order of the table

/// `a` stands above `b`: by the longer run, then by more packets, then by the lower address.
pub open spec fn row_above(a: PeerRowView, b: PeerRowView) -> bool {
    a.identical_count > b.identical_count || (a.identical_count == b.identical_count && (
    a.total_packets > b.total_packets || (a.total_packets == b.total_packets && text_less(
        a.ip,
        b.ip,
    ))))
}

pub open spec fn rows_ordered(rows: Seq<PeerRowView>) -> bool {
    forall|i: int, j: int|
        0 <= i < j < rows.len() ==> !row_above(#[trigger] rows[j], #[trigger] rows[i])
}

/// The lines are the rows that the phase shows, in the order of the table.
pub open spec fn are_lines(lines: Seq<PeerLine>, rows: Seq<PeerRowView>, phase: Seq<char>) -> bool {
    &&& rows_ordered(line_rows(lines))
    &&& line_rows(lines).to_multiset() == shown_rows(rows, phase).to_multiset()
    &&& forall|i: int|
        0 <= i < lines.len() ==> (#[trigger] lines[i]).fixed_size == of_one_size(lines[i].row@)
}

proof fn lemma_row_above(a: PeerRowView, b: PeerRowView, c: PeerRowView)
    requires
        row_above(a, b),
        !row_above(c, b),
    ensures
        !row_above(c, a),
{
    lemma_text_less_total(a.ip, c.ip);
    lemma_text_less_total(b.ip, c.ip);
    if text_less(a.ip, b.ip) && text_less(b.ip, c.ip) {
        lemma_text_less_trans(a.ip, b.ip, c.ip);
    }
    if text_less(c.ip, a.ip) && text_less(a.ip, b.ip) {
        lemma_text_less_trans(c.ip, a.ip, b.ip);
    }
}

fn above(a: &PeerRow, b: &PeerRow) -> (r: bool)
    ensures
        r == row_above(a@, b@),
{
    a.identical_count > b.identical_count || (a.identical_count == b.identical_count && (
    a.total_packets > b.total_packets || (a.total_packets == b.total_packets && before(
        a.ip.as_str(),
        b.ip.as_str(),
    ))))
}

fn place_line(lines: &mut Vec<PeerLine>, line: PeerLine)
    requires
        rows_ordered(line_rows(old(lines)@)),
    ensures
        rows_ordered(line_rows(final(lines)@)),
        line_rows(final(lines)@).to_multiset() == line_rows(old(lines)@).to_multiset().insert(
            line.row@,
        ),
        forall|i: int|
            0 <= i < final(lines)@.len() ==> final(lines)@[i] == line || old(lines)@.contains(
                #[trigger] final(lines)@[i],
            ),
{
    let ghost all = line_rows(lines@);
    let mut at: usize = 0;
    while at < lines.len() && !above(&line.row, &lines[at].row)
        invariant
            at <= lines.len(),
            lines@ == old(lines)@,
            forall|j: int| 0 <= j < at ==> !row_above(line.row@, (#[trigger] lines@[j]).row@),
        decreases lines.len() - at,
    {
        at += 1;
    }
    lines.insert(at, line);
    proof {
        let after = line_rows(lines@);
        assert(after =~= all.insert(at as int, line.row@));
        lemma_insert_multiset(all, at as int, line.row@);
        assert forall|i: int| 0 <= i < lines@.len() implies lines@[i] == line || old(
            lines,
        )@.contains(#[trigger] lines@[i]) by {
            if i < at {
                assert(lines@[i] == old(lines)@[i]);
            } else if i > at {
                assert(lines@[i] == old(lines)@[i - 1]);
            }
        }
        assert forall|i: int, j: int| 0 <= i < j < after.len() implies !row_above(
            #[trigger] after[j],
            #[trigger] after[i],
        ) by {
            if j == at {
                assert(after[i] == old(lines)@[i].row@);
            } else if i == at {
                assert(after[j] == all[j - 1]);
                assert(after[i] == line.row@);
                if at < j - 1 {
                    assert(!row_above(all[j - 1], all[at as int]));
                    lemma_row_above(line.row@, all[at as int], all[j - 1]);
                } else {
                    lemma_text_less_total(line.row@.ip, all[at as int].ip);
                }
            } else {
                let a = if i < at {
                    i
                } else {
                    i - 1
                };
                let b = if j < at {
                    j
                } else {
                    j - 1
                };
                assert(after[i] == all[a] && after[j] == all[b]);
            }
        }
    }
}

/// The rows that the phase shows, in the order of the table.
pub fn rows_sorted(rows: &Vec<PeerRow>, phase: &str) -> (r: Vec<PeerLine>)
    ensures
        are_lines(r@, row_views(rows@), phase@),
{
    let ghost all = row_views(rows@);
    let ghost keeps = |r: PeerRowView| shown_in_table(r.role, phase@);
    let mut out: Vec<PeerLine> = Vec::new();
    let mut i: usize = 0;
    proof {
        reveal(Seq::filter);
        assert(all.take(0).filter(keeps) =~= Seq::empty());
        assert(line_rows(out@) =~= Seq::empty());
    }
    while i < rows.len()
        invariant
            i <= rows.len(),
            all == row_views(rows@),
            keeps == (|r: PeerRowView| shown_in_table(r.role, phase@)),
            are_lines(out@, all.take(i as int), phase@),
        decreases rows.len() - i,
    {
        proof {
            let t = all.take(i + 1);
            assert(t.drop_last() =~= all.take(i as int));
            assert(t.last() == rows@[i as int]@);
            reveal(Seq::filter);
            broadcast use vstd::seq_lib::group_to_multiset_ensures;
        }
        if should_show_in_peer_table(rows[i].role.as_str(), phase) {
            let row = dup_row(&rows[i]);
            let fixed_size = row.packet_size_min > 0 && row.packet_size_min == row.packet_size_max
                && row.identical_count >= 6;
            let ghost before = out@;
            let line = PeerLine { row, fixed_size };
            place_line(&mut out, line);
            proof {
                assert forall|k: int| 0 <= k < out@.len() implies (#[trigger] out@[k]).fixed_size
                    == of_one_size(out@[k].row@) by {
                    if before.contains(out@[k]) {
                        let m = choose|m: int| 0 <= m < before.len() && before[m] == out@[k];
                        assert(before[m].fixed_size == of_one_size(before[m].row@));
                    }
                }
            }
        }
        i += 1;
    }
    assert(all.take(i as int) =~= all);
    out
}

// ---------------------------------------------------------------------------------------------
// Laws

proof fn lemma_row_at(rows: Seq<PeerRowView>, ip: Seq<char>)
    ensures
        0 <= row_at(rows, ip) <= rows.len(),
        row_at(rows, ip) < rows.len() ==> rows[row_at(rows, ip)].ip == ip,
        row_at(rows, ip) == rows.len() ==> forall|i: int|
            0 <= i < rows.len() ==> (#[trigger] rows[i]).ip != ip,
    decreases rows.len(),
{
    if rows.len() > 0 && rows[0].ip != ip {
        let t = rows.skip(1);
        lemma_row_at(t, ip);
        if row_at(t, ip) == t.len() {
            assert forall|i: int| 0 <= i < rows.len() implies (#[trigger] rows[i]).ip != ip by {
                if i > 0 {
                    assert(t[i - 1] == rows[i]);
                }
            }
        }
    }
}

proof fn lemma_shown_rows(rows: Seq<PeerRowView>, phase: Seq<char>)
    requires
        one_row_each(rows),
    ensures
        one_row_each(shown_rows(rows, phase)),
        forall|i: int|
            0 <= i < shown_rows(rows, phase).len() ==> rows.contains(
                #[trigger] shown_rows(rows, phase)[i],
            ),
    decreases rows.len(),
{
    reveal(Seq::filter);
    if rows.len() > 0 {
        let keeps = |r: PeerRowView| shown_in_table(r.role, phase);
        let init = rows.drop_last();
        lemma_shown_rows(init, phase);
        let s = shown_rows(init, phase);
        let t = shown_rows(rows, phase);
        assert(t == if keeps(rows.last()) {
            s.push(rows.last())
        } else {
            s
        });
        assert forall|i: int| 0 <= i < t.len() implies rows.contains(#[trigger] t[i]) by {
            if i < s.len() {
                assert(s[i] == t[i]);
                let k = choose|k: int| 0 <= k < init.len() && init[k] == s[i];
                assert(rows[k] == t[i]);
            } else {
                assert(rows[rows.len() - 1] == t[i]);
            }
        }
        assert forall|i: int, j: int| 0 <= i < j < t.len() implies (#[trigger] t[i]).ip != (
        #[trigger] t[j]).ip by {
            assert(s[i] == t[i]);
            if j == s.len() {
                let k = choose|k: int| 0 <= k < init.len() && init[k] == s[i];
                assert(rows[k] == t[i]);
                assert(rows[rows.len() - 1] == t[j]);
            } else {
                assert(s[j] == t[j]);
            }
        }
    }
}

proof fn lemma_sightings_keep_rows_apart(
    rules: Seq<RoleRule>,
    rows: Seq<PeerRowView>,
    phase: Seq<char>,
    peers: Seq<JsonView>,
    now: i64,
)
    requires
        one_row_each(rows),
    ensures
        one_row_each(with_sightings(rules, rows, phase, peers, now)),
    decreases peers.len(),
{
    if peers.len() > 0 {
        let s = with_sightings(rules, rows, phase, peers.drop_last(), now);
        lemma_sightings_keep_rows_apart(rules, rows, phase, peers.drop_last(), now);
        let ip = sighting(peers.last()).ip;
        lemma_row_at(s, ip);
        let t = with_sightings(rules, rows, phase, peers, now);
        let at = row_at(s, ip);
        assert forall|i: int, j: int| 0 <= i < j < t.len() implies (#[trigger] t[i]).ip != (
        #[trigger] t[j]).ip by {
            if t.len() == s.len() {
                assert(t[i].ip == s[i].ip);
                assert(t[j].ip == s[j].ip);
            } else {
                assert(t[i] == s[i]);
            }
        }
    }
}

proof fn lemma_hex_chars(n: nat, width: nat)
    ensures
        hex_text(n, width).len() == width,
        forall|i: int| 0 <= i < width ==> is_hex_char(#[trigger] hex_text(n, width)[i]),
    decreases width,
{
    if width > 0 {
        lemma_hex_chars(n / 16, (width - 1) as nat);
        let t = hex_text(n / 16, (width - 1) as nat);
        assert forall|i: int| 0 <= i < width implies is_hex_char(#[trigger] hex_text(n, width)[i]) by {
            if i < width - 1 {
                assert(hex_text(n, width)[i] == t[i]);
            }
        }
    }
}

/// The name of every session is sixteen hexadecimal digits.
pub proof fn session_names_are_valid(nanos: u64)
    ensures
        is_session_hex(hex_text(nanos as nat, 16)),
{
    lemma_hex_chars(nanos as nat, 16);
}

proof fn lemma_hex_differs(a: nat, b: nat, width: nat)
    requires
        hex_text(a, width) == hex_text(b, width),
    ensures
        a % pow16(width) == b % pow16(width),
    decreases width,
{
    if width > 0 {
        let w = (width - 1) as nat;
        assert(hex_text(a, width).drop_last() =~= hex_text(a / 16, w));
        assert(hex_text(b, width).drop_last() =~= hex_text(b / 16, w));
        assert(hex_text(a, width).last() == hex_char(a % 16));
        assert(hex_text(b, width).last() == hex_char(b % 16));
        lemma_hex_differs(a / 16, b / 16, w);
        lemma_pow16(w);
        let p = pow16(w) as int;
        vstd::arithmetic::div_mod::lemma_mod_breakdown(a as int, 16, p);
        vstd::arithmetic::div_mod::lemma_mod_breakdown(b as int, 16, p);
    } else {
        vstd::arithmetic::div_mod::lemma_mod_self_0(1);
    }
}

/// Sixteen to a power.
pub open spec fn pow16(n: nat) -> nat
    decreases n,
{
    if n == 0 {
        1
    } else {
        16 * pow16((n - 1) as nat)
    }
}

proof fn lemma_pow16(n: nat)
    ensures
        pow16(n) > 0,
    decreases n,
{
    if n > 0 {
        lemma_pow16((n - 1) as nat);
    }
}

/// Sessions that begin at different nanoseconds have different names.
pub proof fn session_names_differ(a: u64, b: u64)
    requires
        a != b,
    ensures
        hex_text(a as nat, 16) != hex_text(b as nat, 16),
{
    if hex_text(a as nat, 16) == hex_text(b as nat, 16) {
        lemma_hex_differs(a as nat, b as nat, 16);
        reveal_with_fuel(pow16, 17);
        assert(pow16(16) == 0x1_0000_0000_0000_0000);
        vstd::arithmetic::div_mod::lemma_small_mod(a as nat, pow16(16));
        vstd::arithmetic::div_mod::lemma_small_mod(b as nat, pow16(16));
    }
}

/// The server of the game or console never gets a row: what a poll adds has a role that the phase
/// shows, and no phase shows infrastructure.
pub proof fn infrastructure_gets_no_row(
    rules: Seq<RoleRule>,
    rows: Seq<PeerRowView>,
    phase: Seq<char>,
    p: JsonView,
    now: i64,
)
    requires
        infrastructure(sighting(p).role),
    ensures
        with_sighting(rules, rows, phase, p, now) == rows,
{
}

/// A table without infrastructure stays without it, whatever polls tell.
pub proof fn table_holds_no_infrastructure(
    rules: Seq<RoleRule>,
    rows: Seq<PeerRowView>,
    phase: Seq<char>,
    peers: Seq<JsonView>,
    now: i64,
)
    requires
        forall|i: int| 0 <= i < rows.len() ==> !infrastructure((#[trigger] rows[i]).role),
    ensures
        forall|i: int|
            0 <= i < with_sightings(rules, rows, phase, peers, now).len() ==> !infrastructure(
                (#[trigger] with_sightings(rules, rows, phase, peers, now)[i]).role,
            ),
    decreases peers.len(),
{
    if peers.len() > 0 {
        table_holds_no_infrastructure(rules, rows, phase, peers.drop_last(), now);
        let s = with_sightings(rules, rows, phase, peers.drop_last(), now);
        let t = with_sightings(rules, rows, phase, peers, now);
        let p = sighting(peers.last());
        lemma_row_at(s, p.ip);
        let at = row_at(s, p.ip);
        assert forall|i: int| 0 <= i < t.len() implies !infrastructure((#[trigger] t[i]).role) by {
            if i < s.len() && t[i] == s[i] {
            } else if i < s.len() {
                let old_row = s[i];
                infrastructure_stays(
                    rules,
                    p.ip,
                    p.host,
                    old_row.role,
                    probe_traffic(
                        if p.identical > old_row.identical_count {
                            p.identical
                        } else {
                            old_row.identical_count
                        },
                        plus(old_row.tiny_packets, p.tiny),
                        plus(old_row.total_packets, p.total),
                    ),
                );
            } else {
                let first = first_row(rules, p, now);
                infrastructure_stays(
                    rules,
                    p.ip,
                    p.host,
                    p.role,
                    probe_traffic(p.identical, p.tiny, p.total),
                );
                infrastructure_stays(
                    rules,
                    p.ip,
                    p.host,
                    first.role,
                    probe_traffic(p.identical, plus(0, p.tiny), plus(0, p.total)),
                );
            }
        }
    }
}

/// A poll takes nothing back: a peer keeps its row, its suspicion and its first time, and its
/// counts do not fall.
pub proof fn sightings_only_add(
    rules: Seq<RoleRule>,
    rows: Seq<PeerRowView>,
    phase: Seq<char>,
    peers: Seq<JsonView>,
    now: i64,
    i: int,
)
    requires
        0 <= i < rows.len(),
    ensures
        ({
            let after = with_sightings(rules, rows, phase, peers, now);
            &&& i < after.len()
            &&& after[i].ip == rows[i].ip
            &&& after[i].first_seen == rows[i].first_seen
            &&& after[i].total_packets >= rows[i].total_packets
            &&& after[i].tiny_packets >= rows[i].tiny_packets
            &&& after[i].identical_count >= rows[i].identical_count
            &&& after[i].poll_hits >= rows[i].poll_hits
            &&& rows[i].suspicious ==> after[i].suspicious
            &&& rows[i].vps_probe ==> after[i].vps_probe
        }),
    decreases peers.len(),
{
    if peers.len() > 0 {
        sightings_only_add(rules, rows, phase, peers.drop_last(), now, i);
        let s = with_sightings(rules, rows, phase, peers.drop_last(), now);
        lemma_row_at(s, sighting(peers.last()).ip);
    }
}

/// Once the session has ended, the next lobby or match begins with an empty table.
pub proof fn next_session_is_empty(t: TrackerView, phase: Seq<char>, now: i64, nanos: u64)
    requires
        t.session_hex is Some,
        gaming(phase),
    ensures
        t.ended().ensured(phase, now, nanos).rows.len() == 0,
        t.ended().ensured(phase, now, nanos).clear_count == 0,
        t.ended().ensured(phase, now, nanos).session_hex == Some(hex_text(nanos as nat, 16)),
{
}

/// What a sighting adds to a row: its packets and a poll; the largest number of packets of one
/// size, with their size; the widest range of sizes; and the time. Address and first time stay.
pub proof fn sightings_add_up(rules: Seq<RoleRule>, row: PeerRowView, s: SightingView, now: i64)
    requires
        row.total_packets + s.total <= u64::MAX,
        row.tiny_packets + s.tiny <= u64::MAX,
        row.poll_hits < u32::MAX,
    ensures
        ({
            let r = seen(rules, row, s, now);
            &&& r.total_packets == row.total_packets + s.total
            &&& r.tiny_packets == row.tiny_packets + s.tiny
            &&& r.poll_hits == row.poll_hits + 1
            &&& r.identical_count >= row.identical_count && r.identical_count >= s.identical
            &&& r.identical_count == row.identical_count || r.identical_count == s.identical
            &&& r.identical_count > row.identical_count ==> r.identical_size == s.size
            &&& r.identical_count == row.identical_count ==> r.identical_size == row.identical_size
            &&& r.packet_size_max >= row.packet_size_max && r.packet_size_max >= s.size_max
            &&& row.packet_size_min > 0 ==> 0 < r.packet_size_min <= row.packet_size_min
            &&& s.size_min > 0 ==> 0 < r.packet_size_min <= s.size_min
            &&& r.packet_size_min == row.packet_size_min || r.packet_size_min == s.size_min
            &&& r.packet_size_max == row.packet_size_max || r.packet_size_max == s.size_max
            &&& r.last_seen == now && r.first_seen == row.first_seen && r.ip == row.ip && r.remote
                == row.remote
        }),
{
}

/// A peer is suspicious once it was so, once a sighting calls it so, is of a probe host or of one
/// fixed size, once six of its packets had one size, and once four were tiny; and it stays so. It
/// is a probe host once a sighting says so.
pub proof fn suspicion_stays(rules: Seq<RoleRule>, row: PeerRowView, s: SightingView, now: i64)
    requires
        row.tiny_packets + s.tiny <= u64::MAX,
    ensures
        ({
            let r = seen(rules, row, s, now);
            &&& r.suspicious <==> row.suspicious || s.suspicious || s.vps_probe || s.fixed_size
                || row.identical_count >= 6 || s.identical >= 6 || row.tiny_packets + s.tiny >= 4
            &&& r.vps_probe <==> row.vps_probe || s.vps_probe
            &&& row.suspicious ==> r.suspicious
            &&& of_one_size(r) ==> r.suspicious && r.packet_size_min == r.packet_size_max
                && r.identical_count >= 6
        }),
{
}

/// A sighting of a probe host says so itself, or names the role of one with the label of a
/// provider.
pub proof fn probe_sightings_are_told(p: JsonView)
    ensures
        ({
            let role = text_or_empty(p.field("role"@));
            let label = text_or_empty(p.field("label"@));
            &&& flag_or(p.field("vps_probe"@), false) ==> sighting(p).vps_probe
            &&& !flag_or(p.field("vps_probe"@), false) ==> (sighting(p).vps_probe <==> (role
                == "vps-probe"@ || role == "game-peer"@) && (vps_label(label) || has_text(
                label,
                "VPS"@,
            )))
            &&& sighting(p).role == role
            &&& sighting(p).total == uint_or(
                or_else(p.field("total_packets"@), p.field("packets"@)),
                0,
            )
        }),
{
}

/// A sighting changes the row of its address, or adds one at the end, and no other row; one of
/// infrastructure, or without an address, changes nothing.
pub proof fn sightings_change_one_row(
    rules: Seq<RoleRule>,
    rows: Seq<PeerRowView>,
    phase: Seq<char>,
    p: JsonView,
    now: i64,
    i: int,
)
    requires
        0 <= i < rows.len(),
    ensures
        ({
            let s = sighting(p);
            let t = with_sighting(rules, rows, phase, p, now);
            let taken = shown_in_table(s.role, phase) && s.ip.len() > 0;
            let known = exists|k: int| 0 <= k < rows.len() && (#[trigger] rows[k]).ip == s.ip;
            &&& !taken ==> t == rows
            &&& rows[i].ip != s.ip ==> t[i] == rows[i]
            &&& taken && known ==> t.len() == rows.len()
            &&& taken && !known ==> t.len() == rows.len() + 1 && t.last().ip == s.ip
                && t.last().poll_hits == 1 && t.last().first_seen == now
        }),
{
    let s = sighting(p);
    lemma_row_place(rows, s.ip);
    let at = row_at(rows, s.ip);
    if at < rows.len() {
        assert(rows[at].ip == s.ip);
    }
}

proof fn lemma_row_place(rows: Seq<PeerRowView>, ip: Seq<char>)
    ensures
        0 <= row_at(rows, ip) <= rows.len(),
        row_at(rows, ip) < rows.len() ==> rows[row_at(rows, ip)].ip == ip,
        forall|k: int| 0 <= k < row_at(rows, ip) ==> (#[trigger] rows[k]).ip != ip,
    decreases rows.len(),
{
    if rows.len() > 0 && rows[0].ip != ip {
        let t = rows.skip(1);
        lemma_row_place(t, ip);
        assert forall|k: int| 0 <= k < row_at(rows, ip) implies (#[trigger] rows[k]).ip != ip by {
            if k > 0 {
                assert(t[k - 1] == rows[k]);
            }
        }
    }
}

/// A session begins with play, empty, where none is on; while one is on it stays. Peers are kept in
/// play alone, and are gone once play ends.
pub proof fn trackers_follow_play(
    t: TrackerView,
    rules: Seq<RoleRule>,
    phase: Seq<char>,
    peers: Seq<JsonView>,
    now: i64,
    nanos: u64,
)
    ensures
        ({
            let play = phase == "matchmaking"@ || phase == "in-match"@;
            let was_play = t.phase == "matchmaking"@ || t.phase == "in-match"@;
            let u = t.in_phase(phase, now, nanos);
            let v = t.with_peers(rules, phase, peers, now, nanos);
            &&& t.wants_session(phase) <==> play && t.session_hex is None
            &&& play ==> u.session_hex is Some && v.session_hex is Some
            &&& t.session_hex is Some ==> u.session_hex == t.session_hex && v.session_hex
                == t.session_hex && u.session_started == t.session_started
            &&& t.session_hex is None && play ==> u.session_started == now && v.session_started
                == now && v.clear_count == 0
            &&& t.session_hex is None && !play ==> u.session_hex is None
            &&& u.phase == phase
            &&& was_play && !play ==> u.rows.len() == 0
            &&& !was_play || play ==> u.rows == t.rows
            &&& !play ==> v == t
            &&& play ==> v.phase == phase
            &&& play && peers.len() == 0 && t.session_hex is Some ==> v.rows == shown_rows(
                t.rows,
                phase,
            )
        }),
{
}

/// Clearing leaves no row and counts up, with the name of its file, where a session is on; ending
/// leaves nothing.
pub proof fn clearing_leaves_no_rows(t: TrackerView, secs: u64)
    ensures
        t.cleared(secs).rows.len() == 0,
        t.session_hex is None ==> t.cleared(secs).clear_count == t.clear_count
            && t.cleared(secs).snapshot_files == t.snapshot_files,
        t.session_hex is Some && t.clear_count < u32::MAX ==> t.cleared(secs).clear_count
            == t.clear_count + 1,
        t.session_hex is Some ==> t.cleared(secs).snapshot_files.len() == t.snapshot_files.len()
            + 1,
        t.cleared(secs).session_hex == t.session_hex,
        t.ended().session_hex is None,
        t.session_hex is Some ==> t.ended().rows.len() == 0 && t.ended().clear_count == 0,
{
}

/// A peer with more packets of one size stands above, then one with more packets, then the lower
/// address; of two rows never both stand above the other.
pub proof fn rows_stand_in_one_order(a: PeerRowView, b: PeerRowView)
    ensures
        a.identical_count > b.identical_count ==> row_above(a, b),
        a.identical_count == b.identical_count && a.total_packets > b.total_packets ==> row_above(
            a,
            b,
        ),
        !(row_above(a, b) && row_above(b, a)),
        a.ip != b.ip ==> row_above(a, b) || row_above(b, a),
{
    lemma_text_less_total(a.ip, b.ip);
}

} // verus!
