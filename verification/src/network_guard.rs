//! Tuning of the firewall on the fly: which defenses a poll calls for, and which are on.
use vstd::prelude::*;

use crate::ai_advisor::{one_decimal, round1};
use crate::fixed::{
    divide, fmt0, keep, kept, last_of, quotient, quotients_compare, sample_deviation,
    sample_deviation_of, whole_text, within_limit, LIMIT,
};
use crate::json::{bool_or, flag_or, str_or_empty, text_or_empty, u64_or, uint_or, Json, JsonView};
use crate::learning::{one_more_u32, plus_one_u32, push_sample, pushed};
use crate::packets::{row_views, PacketAnalysis, PacketMetrics, PeerRowView};
use crate::signals::{signal_views, Signal};
use crate::snapshot::{
    gaming, is_gaming, lemma_phase_words, mbps, mbps_of, sampled, sampled_of, wan_latency,
    wan_latency_of, window, window_of,
};
use crate::text::{
    before, cat, dec, decimal, join, joined, lemma_text_less_total, lemma_text_less_trans, same,
    text_less, views,
};

verus! {

/// How tight the buffers are.
#[derive(Clone, Copy, PartialEq, Eq, Structural)]
pub enum BufferMode {
    Stable,
    Light,
    Desync,
    Kick,
}

/// How hard floods are met.
#[derive(Clone, Copy, PartialEq, Eq, Structural)]
pub enum FloodMode {
    Off,
    Shield,
    Defend,
    Harden,
}

/// The defenses as they are. Times, latencies and rates are in millionths.
pub struct NetworkGuard {
    buffer_mode: BufferMode,
    flood_mode: FloodMode,
    last_apply_at: i64,
    last_flood_at: i64,
    firewalla_tuned: bool,
    last_bytes_in: u64,
    last_packets: u64,
    kick_spikes: u32,
    /// The user stopped the defenses: nothing engages by itself until the session ends.
    defenses_disabled: bool,
    /// Nothing engages by itself before this time.
    pause_until: i64,
    moca_qos_active: bool,
    last_moca_at: i64,
    wan_history: Vec<i64>,
    upload_boost_active: bool,
    last_upload_boost_at: i64,
    last_upload_warn_at: i64,
    last_rqd_buffer_at: i64,
    rqd_profile: String,
    cached_shaped_mbps: i64,
}

#[verifier::ext_equal]
pub struct GuardView {
    pub buffer_mode: BufferMode,
    pub flood_mode: FloodMode,
    pub last_apply_at: i64,
    pub last_flood_at: i64,
    pub firewalla_tuned: bool,
    pub last_bytes_in: u64,
    pub last_packets: u64,
    pub kick_spikes: u32,
    pub defenses_disabled: bool,
    pub pause_until: i64,
    pub moca_qos_active: bool,
    pub last_moca_at: i64,
    pub wan_history: Seq<i64>,
    pub upload_boost_active: bool,
    pub last_upload_boost_at: i64,
    pub last_upload_warn_at: i64,
    pub last_rqd_buffer_at: i64,
    pub rqd_profile: Seq<char>,
    pub cached_shaped_mbps: i64,
}

/// How many latencies the guard keeps.
pub const MAX_WAN: usize = 24;

impl GuardView {
    /// The latencies are bounded in number and in size.
    pub open spec fn wf(self) -> bool {
        self.wan_history.len() <= MAX_WAN && within_limit(self.wan_history)
    }
}

impl View for NetworkGuard {
    type V = GuardView;

    closed spec fn view(&self) -> GuardView {
        GuardView {
            buffer_mode: self.buffer_mode,
            flood_mode: self.flood_mode,
            last_apply_at: self.last_apply_at,
            last_flood_at: self.last_flood_at,
            firewalla_tuned: self.firewalla_tuned,
            last_bytes_in: self.last_bytes_in,
            last_packets: self.last_packets,
            kick_spikes: self.kick_spikes,
            defenses_disabled: self.defenses_disabled,
            pause_until: self.pause_until,
            moca_qos_active: self.moca_qos_active,
            last_moca_at: self.last_moca_at,
            wan_history: self.wan_history@,
            upload_boost_active: self.upload_boost_active,
            last_upload_boost_at: self.last_upload_boost_at,
            last_upload_warn_at: self.last_upload_warn_at,
            last_rqd_buffer_at: self.last_rqd_buffer_at,
            rqd_profile: self.rqd_profile@,
            cached_shaped_mbps: self.cached_shaped_mbps,
        }
    }
}

// ---------------------------------------------------------------------------------------------
// What a session calls for

/// What the guard goes by.
pub struct GuardRisk {
    pub phase: String,
    pub label: String,
    pub signals: Vec<Signal>,
    /// Addresses of probe hosts, in order, each once.
    pub suspicious: Vec<String>,
    /// The lobby has a bad reputation.
    pub reputation_gate: bool,
    /// The game reported a kick.
    pub game_kick: bool,
}

pub open spec fn strong(s: Seq<(Seq<char>, int)>, names: Seq<Seq<char>>, floor: int) -> bool {
    exists|i: int|
        0 <= i < s.len() && names.contains((#[trigger] s[i]).0) && s[i].1 >= floor
}

/// The signals that tell of an attack by peers.
pub open spec fn peer_attack_names() -> Seq<Seq<char>> {
    seq!["peer_tiny_flood"@, "peer_micro_burst"@, "suspicious_peer"@]
}

/// The signals that tell of traffic that is not the game's.
pub open spec fn unknown_names() -> Seq<Seq<char>> {
    seq!["unknown_inbound"@, "unknown_inbound_fanout"@, "unknown_inbound_packets"@]
}

/// The signals that tell of an attack.
pub open spec fn attack_names() -> Seq<Seq<char>> {
    seq![
        "inbound_flood"@,
        "inbound_attack"@,
        "packet_storm"@,
        "tiny_packet_flood"@,
        "packet_cheat"@,
        "inbound_elevated"@,
        "unknown_inbound"@,
        "unknown_inbound_fanout"@,
        "unknown_inbound_packets"@,
        "peer_tiny_flood"@,
        "peer_micro_burst"@,
        "suspicious_peer"@,
    ]
}

pub open spec fn peer_attack(s: Seq<(Seq<char>, int)>) -> bool {
    strong(s, peer_attack_names(), 250_000)
}

pub open spec fn attack(s: Seq<(Seq<char>, int)>) -> bool {
    strong(s, attack_names(), 350_000)
}

/// Unknown senders by a signal, or by the counts of the capture.
pub open spec fn non_game_traffic(s: Seq<(Seq<char>, int)>, snapshot: JsonView) -> bool {
    let m = snapshot.field_in("packetCapture"@, "metrics"@);
    let unknown = match m {
        Some(v) => uint_or(v.field("unknown_inbound_packets"@), 0),
        None => 0,
    };
    let game = match m {
        Some(v) => uint_or(v.field("game_inbound_packets"@), 0),
        None => 0,
    };
    strong(s, unknown_names(), 350_000) || (unknown >= 10 && unknown > game)
}

fn is_strong(signals: &Vec<Signal>, names: &Vec<String>, floor: i64) -> (r: bool)
    ensures
        r == strong(signal_views(signals@), views(names@), floor as int),
{
    let ghost s = signal_views(signals@);
    let mut i: usize = 0;
    while i < signals.len()
        invariant
            i <= signals.len(),
            s == signal_views(signals@),
            forall|k: int|
                0 <= k < i ==> !(views(names@).contains((#[trigger] s[k]).0) && s[k].1 >= floor),
        decreases signals.len() - i,
    {
        assert(s[i as int] == (signals@[i as int].name@, signals@[i as int].strength as int));
        if signals[i].strength >= floor {
            match crate::text::position(names, signals[i].name.as_str()) {
                Some(k) => {
                    assert(views(names@)[k as int] == signals@[i as int].name@);
                    return true;
                },
                None => {},
            }
        }
        i += 1;
    }
    false
}

fn three(a: &str, b: &str, c: &str) -> (r: Vec<String>)
    ensures
        views(r@) == seq![a@, b@, c@],
{
    let mut v: Vec<String> = Vec::new();
    v.push(a.to_owned());
    v.push(b.to_owned());
    v.push(c.to_owned());
    assert(views(v@) =~= seq![a@, b@, c@]);
    v
}

/// Whether signals tell of an attack by peers.
pub fn has_peer_attack_signal(signals: &Vec<Signal>) -> (r: bool)
    ensures
        r == peer_attack(signal_views(signals@)),
{
    let names = three("peer_tiny_flood", "peer_micro_burst", "suspicious_peer");
    is_strong(signals, &names, 250_000)
}

/// Whether signals tell of an attack.
pub fn has_attack_signal(signals: &Vec<Signal>) -> (r: bool)
    ensures
        r == attack(signal_views(signals@)),
{
    let mut v = three("inbound_flood", "inbound_attack", "packet_storm");
    let mut b = three("tiny_packet_flood", "packet_cheat", "inbound_elevated");
    let mut c = three("unknown_inbound", "unknown_inbound_fanout", "unknown_inbound_packets");
    let mut d = three("peer_tiny_flood", "peer_micro_burst", "suspicious_peer");
    let ghost all = views(v@) + views(b@) + views(c@) + views(d@);
    v.append(&mut b);
    v.append(&mut c);
    v.append(&mut d);
    assert(views(v@) =~= all);
    assert(all =~= attack_names());
    is_strong(signals, &v, 350_000)
}

/// Whether traffic is seen that is not the game's.
pub fn has_non_game_traffic(signals: &Vec<Signal>, snapshot: &Json) -> (r: bool)
    ensures
        r == non_game_traffic(signal_views(signals@), snapshot@),
{
    let names = three("unknown_inbound", "unknown_inbound_fanout", "unknown_inbound_packets");
    if is_strong(signals, &names, 350_000) {
        return true;
    }
    match snapshot.get_in("packetCapture", "metrics") {
        Some(m) => {
            let unknown: u64 = u64_or(m.get("unknown_inbound_packets"), 0);
            let game: u64 = u64_or(m.get("game_inbound_packets"), 0);
            unknown >= 10 && unknown > game
        },
        None => false,
    }
}

pub open spec fn bad_verdict(label: Seq<char>) -> bool {
    label == "LIKELY"@ || label == "USER_BAD"@ || label == "POSSIBLE"@
}

/// The queue is always shielded; outside of lobby and match nothing is, and a match has a rule of
/// its own.
pub open spec fn flood_target(phase: Seq<char>) -> FloodMode {
    if phase == "matchmaking"@ {
        FloodMode::Shield
    } else {
        FloodMode::Off
    }
}

/// The defense against floods outside a match.
pub fn target_flood_mode(phase: &str) -> (r: FloodMode)
    ensures
        r == flood_target(phase@),
{
    if same(phase, "matchmaking") {
        FloodMode::Shield
    } else {
        FloodMode::Off
    }
}

/// The defense against floods in a match: only the game's and allowed traffic reaches the
/// console, whatever the signals.
pub fn target_in_match_shield() -> (r: FloodMode)
    ensures
        r == FloodMode::Shield,
{
    FloodMode::Shield
}

/// Outside of lobby and match buffers are tightened on a spike or a bad verdict.
pub open spec fn idle_buffer(label: Seq<char>, kick_spike: bool) -> BufferMode {
    if kick_spike || bad_verdict(label) {
        BufferMode::Light
    } else {
        BufferMode::Stable
    }
}

/// The buffers outside of lobby and match.
pub fn target_buffer_mode(label: &str, kick_spike: bool) -> (r: BufferMode)
    ensures
        r == idle_buffer(label@, kick_spike),
{
    if kick_spike {
        return BufferMode::Light;
    }
    if same(label, "LIKELY") || same(label, "USER_BAD") || same(label, "POSSIBLE") {
        return BufferMode::Light;
    }
    BufferMode::Stable
}

/// Whether floods would be met in this phase.
pub fn should_engage_flood(phase: &str) -> (r: bool)
    ensures
        r == (phase@ == "matchmaking"@),
{
    target_flood_mode(phase) != FloodMode::Off
}

/// Whether buffers would be tightened for this verdict.
pub fn should_engage_desync(label: &str) -> (r: bool)
    ensures
        r == bad_verdict(label@),
{
    target_buffer_mode(label, false) != BufferMode::Stable
}

/// The jitter of the line: the deviation of the last eight latencies, once there are four.
pub open spec fn line_jitter(wan: Seq<i64>) -> int {
    if wan.len() < 4 {
        0
    } else {
        sample_deviation(last_of(wan, 8))
    }
}

/// In lobby and match buffers are always tight: tightest in a match, on a spike, and on a line
/// that swings.
pub open spec fn gaming_buffer(phase: Seq<char>, kick_spike: bool, wan: Seq<i64>) -> BufferMode {
    if !gaming(phase) {
        BufferMode::Stable
    } else if kick_spike || phase == "in-match"@ || line_jitter(wan) >= 15_000_000 {
        BufferMode::Kick
    } else {
        BufferMode::Desync
    }
}

/// How strict the shield is.
pub open spec fn shield_word(
    phase: Seq<char>,
    gate: bool,
    signals: Seq<(Seq<char>, int)>,
    suspicious: nat,
    snapshot: JsonView,
    kick_spike: bool,
) -> Seq<char> {
    if gate && phase == "matchmaking"@ {
        "peer-strict"@
    } else if phase == "in-match"@ {
        "in-match"@
    } else if peer_attack(signals) && suspicious > 0 {
        "peer-strict"@
    } else if phase == "matchmaking"@ {
        "console"@
    } else if kick_spike || non_game_traffic(signals, snapshot) {
        "strict"@
    } else {
        "normal"@
    }
}

/// How strict the shield is.
pub fn shield_level(risk: &GuardRisk, snapshot: &Json, kick_spike: bool) -> (r: &'static str)
    ensures
        r@ == shield_word(
            risk.phase@,
            risk.reputation_gate,
            signal_views(risk.signals@),
            risk.suspicious@.len(),
            snapshot@,
            kick_spike,
        ),
{
    let phase = risk.phase.as_str();
    if risk.reputation_gate && same(phase, "matchmaking") {
        return "peer-strict";
    }
    if same(phase, "in-match") {
        return "in-match";
    }
    if has_peer_attack_signal(&risk.signals) && risk.suspicious.len() > 0 {
        return "peer-strict";
    }
    if same(phase, "matchmaking") {
        return "console";
    }
    if kick_spike || has_non_game_traffic(&risk.signals, snapshot) {
        return "strict";
    }
    "normal"
}

// ---------------------------------------------------------------------------------------------
// Probe hosts

pub open spec fn strictly_ordered(v: Seq<Seq<char>>) -> bool {
    forall|i: int, j: int| 0 <= i < j < v.len() ==> text_less(#[trigger] v[i], #[trigger] v[j])
}

/// The address of a probe host among the rows.
pub open spec fn is_probe_ip(rows: Seq<PeerRowView>, ip: Seq<char>) -> bool {
    exists|i: int| 0 <= i < rows.len() && (#[trigger] rows[i]).vps_probe && rows[i].ip == ip
}

/// Puts an address in its place, where it is not there yet.
fn place_ip(list: &mut Vec<String>, ip: &str)
    requires
        strictly_ordered(views(old(list)@)),
    ensures
        strictly_ordered(views(final(list)@)),
        forall|x: Seq<char>|
            views(final(list)@).contains(x) <==> views(old(list)@).contains(x) || x == ip@,
{
    let ghost s = views(list@);
    let mut at: usize = 0;
    while at < list.len() && before(list[at].as_str(), ip)
        invariant
            at <= list.len(),
            list@ == old(list)@,
            s == views(list@),
            forall|j: int| 0 <= j < at ==> text_less(#[trigger] s[j], ip@),
        decreases list.len() - at,
    {
        assert(s[at as int] == list@[at as int]@);
        at += 1;
    }
    if at < list.len() && same(list[at].as_str(), ip) {
        proof {
            assert(s[at as int] == ip@);
        }
        return ;
    }
    list.insert(at, ip.to_owned());
    proof {
        let t = views(list@);
        assert(t =~= s.insert(at as int, ip@));
        if at < s.len() {
            assert(s[at as int] == old(list)@[at as int]@);
            lemma_text_less_total(ip@, s[at as int]);
        }
        assert forall|i: int, j: int| 0 <= i < j < t.len() implies text_less(
            #[trigger] t[i],
            #[trigger] t[j],
        ) by {
            if i < at && j == at {
                assert(t[i] == s[i]);
            } else if i == at {
                assert(t[j] == s[j - 1]);
                if j - 1 > at {
                    lemma_text_less_trans(ip@, s[at as int], s[j - 1]);
                }
            } else {
                let a = if i < at {
                    i
                } else {
                    i - 1
                };
                let b = if j < at {
                    j
                } else {
                    j - 1
                };
                assert(t[i] == s[a] && t[j] == s[b]);
            }
        }
        assert forall|x: Seq<char>| t.contains(x) <==> s.contains(x) || x == ip@ by {
            if s.contains(x) {
                let k = choose|k: int| 0 <= k < s.len() && s[k] == x;
                if k < at {
                    assert(t[k] == x);
                } else {
                    assert(t[k + 1] == x);
                }
            }
            if t.contains(x) {
                let k = choose|k: int| 0 <= k < t.len() && t[k] == x;
                if k < at {
                    assert(s[k] == x);
                } else if k > at {
                    assert(s[k - 1] == x);
                }
            }
            if x == ip@ {
                assert(t[at as int] == x);
            }
        }
    }
}

/// The rows that an analysis of packets holds.
pub open spec fn rows_in(a: PacketAnalysis) -> Seq<PeerRowView> {
    match a.metrics {
        PacketMetrics::Capture { peers, .. } => row_views(peers@),
        _ => Seq::empty(),
    }
}

/// The addresses of the probe hosts that an analysis found, in order, each once.
pub fn suspicious_peer_ips(a: &PacketAnalysis) -> (r: Vec<String>)
    ensures
        strictly_ordered(views(r@)),
        forall|ip: Seq<char>| views(r@).contains(ip) <==> is_probe_ip(rows_in(*a), ip),
{
    let mut out: Vec<String> = Vec::new();
    let ghost rows = rows_in(*a);
    assert(views(out@) =~= Seq::empty());
    match &a.metrics {
        PacketMetrics::Capture { peers, .. } => {
            let mut i: usize = 0;
            while i < peers.len()
                invariant
                    i <= peers.len(),
                    rows == row_views(peers@),
                    strictly_ordered(views(out@)),
                    forall|ip: Seq<char>|
                        views(out@).contains(ip) <==> is_probe_ip(rows.take(i as int), ip),
                decreases peers.len() - i,
            {
                let ghost old_out = views(out@);
                let ghost t = rows.take(i as int);
                let ghost u = rows.take(i + 1);
                assert(u[i as int] == peers@[i as int]@);
                if peers[i].vps_probe {
                    place_ip(&mut out, peers[i].ip.as_str());
                }
                proof {
                    assert forall|ip: Seq<char>|
                        views(out@).contains(ip) <==> is_probe_ip(u, ip) by {
                        if is_probe_ip(t, ip) {
                            let k = choose|k: int|
                                0 <= k < t.len() && (#[trigger] t[k]).vps_probe && t[k].ip == ip;
                            assert(u[k] == t[k]);
                        }
                        if is_probe_ip(u, ip) {
                            let k = choose|k: int|
                                0 <= k < u.len() && (#[trigger] u[k]).vps_probe && u[k].ip == ip;
                            if k < i {
                                assert(t[k] == u[k]);
                            }
                        }
                    }
                }
                i += 1;
            }
            assert(rows.take(i as int) =~= rows);
        },
        _ => {},
    }
    out
}

// ---------------------------------------------------------------------------------------------
// A poll

/// What a poll calls for, and what was on when it began.
#[derive(Clone, Copy)]
pub struct GuardPoll {
    pub now: i64,
    pub kick_spike: bool,
    pub paused: bool,
    pub gaming: bool,
    pub in_match: bool,
    pub target_buffer: BufferMode,
    pub target_flood: FloodMode,
    pub buffer: BufferMode,
    pub flood: FloodMode,
}

/// Bytes in a window make more than a number of megabits in a second.
pub open spec fn faster(bytes: u64, window: int, megabits: int) -> bool {
    bytes * 8_000_000 > (megabits * 1_000_000) * window
}

fn is_faster(bytes: u64, window: i64, megabits: i64) -> (r: bool)
    requires
        0 <= window <= LIMIT,
        0 <= megabits <= 1000,
    ensures
        r == faster(bytes, window as int, megabits as int),
{
    let least: i128 = megabits as i128 * 1_000_000;
    assert(0 <= least * window <= 1_000_000_000 * LIMIT) by (nonlinear_arith)
        requires
            0 <= least <= 1_000_000_000,
            0 <= window <= LIMIT,
    ;
    bytes as i128 * 8_000_000 > least * window as i128
}

/// A sudden jump of the inbound rate, or a rate that is too high by itself.
pub open spec fn spike(prev_bytes: u64, prev_packets: u64, snapshot: JsonView) -> bool {
    let bytes = sampled(snapshot, "bytesIn"@);
    let packets = sampled(snapshot, "packets"@);
    let w = window(snapshot);
    ||| bytes > 0 && prev_bytes > 0 && bytes > prev_bytes * 5 && faster(bytes, w, 30)
    ||| faster(bytes, w, 85)
    ||| packets > 900 && faster(bytes, w, 20)
    ||| packets > 0 && prev_packets > 150 && packets > prev_packets * 4 && faster(bytes, w, 15)
}

impl GuardView {
    /// After the latency of a snapshot.
    pub open spec fn with_latency(self, snapshot: JsonView) -> GuardView {
        GuardView {
            wan_history: match wan_latency(snapshot) {
                Some(n) => pushed(self.wan_history, n as i64, MAX_WAN as nat),
                None => self.wan_history,
            },
            ..self
        }
    }

    /// After the counts of a snapshot, with whether they are a spike. Where the game reported a
    /// kick already, the counts are not looked at.
    pub open spec fn with_counts(self, snapshot: JsonView, game_kick: bool) -> GuardView {
        if game_kick {
            self
        } else {
            GuardView {
                last_bytes_in: sampled(snapshot, "bytesIn"@),
                last_packets: sampled(snapshot, "packets"@),
                kick_spikes: if spike(self.last_bytes_in, self.last_packets, snapshot) {
                    plus_one_u32(self.kick_spikes)
                } else {
                    self.kick_spikes
                },
                ..self
            }
        }
    }

    /// The user stopped the defenses, or their pause is not over.
    pub open spec fn is_paused(self, now: i64) -> bool {
        now < self.pause_until || self.defenses_disabled
    }

    /// The poll that a snapshot and a risk make.
    pub open spec fn poll(
        self,
        phase: Seq<char>,
        label: Seq<char>,
        game_kick: bool,
        snapshot: JsonView,
        now: i64,
    ) -> GuardPoll {
        let kick = game_kick || spike(self.last_bytes_in, self.last_packets, snapshot);
        let wan = self.with_latency(snapshot).wan_history;
        let paused = self.is_paused(now);
        let in_match = phase == "in-match"@;
        GuardPoll {
            now,
            kick_spike: kick,
            paused,
            gaming: gaming(phase),
            in_match,
            target_buffer: if paused {
                BufferMode::Stable
            } else if gaming(phase) {
                gaming_buffer(phase, kick, wan)
            } else {
                idle_buffer(label, kick)
            },
            target_flood: if paused {
                FloodMode::Off
            } else if in_match {
                FloodMode::Shield
            } else {
                flood_target(phase)
            },
            buffer: self.buffer_mode,
            flood: self.flood_mode,
        }
    }
}

/// What to do about the buffers.
#[derive(Clone, Copy, PartialEq, Eq, Structural)]
pub enum BufferAction {
    Keep,
    Apply(BufferMode),
    /// Back to the stable profile, with the priority of the game's ports taken back, and the
    /// upload boost too where it is on.
    Restore { relax_upload: bool },
}

/// What to do about floods.
#[derive(Clone, Copy, PartialEq, Eq, Structural)]
pub enum FloodAction {
    Keep,
    Apply(FloodMode),
    Relax,
}

/// What to do about a defense that is on or off.
#[derive(Clone, Copy, PartialEq, Eq, Structural)]
pub enum SwitchAction {
    Keep,
    Apply,
    Relax,
}

/// An action is due: the mode is not the wanted one, was set more than 90 seconds ago, or a spike
/// came.
pub open spec fn due(changed: bool, now: i64, last: i64, kick_spike: bool) -> bool {
    changed || now - last > 90_000_000 || kick_spike
}

fn is_due(changed: bool, now: i64, last: i64, kick_spike: bool) -> (r: bool)
    ensures
        r == due(changed, now, last, kick_spike),
{
    changed || now as i128 - last as i128 > 90_000_000 || kick_spike
}

impl GuardView {
    pub open spec fn buffer_action(self, p: GuardPoll) -> BufferAction {
        if (p.gaming && !p.paused) || p.target_buffer != BufferMode::Stable {
            if due(p.buffer != p.target_buffer, p.now, self.last_apply_at, p.kick_spike) {
                BufferAction::Apply(p.target_buffer)
            } else {
                BufferAction::Keep
            }
        } else if p.buffer != BufferMode::Stable {
            BufferAction::Restore { relax_upload: self.upload_boost_active }
        } else {
            BufferAction::Keep
        }
    }

    /// After an action on the buffers that worked or failed.
    pub open spec fn buffer_done(self, p: GuardPoll, a: BufferAction, ok: bool) -> GuardView {
        match a {
            BufferAction::Keep => self,
            BufferAction::Apply(m) => if ok {
                GuardView {
                    buffer_mode: m,
                    last_apply_at: p.now,
                    firewalla_tuned: self.firewalla_tuned || m == BufferMode::Desync || m
                        == BufferMode::Kick,
                    ..self
                }
            } else {
                self
            },
            BufferAction::Restore { .. } => {
                let s = GuardView { moca_qos_active: false, upload_boost_active: false, ..self };
                if ok {
                    GuardView { buffer_mode: BufferMode::Stable, last_apply_at: p.now, ..s }
                } else {
                    s
                }
            },
        }
    }

    pub open spec fn flood_action(self, p: GuardPoll) -> FloodAction {
        if p.target_flood != FloodMode::Off {
            if due(p.flood != p.target_flood, p.now, self.last_flood_at, p.kick_spike) {
                FloodAction::Apply(p.target_flood)
            } else {
                FloodAction::Keep
            }
        } else if p.flood != FloodMode::Off {
            FloodAction::Relax
        } else {
            FloodAction::Keep
        }
    }

    pub open spec fn flood_done(self, p: GuardPoll, a: FloodAction, ok: bool) -> GuardView {
        match a {
            FloodAction::Apply(m) => if ok {
                GuardView { flood_mode: m, last_flood_at: p.now, ..self }
            } else {
                self
            },
            FloodAction::Relax => if ok {
                GuardView { flood_mode: FloodMode::Off, last_flood_at: p.now, ..self }
            } else {
                self
            },
            FloodAction::Keep => self,
        }
    }

    pub open spec fn moca_action(self, p: GuardPoll) -> SwitchAction {
        if p.gaming && !p.paused {
            if due(!self.moca_qos_active, p.now, self.last_moca_at, false) {
                SwitchAction::Apply
            } else {
                SwitchAction::Keep
            }
        } else if self.moca_qos_active {
            SwitchAction::Relax
        } else {
            SwitchAction::Keep
        }
    }

    pub open spec fn moca_done(self, p: GuardPoll, a: SwitchAction, ok: bool) -> GuardView {
        if a != SwitchAction::Keep && ok {
            GuardView {
                moca_qos_active: a == SwitchAction::Apply,
                last_moca_at: p.now,
                ..self
            }
        } else {
            self
        }
    }

    pub open spec fn upload_action(self, p: GuardPoll) -> SwitchAction {
        if p.gaming && !p.paused {
            if due(!self.upload_boost_active, p.now, self.last_upload_boost_at, false) {
                SwitchAction::Apply
            } else {
                SwitchAction::Keep
            }
        } else if self.upload_boost_active {
            SwitchAction::Relax
        } else {
            SwitchAction::Keep
        }
    }

    /// After an action on the upload boost; where it was applied, with the ceiling that the
    /// firewall states.
    pub open spec fn upload_done(
        self,
        p: GuardPoll,
        a: SwitchAction,
        ok: bool,
        shaped: Option<i64>,
    ) -> GuardView {
        if a != SwitchAction::Keep && ok {
            GuardView {
                upload_boost_active: a == SwitchAction::Apply,
                last_upload_boost_at: p.now,
                cached_shaped_mbps: if a == SwitchAction::Apply && shaped is Some {
                    shaped->0
                } else {
                    self.cached_shaped_mbps
                },
                ..self
            }
        } else {
            self
        }
    }
}

impl NetworkGuard {
    /// A guard with nothing on. The upload ceiling starts at 950 Mbps.
    pub fn new() -> (r: NetworkGuard)
        ensures
            r@ == (GuardView {
                buffer_mode: BufferMode::Stable,
                flood_mode: FloodMode::Off,
                last_apply_at: 0,
                last_flood_at: 0,
                firewalla_tuned: false,
                last_bytes_in: 0,
                last_packets: 0,
                kick_spikes: 0,
                defenses_disabled: false,
                pause_until: 0,
                moca_qos_active: false,
                last_moca_at: 0,
                wan_history: Seq::empty(),
                upload_boost_active: false,
                last_upload_boost_at: 0,
                last_upload_warn_at: 0,
                last_rqd_buffer_at: 0,
                rqd_profile: Seq::empty(),
                cached_shaped_mbps: 950_000_000,
            }),
            r@.wf(),
    {
        NetworkGuard {
            buffer_mode: BufferMode::Stable,
            flood_mode: FloodMode::Off,
            last_apply_at: 0,
            last_flood_at: 0,
            firewalla_tuned: false,
            last_bytes_in: 0,
            last_packets: 0,
            kick_spikes: 0,
            defenses_disabled: false,
            pause_until: 0,
            moca_qos_active: false,
            last_moca_at: 0,
            wan_history: Vec::new(),
            upload_boost_active: false,
            last_upload_boost_at: 0,
            last_upload_warn_at: 0,
            last_rqd_buffer_at: 0,
            rqd_profile: String::new(),
            cached_shaped_mbps: 950_000_000,
        }
    }

    /// The jitter of the line.
    pub fn wan_jitter_ms(&self) -> (r: i64)
        requires
            self@.wf(),
        ensures
            r == line_jitter(self@.wan_history),
            0 <= r <= 2 * LIMIT + 1,
    {
        if self.wan_history.len() < 4 {
            return 0;
        }
        sample_deviation_of(&self.wan_history, 8)
    }

    fn detect_kick_spike(&mut self, snapshot: &Json) -> (r: bool)
        ensures
            r == spike(old(self)@.last_bytes_in, old(self)@.last_packets, snapshot@),
            final(self)@ == old(self)@.with_counts(snapshot@, false),
    {
        let bytes: u64 = sampled_of(snapshot, "bytesIn");
        let packets: u64 = sampled_of(snapshot, "packets");
        let w: i64 = window_of(snapshot);
        let prev_bytes: u64 = self.last_bytes_in;
        let prev_packets: u64 = self.last_packets;
        self.last_bytes_in = bytes;
        self.last_packets = packets;
        let hit = (bytes > 0 && prev_bytes > 0 && bytes as u128 > prev_bytes as u128 * 5
            && is_faster(bytes, w, 30)) || is_faster(bytes, w, 85) || (packets > 900 && is_faster(
            bytes,
            w,
            20,
        )) || (packets > 0 && prev_packets > 150 && packets as u128 > prev_packets as u128 * 4
            && is_faster(bytes, w, 15));
        if hit {
            self.kick_spikes = one_more_u32(self.kick_spikes);
        }
        hit
    }

    fn target_gaming_buffer(&self, phase: &str, kick_spike: bool) -> (r: BufferMode)
        requires
            self@.wf(),
        ensures
            r == gaming_buffer(phase@, kick_spike, self@.wan_history),
    {
        if !is_gaming(phase) {
            return BufferMode::Stable;
        }
        if kick_spike || same(phase, "in-match") {
            return BufferMode::Kick;
        }
        if self.wan_jitter_ms() >= 15_000_000 {
            return BufferMode::Kick;
        }
        BufferMode::Desync
    }

    /// Begins a poll: takes in the snapshot and settles what is called for. The actions follow in
    /// the order buffer, flood, priority, upload, each asked for and reported on.
    pub fn evaluate(&mut self, risk: &GuardRisk, snapshot: &Json, now: i64) -> (r: GuardPoll)
        requires
            old(self)@.wf(),
        ensures
            r == old(self)@.poll(risk.phase@, risk.label@, risk.game_kick, snapshot@, now),
            final(self)@ == old(self)@.with_latency(snapshot@).with_counts(
                snapshot@,
                risk.game_kick,
            ),
            final(self)@.wf(),
    {
        if let Some(n) = wan_latency_of(snapshot) {
            push_sample(&mut self.wan_history, n, MAX_WAN);
        }
        assert(self@ == old(self)@.with_latency(snapshot@));
        let kick_spike = if risk.game_kick {
            true
        } else {
            self.detect_kick_spike(snapshot)
        };
        let phase = risk.phase.as_str();
        let paused = now < self.pause_until || self.defenses_disabled;
        let in_match = same(phase, "in-match");
        let gaming = is_gaming(phase);
        let target_buffer = if paused {
            BufferMode::Stable
        } else if gaming {
            self.target_gaming_buffer(phase, kick_spike)
        } else {
            target_buffer_mode(risk.label.as_str(), kick_spike)
        };
        let target_flood = if paused {
            FloodMode::Off
        } else if in_match {
            target_in_match_shield()
        } else {
            target_flood_mode(phase)
        };
        GuardPoll {
            now,
            kick_spike,
            paused,
            gaming,
            in_match,
            target_buffer,
            target_flood,
            buffer: self.buffer_mode,
            flood: self.flood_mode,
        }
    }

    /// What to do about the buffers.
    pub fn buffer_action(&self, p: &GuardPoll) -> (r: BufferAction)
        ensures
            r == self@.buffer_action(*p),
    {
        if (p.gaming && !p.paused) || p.target_buffer != BufferMode::Stable {
            if is_due(p.buffer != p.target_buffer, p.now, self.last_apply_at, p.kick_spike) {
                BufferAction::Apply(p.target_buffer)
            } else {
                BufferAction::Keep
            }
        } else if p.buffer != BufferMode::Stable {
            BufferAction::Restore { relax_upload: self.upload_boost_active }
        } else {
            BufferAction::Keep
        }
    }

    /// Takes in how the action on the buffers went; tells whether the firewall itself is to be
    /// tuned, which happens once.
    pub fn buffer_done(&mut self, p: &GuardPoll, a: BufferAction, ok: bool) -> (r: bool)
        requires
            old(self)@.wf(),
        ensures
            final(self)@ == old(self)@.buffer_done(*p, a, ok),
            final(self)@.wf(),
            r == (!old(self)@.firewalla_tuned && final(self)@.firewalla_tuned),
    {
        match a {
            BufferAction::Keep => false,
            BufferAction::Apply(m) => {
                if !ok {
                    return false;
                }
                let tune = (m == BufferMode::Desync || m == BufferMode::Kick)
                    && !self.firewalla_tuned;
                if tune {
                    self.firewalla_tuned = true;
                }
                self.buffer_mode = m;
                self.last_apply_at = p.now;
                tune
            },
            BufferAction::Restore { .. } => {
                self.moca_qos_active = false;
                self.upload_boost_active = false;
                if ok {
                    self.buffer_mode = BufferMode::Stable;
                    self.last_apply_at = p.now;
                }
                false
            },
        }
    }

    /// What to do about floods.
    pub fn flood_action(&self, p: &GuardPoll) -> (r: FloodAction)
        ensures
            r == self@.flood_action(*p),
    {
        if p.target_flood != FloodMode::Off {
            if is_due(p.flood != p.target_flood, p.now, self.last_flood_at, p.kick_spike) {
                FloodAction::Apply(p.target_flood)
            } else {
                FloodAction::Keep
            }
        } else if p.flood != FloodMode::Off {
            FloodAction::Relax
        } else {
            FloodAction::Keep
        }
    }

    /// Takes in how the action on floods went.
    pub fn flood_done(&mut self, p: &GuardPoll, a: FloodAction, ok: bool)
        requires
            old(self)@.wf(),
        ensures
            final(self)@ == old(self)@.flood_done(*p, a, ok),
            final(self)@.wf(),
    {
        if !ok {
            return ;
        }
        match a {
            FloodAction::Keep => {},
            FloodAction::Apply(m) => {
                self.flood_mode = m;
                self.last_flood_at = p.now;
            },
            FloodAction::Relax => {
                self.flood_mode = FloodMode::Off;
                self.last_flood_at = p.now;
            },
        }
    }

    /// What to do about the priority of the game's ports.
    pub fn moca_action(&self, p: &GuardPoll) -> (r: SwitchAction)
        ensures
            r == self@.moca_action(*p),
    {
        if p.gaming && !p.paused {
            if is_due(!self.moca_qos_active, p.now, self.last_moca_at, false) {
                SwitchAction::Apply
            } else {
                SwitchAction::Keep
            }
        } else if self.moca_qos_active {
            SwitchAction::Relax
        } else {
            SwitchAction::Keep
        }
    }

    /// Takes in how the action on the priority went.
    pub fn moca_done(&mut self, p: &GuardPoll, a: SwitchAction, ok: bool)
        requires
            old(self)@.wf(),
        ensures
            final(self)@ == old(self)@.moca_done(*p, a, ok),
            final(self)@.wf(),
    {
        if a != SwitchAction::Keep && ok {
            self.moca_qos_active = a == SwitchAction::Apply;
            self.last_moca_at = p.now;
        }
    }

    /// What to do about the upload boost.
    pub fn upload_action(&self, p: &GuardPoll) -> (r: SwitchAction)
        ensures
            r == self@.upload_action(*p),
    {
        if p.gaming && !p.paused {
            if is_due(!self.upload_boost_active, p.now, self.last_upload_boost_at, false) {
                SwitchAction::Apply
            } else {
                SwitchAction::Keep
            }
        } else if self.upload_boost_active {
            SwitchAction::Relax
        } else {
            SwitchAction::Keep
        }
    }

    /// Takes in how the action on the upload boost went, with the ceiling that the firewall
    /// states.
    pub fn upload_done(&mut self, p: &GuardPoll, a: SwitchAction, ok: bool, shaped: Option<i64>)
        requires
            old(self)@.wf(),
        ensures
            final(self)@ == old(self)@.upload_done(*p, a, ok, shaped),
            final(self)@.wf(),
    {
        if a != SwitchAction::Keep && ok {
            self.upload_boost_active = a == SwitchAction::Apply;
            self.last_upload_boost_at = p.now;
            if a == SwitchAction::Apply {
                if let Some(m) = shaped {
                    self.cached_shaped_mbps = m;
                }
            }
        }
    }
}

// ---------------------------------------------------------------------------------------------
// Upload

/// How the upload is doing. Rates and percentages are in millionths.
pub struct UploadPressure {
    pub pressure: bool,
    pub alerts: Vec<String>,
    pub upload_mbps: i64,
    pub shaped_mbps: i64,
    pub util_pct: i64,
}

/// The bytes that the console sent, from either place of the snapshot.
pub open spec fn upload_bytes(snapshot: JsonView) -> u64 {
    let t = snapshot.field("traffic"@);
    let a = match t {
        Some(v) => match v.field_in("summary"@, "xbox_upload_bytes"@) {
            Some(n) => n.uint(),
            None => None,
        },
        None => None,
    };
    let b = match t {
        Some(v) => match v.field_in("metrics"@, "xbox_upload_bytes"@) {
            Some(n) => n.uint(),
            None => None,
        },
        None => None,
    };
    match a {
        Some(n) => n,
        None => match b {
            Some(n) => n,
            None => 0,
        },
    }
}

pub open spec fn utilization(upload: int, shaped: int) -> int {
    if shaped > 0 && upload > 0 {
        kept(quotient(upload * 100_000_000, shaped))
    } else {
        0
    }
}

/// The egress queue that the telemetry states.
pub open spec fn egress_queue(queues: Option<JsonView>) -> Option<JsonView> {
    match queues {
        Some(q) => q.field_in("queues"@, "egress_upload"@),
        None => None,
    }
}

pub open spec fn queue_pressed(e: JsonView) -> bool {
    flag_or(e.field("saturated"@), false) || uint_or(e.field("backlog_bytes"@), 0) > 65_536
        || text_or_empty(e.field("buffer_grade"@)) == "poor"@
}

/// What presses on the upload, in words.
pub open spec fn upload_alerts(
    upload: int,
    shaped: int,
    queues: Option<JsonView>,
) -> Seq<Seq<char>> {
    let util = utilization(upload, shaped);
    let a = if util >= 80_000_000 {
        seq![
            "Xbox upload "@ + whole_text(upload) + " Mbps — "@ + whole_text(util) + "% of shaped "@
                + whole_text(shaped) + " Mbps ceiling"@,
        ]
    } else {
        Seq::empty()
    };
    match egress_queue(queues) {
        Some(e) => if queue_pressed(e) {
            a.push(
                "Upload queue pressure — backlog "@ + decimal(
                    uint_or(e.field("backlog_bytes"@), 0) as nat,
                ) + "B grade "@ + text_or_empty(e.field("buffer_grade"@)),
            )
        } else {
            a
        },
        None => a,
    }
}

pub open spec fn opt_doc(j: Option<&Json>) -> Option<JsonView> {
    crate::json::opt_view(j)
}

fn upload_bytes_of(snapshot: &Json) -> (r: u64)
    ensures
        r == upload_bytes(snapshot@),
{
    if let Some(t) = snapshot.get("traffic") {
        if let Some(v) = t.get_in("summary", "xbox_upload_bytes") {
            if let Some(n) = v.as_u64() {
                return n;
            }
        }
        if let Some(v) = t.get_in("metrics", "xbox_upload_bytes") {
            if let Some(n) = v.as_u64() {
                return n;
            }
        }
    }
    0
}

impl GuardView {
    pub open spec fn queues_wanted(self, p: GuardPoll) -> bool {
        p.gaming && p.now - self.last_upload_warn_at > 30_000_000
    }

    /// Whether pressure is to be told again: a minute after the last time.
    pub open spec fn warning_due(self, now: i64) -> bool {
        now - self.last_upload_warn_at >= 60_000_000
    }

    /// Whether the buffers are to be set by the queues: 45 seconds after the last time.
    pub open spec fn rqd_wanted(self, p: GuardPoll) -> bool {
        p.gaming && !p.paused && p.now - self.last_rqd_buffer_at >= 45_000_000
    }
}

impl NetworkGuard {
    /// Whether the telemetry of the queues is wanted.
    pub fn queues_wanted(&self, p: &GuardPoll) -> (r: bool)
        ensures
            r == self@.queues_wanted(*p),
    {
        p.gaming && p.now as i128 - self.last_upload_warn_at as i128 > 30_000_000
    }

    /// How the upload is doing.
    pub fn upload_pressure(&self, snapshot: &Json, queues: Option<&Json>) -> (r: UploadPressure)
        ensures
            r.upload_mbps == mbps(upload_bytes(snapshot@), window(snapshot@)),
            r.shaped_mbps == self@.cached_shaped_mbps,
            r.util_pct == utilization(r.upload_mbps as int, r.shaped_mbps as int),
            views(r.alerts@) == upload_alerts(
                r.upload_mbps as int,
                r.shaped_mbps as int,
                opt_doc(queues),
            ),
            r.pressure == (r.alerts@.len() > 0),
    {
        let shaped: i64 = self.cached_shaped_mbps;
        let upload: i64 = mbps_of(upload_bytes_of(snapshot), window_of(snapshot));
        let util: i64 = if shaped > 0 && upload > 0 {
            keep(divide(upload as i128 * 100_000_000, shaped as i128))
        } else {
            0
        };
        let mut alerts: Vec<String> = Vec::new();
        assert(views(alerts@) =~= Seq::empty());
        if util >= 80_000_000 {
            let mut s = "Xbox upload ".to_owned();
            s.append(fmt0(upload).as_str());
            s.append(" Mbps — ");
            s.append(fmt0(util).as_str());
            s.append("% of shaped ");
            s.append(fmt0(shaped).as_str());
            s.append(" Mbps ceiling");
            alerts.push(s);
            assert(views(alerts@) =~= seq![s@]);
        }
        if let Some(q) = queues {
            if let Some(e) = q.get_in("queues", "egress_upload") {
                let saturated = bool_or(e.get("saturated"), false);
                let backlog: u64 = u64_or(e.get("backlog_bytes"), 0);
                let grade = str_or_empty(e.get("buffer_grade"));
                if saturated || backlog > 65_536 || same(grade, "poor") {
                    let ghost before = alerts@;
                    let mut s = "Upload queue pressure — backlog ".to_owned();
                    s.append(dec(backlog).as_str());
                    s.append("B grade ");
                    s.append(grade);
                    alerts.push(s);
                    assert(views(alerts@) =~= views(before).push(s@));
                }
            }
        }
        let pressure = alerts.len() > 0;
        UploadPressure { pressure, alerts, upload_mbps: upload, shaped_mbps: shaped, util_pct: util }
    }

    /// Whether pressure is to be told now; if so, it counts as told.
    pub fn take_upload_warning(&mut self, p: &GuardPoll) -> (r: bool)
        requires
            old(self)@.wf(),
        ensures
            r == old(self)@.warning_due(p.now),
            final(self)@ == (GuardView {
                last_upload_warn_at: if r {
                    p.now
                } else {
                    old(self)@.last_upload_warn_at
                },
                ..old(self)@
            }),
            final(self)@.wf(),
    {
        if p.now as i128 - self.last_upload_warn_at as i128 >= 60_000_000 {
            self.last_upload_warn_at = p.now;
            true
        } else {
            false
        }
    }

    /// Whether the buffers are to be set by the queues.
    pub fn rqd_wanted(&self, p: &GuardPoll) -> (r: bool)
        ensures
            r == self@.rqd_wanted(*p),
    {
        p.gaming && !p.paused && p.now as i128 - self.last_rqd_buffer_at as i128 >= 45_000_000
    }

    /// Takes in the profile that was set by the queues.
    pub fn rqd_done(&mut self, p: &GuardPoll, profile: &str)
        requires
            old(self)@.wf(),
        ensures
            ({
                let m = profile_mode(profile@);
                final(self)@ == (GuardView {
                    rqd_profile: profile@,
                    last_rqd_buffer_at: p.now,
                    buffer_mode: if m != p.buffer {
                        m
                    } else {
                        old(self)@.buffer_mode
                    },
                    last_apply_at: if m != p.buffer {
                        p.now
                    } else {
                        old(self)@.last_apply_at
                    },
                    ..old(self)@
                })
            }),
            final(self)@.wf(),
    {
        self.rqd_profile = profile.to_owned();
        self.last_rqd_buffer_at = p.now;
        let m = buffer_mode_from_profile(profile);
        if m != p.buffer {
            self.buffer_mode = m;
            self.last_apply_at = p.now;
        }
    }
}

pub open spec fn profile_mode(profile: Seq<char>) -> BufferMode {
    if profile == "kick"@ {
        BufferMode::Kick
    } else if profile == "desync"@ {
        BufferMode::Desync
    } else if profile == "light"@ {
        BufferMode::Light
    } else {
        BufferMode::Stable
    }
}

/// The mode that a profile stands for.
pub fn buffer_mode_from_profile(profile: &str) -> (r: BufferMode)
    ensures
        r == profile_mode(profile@),
{
    if same(profile, "kick") {
        BufferMode::Kick
    } else if same(profile, "desync") {
        BufferMode::Desync
    } else if same(profile, "light") {
        BufferMode::Light
    } else {
        BufferMode::Stable
    }
}

pub open spec fn mode_profile(m: BufferMode) -> Seq<char> {
    match m {
        BufferMode::Stable => "gaming"@,
        BufferMode::Light => "light"@,
        BufferMode::Desync => "desync"@,
        BufferMode::Kick => "kick"@,
    }
}

/// The profile of a mode.
pub fn buffer_profile(m: BufferMode) -> (r: &'static str)
    ensures
        r@ == mode_profile(m),
{
    match m {
        BufferMode::Stable => "gaming",
        BufferMode::Light => "light",
        BufferMode::Desync => "desync",
        BufferMode::Kick => "kick",
    }
}

/// The arguments of the script that puts the shield up: its level, then the probe hosts.
pub open spec fn shield_words(level: Seq<char>, suspicious: Seq<Seq<char>>) -> Seq<Seq<char>> {
    seq!["shield"@, level] + suspicious
}

/// The arguments of the script that puts the shield up.
pub fn shield_args(risk: &GuardRisk, snapshot: &Json, kick_spike: bool) -> (r: Vec<String>)
    ensures
        views(r@) == shield_words(
            shield_word(
                risk.phase@,
                risk.reputation_gate,
                signal_views(risk.signals@),
                risk.suspicious@.len(),
                snapshot@,
                kick_spike,
            ),
            views(risk.suspicious@),
        ),
{
    let level = shield_level(risk, snapshot, kick_spike);
    let mut v: Vec<String> = Vec::new();
    v.push("shield".to_owned());
    v.push(level.to_owned());
    let ghost all = views(risk.suspicious@);
    assert(views(v@) =~= shield_words(level@, all.take(0)));
    let mut i: usize = 0;
    while i < risk.suspicious.len()
        invariant
            i <= risk.suspicious.len(),
            all == views(risk.suspicious@),
            views(v@) == shield_words(level@, all.take(i as int)),
        decreases risk.suspicious.len() - i,
    {
        let ghost before = v@;
        v.push(risk.suspicious[i].as_str().to_owned());
        assert(views(v@) =~= views(before).push(risk.suspicious@[i as int]@));
        assert(views(v@) =~= shield_words(level@, all.take(i + 1)));
        i += 1;
    }
    assert(all.take(i as int) =~= all);
    v
}

// ---------------------------------------------------------------------------------------------
// Buffers by the queues

/// What the choice of a profile by the queues is fed with. Fractions are in millionths.
#[derive(Clone, Copy)]
pub struct RqdSample {
    pub upload_util_pct: i64,
    pub kick_spike: bool,
    pub in_match: bool,
    pub desync_hint: bool,
    pub egress_mbps: Option<i64>,
    pub backlog_bytes: Option<u64>,
    pub wan_jitter_ms: Option<i64>,
}

pub open spec fn rqd_sample(
    snapshot: JsonView,
    queues: Option<JsonView>,
    upload_mbps: i64,
    util_pct: i64,
    kick_spike: bool,
    in_match: bool,
) -> RqdSample {
    let e = egress_queue(queues);
    RqdSample {
        upload_util_pct: util_pct,
        kick_spike,
        in_match,
        desync_hint: util_pct >= 70_000_000 || match e {
            Some(v) => flag_or(v.field("saturated"@), false),
            None => false,
        },
        egress_mbps: if upload_mbps > 0 {
            Some(upload_mbps)
        } else {
            None
        },
        backlog_bytes: match e {
            Some(v) => match v.field("backlog_bytes"@) {
                Some(n) => n.uint(),
                None => None,
            },
            None => None,
        },
        wan_jitter_ms: match wan_latency(snapshot) {
            Some(n) => Some(n as i64),
            None => None,
        },
    }
}

/// What the choice of a profile by the queues is fed with.
pub fn rqd_sample_from(
    snapshot: &Json,
    queues: Option<&Json>,
    upload_mbps: i64,
    util_pct: i64,
    kick_spike: bool,
    in_match: bool,
) -> (r: RqdSample)
    ensures
        r == rqd_sample(snapshot@, opt_doc(queues), upload_mbps, util_pct, kick_spike, in_match),
{
    let mut hint = util_pct >= 70_000_000;
    let mut backlog: Option<u64> = None;
    if let Some(q) = queues {
        if let Some(e) = q.get_in("queues", "egress_upload") {
            if let Some(v) = e.get("backlog_bytes") {
                backlog = v.as_u64();
            }
            if bool_or(e.get("saturated"), false) {
                hint = true;
            }
        }
    }
    let egress: Option<i64> = if upload_mbps > 0 {
        Some(upload_mbps)
    } else {
        None
    };
    RqdSample {
        upload_util_pct: util_pct,
        kick_spike,
        in_match,
        desync_hint: hint,
        egress_mbps: egress,
        backlog_bytes: backlog,
        wan_jitter_ms: wan_latency_of(snapshot),
    }
}

pub open spec fn text_field_or(j: Option<JsonView>, other: Seq<char>) -> Seq<char> {
    match j {
        Some(v) => match v.text() {
            Some(t) => t,
            None => other,
        },
        None => other,
    }
}

pub(crate) fn field_text_or(j: Option<&Json>, other: &str) -> (r: String)
    ensures
        r@ == text_field_or(crate::json::opt_view(j), other@),
{
    if let Some(v) = j {
        if let Some(t) = v.as_str() {
            return t.to_owned();
        }
    }
    other.to_owned()
}

/// The profile that was set, with what was said of it.
pub struct RqdApplied {
    pub profile: String,
    pub message: String,
}

/// A refusal: the reply says that it is not in order.
pub open spec fn refused(resp: JsonView) -> bool {
    match resp.field("ok"@) {
        Some(v) => v.flag() == Some(false),
        None => false,
    }
}

/// Reads the reply to a profile that was asked for.
pub fn read_rqd_reply(resp: &Json) -> (r: Result<RqdApplied, String>)
    ensures
        r is Err <==> refused(resp@),
        r matches Err(e) ==> e@ == text_field_or(
            resp@.field("error"@),
            "rqd buffer apply failed"@,
        ),
        r matches Ok(a) ==> a.profile@ == text_field_or(resp@.field("profile"@), "gaming"@)
            && a.message@ == text_field_or(
            resp@.field_in("applied"@, "stdout"@),
            text_field_or(resp@.field("stdout"@), "rqd buffer applied"@),
        ),
{
    if let Some(v) = resp.get("ok") {
        if let Some(b) = v.as_bool() {
            if !b {
                return Err(field_text_or(resp.get("error"), "rqd buffer apply failed"));
            }
        }
    }
    let profile = field_text_or(resp.get("profile"), "gaming");
    let other = field_text_or(resp.get("stdout"), "rqd buffer applied");
    let message = field_text_or(resp.get_in("applied", "stdout"), other.as_str());
    Ok(RqdApplied { profile, message })
}

// ---------------------------------------------------------------------------------------------
// Status

pub open spec fn flood_word(m: FloodMode) -> Seq<char> {
    match m {
        FloodMode::Off => "off"@,
        FloodMode::Shield => "shield"@,
        FloodMode::Defend => "defend"@,
        FloodMode::Harden => "harden"@,
    }
}

/// The name of a defense against floods.
pub fn flood_level(m: FloodMode) -> (r: &'static str)
    ensures
        r@ == flood_word(m),
{
    match m {
        FloodMode::Off => "off",
        FloodMode::Shield => "shield",
        FloodMode::Defend => "defend",
        FloodMode::Harden => "harden",
    }
}

pub open spec fn buffer_part(m: BufferMode) -> Seq<char> {
    match m {
        BufferMode::Stable => "gaming CAKE rtt=8ms (idle baseline)"@,
        BufferMode::Light => "light buffers (10ms CAKE)"@,
        BufferMode::Kick => "minimum buffers (3ms CAKE) + MoCA QoS"@,
        BufferMode::Desync => "tight buffers (5ms CAKE) + upload boost"@,
    }
}

pub open spec fn flood_part(m: FloodMode, non_game_drop: bool, peer_attack: bool) -> Seq<char> {
    match m {
        FloodMode::Off => Seq::empty(),
        FloodMode::Shield => if peer_attack {
            "peer probe shield (VPS/tiny floods)"@
        } else if non_game_drop {
            "packet shield + non-game port drop"@
        } else {
            "tiny-packet shield (≤79B)"@
        },
        FloodMode::Harden => "hardened flood guard on game ports"@,
        FloodMode::Defend => "flood guard per-source limits"@,
    }
}

/// What is on, part by part.
pub open spec fn summary_parts(
    buffer: BufferMode,
    flood: FloodMode,
    kick_spike: bool,
    non_game_drop: bool,
    peer_attack: bool,
) -> Seq<Seq<char>> {
    let a = seq![buffer_part(buffer)];
    let b = if flood == FloodMode::Off {
        a
    } else {
        a.push(flood_part(flood, non_game_drop, peer_attack))
    };
    if kick_spike {
        b.push("kick spike detected — escalated defense"@)
    } else {
        b
    }
}

pub open spec fn summary_text(
    buffer: BufferMode,
    flood: FloodMode,
    kick_spike: bool,
    non_game_drop: bool,
    peer_attack: bool,
) -> Seq<char> {
    "Active: "@ + joined(
        summary_parts(buffer, flood, kick_spike, non_game_drop, peer_attack),
        ", "@,
    )
}

/// What is on, in one sentence.
pub fn mitigation_summary(
    buffer: BufferMode,
    flood: FloodMode,
    kick_spike: bool,
    non_game_drop: bool,
    peer_attack: bool,
) -> (r: String)
    ensures
        r@ == summary_text(buffer, flood, kick_spike, non_game_drop, peer_attack),
{
    let mut parts: Vec<String> = Vec::new();
    let first = match buffer {
        BufferMode::Stable => "gaming CAKE rtt=8ms (idle baseline)",
        BufferMode::Light => "light buffers (10ms CAKE)",
        BufferMode::Kick => "minimum buffers (3ms CAKE) + MoCA QoS",
        BufferMode::Desync => "tight buffers (5ms CAKE) + upload boost",
    };
    parts.push(first.to_owned());
    assert(views(parts@) =~= seq![buffer_part(buffer)]);
    if flood != FloodMode::Off {
        let word = match flood {
            FloodMode::Shield => if peer_attack {
                "peer probe shield (VPS/tiny floods)"
            } else if non_game_drop {
                "packet shield + non-game port drop"
            } else {
                "tiny-packet shield (≤79B)"
            },
            FloodMode::Harden => "hardened flood guard on game ports",
            _ => "flood guard per-source limits",
        };
        let ghost before = parts@;
        parts.push(word.to_owned());
        assert(views(parts@) =~= views(before).push(word@));
    }
    if kick_spike {
        let ghost before = parts@;
        parts.push("kick spike detected — escalated defense".to_owned());
        assert(views(parts@) =~= views(before).push("kick spike detected — escalated defense"@));
    }
    let list = join(&parts, ", ");
    cat("Active: ", list.as_str())
}

pub open spec fn flood_description(m: FloodMode, non_game_drop: bool, peer_attack: bool) -> Seq<
    char,
> {
    match m {
        FloodMode::Shield => if peer_attack {
            "Peer probe shield — drops tiny floods from suspicious player/VPS peers"@
        } else if non_game_drop {
            "Packet shield + non-game port drop — only Xbox game ports allowed inbound"@
        } else {
            "Tiny-packet shield (≤79B dropped) — normal game traffic unchanged"@
        },
        FloodMode::Harden =>
            "Aggressive per-source limits on game ports — kick attack mitigation"@,
        FloodMode::Defend => "Per-source rate limits on Xbox/Warzone ports"@,
        FloodMode::Off => "Inactive"@,
    }
}

fn describe_flood(m: FloodMode, non_game_drop: bool, peer_attack: bool) -> (r: &'static str)
    ensures
        r@ == flood_description(m, non_game_drop, peer_attack),
{
    match m {
        FloodMode::Shield => if peer_attack {
            "Peer probe shield — drops tiny floods from suspicious player/VPS peers"
        } else if non_game_drop {
            "Packet shield + non-game port drop — only Xbox game ports allowed inbound"
        } else {
            "Tiny-packet shield (≤79B dropped) — normal game traffic unchanged"
        },
        FloodMode::Harden => "Aggressive per-source limits on game ports — kick attack mitigation",
        FloodMode::Defend => "Per-source rate limits on Xbox/Warzone ports",
        FloodMode::Off => "Inactive",
    }
}

pub open spec fn shield_description(
    shielded: bool,
    phase: Seq<char>,
    non_game_drop: bool,
    peer_attack: bool,
) -> Seq<char> {
    if shielded && phase == "in-match"@ {
        "In-match — Warzone + Xbox Live CIDRs only; LAN + established; everything else dropped"@
    } else if shielded && phase == "matchmaking"@ {
        "Matchmaking — all inbound P2P blocked; allowlisted service ports only"@
    } else if peer_attack {
        "Drops tiny inbound probes from flagged game-peer hosts (often VPS/Vultr)"@
    } else if non_game_drop {
        "Drops inbound traffic not on Xbox game ports when non-game hosts detected"@
    } else {
        "Drops inbound UDP/TCP ≤79 bytes (kick probes); normal Warzone packets pass"@
    }
}

fn describe_shield(shielded: bool, phase: &str, non_game_drop: bool, peer_attack: bool) -> (r:
    &'static str)
    ensures
        r@ == shield_description(shielded, phase@, non_game_drop, peer_attack),
{
    if shielded && same(phase, "in-match") {
        "In-match — Warzone + Xbox Live CIDRs only; LAN + established; everything else dropped"
    } else if shielded && same(phase, "matchmaking") {
        "Matchmaking — all inbound P2P blocked; allowlisted service ports only"
    } else if peer_attack {
        "Drops tiny inbound probes from flagged game-peer hosts (often VPS/Vultr)"
    } else if non_game_drop {
        "Drops inbound traffic not on Xbox game ports when non-game hosts detected"
    } else {
        "Drops inbound UDP/TCP ≤79 bytes (kick probes); normal Warzone packets pass"
    }
}

impl GuardView {
    /// What is done against the attack, in one sentence.
    pub open spec fn mitigation(
        self,
        phase: Seq<char>,
        kick_spike: bool,
        paused: bool,
        non_game_drop: bool,
        peer_attack: bool,
    ) -> Seq<char> {
        let in_match = phase == "in-match"@;
        if phase == "matchmaking"@ && self.flood_mode == FloodMode::Off {
            "Matchmaking: fast queue — defenses off until attack or bad lobby signals"@
        } else if in_match && self.flood_mode == FloodMode::Shield {
            "In-match: Warzone + Xbox Live allowlist only — all other inbound dropped"@
        } else if self.flood_mode == FloodMode::Shield && phase == "matchmaking"@ {
            "Matchmaking: all inbound P2P blocked — Xbox Live / CoD service ports only"@
        } else if in_match {
            "In-match: detection only — network tuning disabled to protect aim/hit reg"@
        } else if paused {
            "Defenses paused — monitoring only"@
        } else {
            summary_text(
                self.buffer_mode,
                self.flood_mode,
                kick_spike,
                non_game_drop,
                peer_attack,
            )
        }
    }

    /// The whole seconds that a pause still lasts.
    pub open spec fn pause_left(self, paused: bool, now: i64) -> int {
        if paused && self.pause_until > now {
            (self.pause_until - now) / 1_000_000
        } else {
            0
        }
    }
}

/// How the defense against floods stands.
pub struct FloodStatus {
    pub active: bool,
    pub level: &'static str,
    pub connections: u64,
    pub description: &'static str,
}

/// How the shield stands.
pub struct ShieldStatus {
    pub active: bool,
    pub console_mode: bool,
    pub in_match_mode: bool,
    pub non_game_drop: bool,
    pub peer_attack: bool,
    /// Packets up to this size are dropped.
    pub tiny_max_bytes: u64,
    pub description: &'static str,
}

/// How the upload is helped.
pub struct UploadStatus {
    pub active: bool,
    pub buffer_profile: &'static str,
    pub in_match_desync: bool,
    pub pressure: bool,
    pub egress_mbps: i64,
    pub shaped_mbps: i64,
    pub utilization_pct: i64,
    pub rqd_profile: String,
    pub description: &'static str,
}

/// How the priority of the game's ports stands.
pub struct MocaStatus {
    pub active: bool,
    pub dscp: &'static str,
    pub description: &'static str,
}

/// The defenses as the dashboard shows them after a poll.
pub struct GuardStatus {
    pub mode: &'static str,
    pub wan_jitter_ms: i64,
    pub engage: bool,
    pub kick_spike: bool,
    pub kick_source: &'static str,
    pub lobby_reputation_gate: bool,
    pub kick_spikes_session: u32,
    pub paused: bool,
    pub monitor_only_in_match: bool,
    pub pause_remaining_sec: u64,
    pub flood_guard: FloodStatus,
    pub mitigation: String,
    pub packet_shield: ShieldStatus,
    pub moca_qos: MocaStatus,
    pub upload_assist: UploadStatus,
}

/// The defenses as they stand between polls.
pub struct BriefStatus {
    pub mode: &'static str,
    pub engage: bool,
    pub paused: bool,
    pub pause_remaining_sec: u64,
    pub flood_level: &'static str,
    pub moca_active: bool,
    pub mitigation: String,
}

pub open spec fn moca_dscp(active: bool) -> Seq<char> {
    if active {
        "ef"@
    } else {
        "off"@
    }
}

impl GuardView {
    pub open spec fn is_shield_status(
        self,
        s: ShieldStatus,
        phase: Seq<char>,
        drop: bool,
        peer: bool,
    ) -> bool {
        let shielded = self.flood_mode == FloodMode::Shield;
        &&& s.active == shielded
        &&& s.console_mode == (shielded && gaming(phase))
        &&& s.in_match_mode == (shielded && phase == "in-match"@)
        &&& s.non_game_drop == drop
        &&& s.peer_attack == peer
        &&& s.tiny_max_bytes == 79
        &&& s.description@ == shield_description(shielded, phase, drop, peer)
    }

    pub open spec fn is_moca_status(self, s: MocaStatus) -> bool {
        &&& s.active == self.moca_qos_active
        &&& s.dscp@ == moca_dscp(self.moca_qos_active)
        &&& s.description@ == if self.moca_qos_active {
            "DSCP EF on Xbox game ports — MoCA/QoS path priority during lobby/match"@
        } else {
            "Inactive — enables automatically in matchmaking or in-match"@
        }
    }

    pub open spec fn is_upload_status(
        self,
        s: UploadStatus,
        phase: Seq<char>,
        up: UploadPressure,
    ) -> bool {
        &&& s.active == self.upload_boost_active
        &&& s.buffer_profile@ == mode_profile(self.buffer_mode)
        &&& s.in_match_desync == (phase == "in-match"@ && (self.buffer_mode == BufferMode::Desync
            || self.buffer_mode == BufferMode::Kick))
        &&& s.pressure == up.pressure
        &&& s.egress_mbps == one_decimal(up.upload_mbps as int)
        &&& s.shaped_mbps == self.cached_shaped_mbps
        &&& s.utilization_pct == one_decimal(up.util_pct as int)
        &&& s.rqd_profile@ == self.rqd_profile
        &&& s.description@ == if self.upload_boost_active {
            "Xbox HTB ceil raised to ~98% shaped upload — other tiers trimmed"@
        } else if gaming(phase) {
            "Upload boost pending — applies on next poll"@
        } else {
            "Inactive — enables in matchmaking or in-match"@
        }
    }

    pub open spec fn engaged(self, phase: Seq<char>) -> bool {
        self.flood_mode != FloodMode::Off || gaming(phase) || self.buffer_mode
            != BufferMode::Stable
    }
}

pub open spec fn kick_source(game_kick: bool, kick_spike: bool) -> Seq<char> {
    if game_kick {
        "game_state"@
    } else if kick_spike {
        "traffic"@
    } else {
        "none"@
    }
}

pub open spec fn connection_count(snapshot: JsonView) -> u64 {
    match snapshot.field_in("connections"@, "count"@) {
        Some(v) => uint_or(Some(v), 0),
        None => 0,
    }
}

impl NetworkGuard {
    fn pause_left(&self, paused: bool, now: i64) -> (r: u64)
        ensures
            r == self@.pause_left(paused, now),
    {
        if paused && self.pause_until > now {
            ((self.pause_until as i128 - now as i128) / 1_000_000) as u64
        } else {
            0
        }
    }

    fn shield_status(&self, phase: &str, drop: bool, peer: bool) -> (r: ShieldStatus)
        ensures
            self@.is_shield_status(r, phase@, drop, peer),
    {
        let shielded = self.flood_mode == FloodMode::Shield;
        ShieldStatus {
            active: shielded,
            console_mode: shielded && is_gaming(phase),
            in_match_mode: shielded && same(phase, "in-match"),
            non_game_drop: drop,
            peer_attack: peer,
            tiny_max_bytes: 79,
            description: describe_shield(shielded, phase, drop, peer),
        }
    }

    fn moca_status(&self) -> (r: MocaStatus)
        ensures
            self@.is_moca_status(r),
    {
        if self.moca_qos_active {
            MocaStatus {
                active: true,
                dscp: "ef",
                description: "DSCP EF on Xbox game ports — MoCA/QoS path priority during lobby/match",
            }
        } else {
            MocaStatus {
                active: false,
                dscp: "off",
                description: "Inactive — enables automatically in matchmaking or in-match",
            }
        }
    }

    fn upload_status(&self, phase: &str, up: &UploadPressure) -> (r: UploadStatus)
        requires
            -LIMIT <= up.upload_mbps <= LIMIT,
            -LIMIT <= up.util_pct <= LIMIT,
        ensures
            self@.is_upload_status(r, phase@, *up),
    {
        let description = if self.upload_boost_active {
            "Xbox HTB ceil raised to ~98% shaped upload — other tiers trimmed"
        } else if is_gaming(phase) {
            "Upload boost pending — applies on next poll"
        } else {
            "Inactive — enables in matchmaking or in-match"
        };
        UploadStatus {
            active: self.upload_boost_active,
            buffer_profile: buffer_profile(self.buffer_mode),
            in_match_desync: same(phase, "in-match") && (self.buffer_mode == BufferMode::Desync
                || self.buffer_mode == BufferMode::Kick),
            pressure: up.pressure,
            egress_mbps: round1(up.upload_mbps),
            shaped_mbps: self.cached_shaped_mbps,
            utilization_pct: round1(up.util_pct),
            rqd_profile: self.rqd_profile.as_str().to_owned(),
            description,
        }
    }

    fn mitigation(
        &self,
        phase: &str,
        kick_spike: bool,
        paused: bool,
        drop: bool,
        peer: bool,
    ) -> (r: String)
        ensures
            r@ == self@.mitigation(phase@, kick_spike, paused, drop, peer),
    {
        let in_match = same(phase, "in-match");
        let queue = same(phase, "matchmaking");
        if queue && self.flood_mode == FloodMode::Off {
            "Matchmaking: fast queue — defenses off until attack or bad lobby signals".to_owned()
        } else if in_match && self.flood_mode == FloodMode::Shield {
            "In-match: Warzone + Xbox Live allowlist only — all other inbound dropped".to_owned()
        } else if self.flood_mode == FloodMode::Shield && queue {
            "Matchmaking: all inbound P2P blocked — Xbox Live / CoD service ports only".to_owned()
        } else if in_match {
            "In-match: detection only — network tuning disabled to protect aim/hit reg".to_owned()
        } else if paused {
            "Defenses paused — monitoring only".to_owned()
        } else {
            mitigation_summary(self.buffer_mode, self.flood_mode, kick_spike, drop, peer)
        }
    }

    /// The defenses as the dashboard shows them after a poll. A match is only watched where
    /// nothing else is said of it.
    pub fn status_json(
        &self,
        risk: &GuardRisk,
        snapshot: &Json,
        poll: &GuardPoll,
        up: &UploadPressure,
        now: i64,
    ) -> (r: GuardStatus)
        requires
            self@.wf(),
            -LIMIT <= up.upload_mbps <= LIMIT,
            -LIMIT <= up.util_pct <= LIMIT,
        ensures
            ({
                let drop = non_game_traffic(signal_views(risk.signals@), snapshot@);
                let peer = peer_attack(signal_views(risk.signals@));
                &&& r.mode@ == mode_profile(self@.buffer_mode)
                &&& r.wan_jitter_ms == one_decimal(line_jitter(self@.wan_history))
                &&& r.engage == self@.engaged(risk.phase@)
                &&& r.kick_spike == poll.kick_spike
                &&& r.kick_source@ == kick_source(risk.game_kick, poll.kick_spike)
                &&& r.lobby_reputation_gate == risk.reputation_gate
                &&& r.kick_spikes_session == self@.kick_spikes
                &&& r.paused == poll.paused
                &&& r.monitor_only_in_match == (risk.phase@ == "in-match"@)
                &&& r.pause_remaining_sec == self@.pause_left(poll.paused, now)
                &&& r.flood_guard.active == (self@.flood_mode != FloodMode::Off)
                &&& r.flood_guard.level@ == flood_word(self@.flood_mode)
                &&& r.flood_guard.connections == connection_count(snapshot@)
                &&& r.flood_guard.description@ == flood_description(self@.flood_mode, drop, peer)
                &&& r.mitigation@ == self@.mitigation(
                    risk.phase@,
                    poll.kick_spike,
                    poll.paused,
                    drop,
                    peer,
                )
                &&& self@.is_shield_status(r.packet_shield, risk.phase@, drop, peer)
                &&& self@.is_moca_status(r.moca_qos)
                &&& self@.is_upload_status(r.upload_assist, risk.phase@, *up)
            }),
    {
        let phase = risk.phase.as_str();
        let drop = has_non_game_traffic(&risk.signals, snapshot);
        let peer = has_peer_attack_signal(&risk.signals);
        let connections: u64 = match snapshot.get_in("connections", "count") {
            Some(v) => u64_or(Some(v), 0),
            None => 0,
        };
        let source = if risk.game_kick {
            "game_state"
        } else if poll.kick_spike {
            "traffic"
        } else {
            "none"
        };
        let flood_guard = FloodStatus {
            active: self.flood_mode != FloodMode::Off,
            level: flood_level(self.flood_mode),
            connections,
            description: describe_flood(self.flood_mode, drop, peer),
        };
        GuardStatus {
            mode: buffer_profile(self.buffer_mode),
            wan_jitter_ms: round1(self.wan_jitter_ms()),
            engage: self.flood_mode != FloodMode::Off || is_gaming(phase) || self.buffer_mode
                != BufferMode::Stable,
            kick_spike: poll.kick_spike,
            kick_source: source,
            lobby_reputation_gate: risk.reputation_gate,
            kick_spikes_session: self.kick_spikes,
            paused: poll.paused,
            monitor_only_in_match: same(phase, "in-match"),
            pause_remaining_sec: self.pause_left(poll.paused, now),
            flood_guard,
            mitigation: self.mitigation(phase, poll.kick_spike, poll.paused, drop, peer),
            packet_shield: self.shield_status(phase, drop, peer),
            moca_qos: self.moca_status(),
            upload_assist: self.upload_status(phase, up),
        }
    }

    /// The profile of the buffers and the defense against floods that are up.
    pub fn modes(&self) -> (r: (BufferMode, FloodMode))
        ensures
            r == (self@.buffer_mode, self@.flood_mode),
    {
        (self.buffer_mode, self.flood_mode)
    }

    /// The defenses as they stand between polls.
    pub fn current_status(&self, now: i64) -> (r: BriefStatus)
        ensures
            r.mode@ == mode_profile(self@.buffer_mode),
            r.engage == (self@.buffer_mode != BufferMode::Stable || self@.flood_mode
                != FloodMode::Off),
            r.paused == self@.is_paused(now),
            r.pause_remaining_sec == self@.pause_left(r.paused, now),
            r.flood_level@ == flood_word(self@.flood_mode),
            r.moca_active == self@.moca_qos_active,
            r.mitigation@ == if r.paused {
                "Defenses paused — monitoring only"@
            } else {
                summary_text(self@.buffer_mode, self@.flood_mode, false, false, false)
            },
    {
        let paused = now < self.pause_until || self.defenses_disabled;
        let mitigation = if paused {
            "Defenses paused — monitoring only".to_owned()
        } else {
            mitigation_summary(self.buffer_mode, self.flood_mode, false, false, false)
        };
        BriefStatus {
            mode: buffer_profile(self.buffer_mode),
            engage: self.buffer_mode != BufferMode::Stable || self.flood_mode != FloodMode::Off,
            paused,
            pause_remaining_sec: self.pause_left(paused, now),
            flood_level: flood_level(self.flood_mode),
            moca_active: self.moca_qos_active,
            mitigation,
        }
    }
}

// ---------------------------------------------------------------------------------------------
// Release

impl GuardView {
    /// The session's block is lifted.
    pub open spec fn unblocked(self) -> GuardView {
        GuardView { defenses_disabled: false, pause_until: 0, ..self }
    }

    /// The user stopped the defenses at a time: for a day, and until the session ends.
    pub open spec fn blocked(self, now: i64) -> GuardView {
        GuardView {
            defenses_disabled: true,
            pause_until: if now + 86_400_000_000 > i64::MAX {
                i64::MAX
            } else {
                (now + 86_400_000_000) as i64
            },
            ..self
        }
    }

    /// After the buffers were restored and the defense against floods was relaxed, each of which
    /// may have failed.
    pub open spec fn released(self, buffers_ok: bool, flood_ok: bool, now: i64) -> GuardView {
        GuardView {
            moca_qos_active: false,
            upload_boost_active: false,
            buffer_mode: if buffers_ok {
                BufferMode::Stable
            } else {
                self.buffer_mode
            },
            last_apply_at: if buffers_ok {
                now
            } else {
                self.last_apply_at
            },
            flood_mode: if flood_ok {
                FloodMode::Off
            } else {
                self.flood_mode
            },
            last_flood_at: if flood_ok {
                now
            } else {
                self.last_flood_at
            },
            kick_spikes: 0,
            last_bytes_in: 0,
            last_packets: 0,
            ..self
        }
    }
}

impl NetworkGuard {
    /// Lifts the session's block.
    pub fn clear_session_block(&mut self)
        ensures
            final(self)@ == old(self)@.unblocked(),
    {
        self.defenses_disabled = false;
        self.pause_until = 0;
    }

    /// Lifts the session's block and tells how the defenses are taken down.
    pub fn release_if_engaged(&mut self) -> (r: BufferAction)
        ensures
            final(self)@ == old(self)@.unblocked(),
            r == (BufferAction::Restore { relax_upload: old(self)@.upload_boost_active }),
    {
        self.clear_session_block();
        BufferAction::Restore { relax_upload: self.upload_boost_active }
    }

    /// The user stops the defenses: nothing engages by itself in this session. Tells how the
    /// defenses are taken down.
    pub fn release_and_pause(&mut self, now: i64) -> (r: BufferAction)
        ensures
            final(self)@ == old(self)@.blocked(now),
            r == (BufferAction::Restore { relax_upload: old(self)@.upload_boost_active }),
    {
        self.defenses_disabled = true;
        self.pause_until = if now > i64::MAX - 86_400_000_000 {
            i64::MAX
        } else {
            now + 86_400_000_000
        };
        BufferAction::Restore { relax_upload: self.upload_boost_active }
    }

    /// Takes in how the release went; tells whether any of it worked.
    pub fn release_now(&mut self, buffers_ok: bool, flood_ok: bool, now: i64) -> (r: bool)
        ensures
            final(self)@ == old(self)@.released(buffers_ok, flood_ok, now),
            r == (buffers_ok || flood_ok),
    {
        self.moca_qos_active = false;
        self.upload_boost_active = false;
        if buffers_ok {
            self.buffer_mode = BufferMode::Stable;
            self.last_apply_at = now;
        }
        if flood_ok {
            self.flood_mode = FloodMode::Off;
            self.last_flood_at = now;
        }
        self.kick_spikes = 0;
        self.last_bytes_in = 0;
        self.last_packets = 0;
        buffers_ok || flood_ok
    }
}

// ---------------------------------------------------------------------------------------------
// Laws

/// A guard that is paused calls for nothing, whatever the session looks like.
pub proof fn paused_guard_calls_for_nothing(
    g: GuardView,
    phase: Seq<char>,
    label: Seq<char>,
    game_kick: bool,
    snapshot: JsonView,
    now: i64,
)
    requires
        g.is_paused(now),
    ensures
        ({
            let p = g.poll(phase, label, game_kick, snapshot, now);
            &&& p.target_buffer == BufferMode::Stable
            &&& p.target_flood == FloodMode::Off
            &&& !(g.buffer_action(p) is Apply)
            &&& !(g.flood_action(p) is Apply)
            &&& !(g.moca_action(p) is Apply)
            &&& !(g.upload_action(p) is Apply)
            &&& !g.rqd_wanted(p)
        }),
{
}

/// Once the user has stopped the defenses, none engages by itself, however late, until the block
/// is lifted.
pub proof fn stopped_defenses_stay_down(
    g: GuardView,
    at: i64,
    phase: Seq<char>,
    label: Seq<char>,
    game_kick: bool,
    snapshot: JsonView,
    now: i64,
)
    ensures
        g.blocked(at).is_paused(now),
        ({
            let p = g.blocked(at).poll(phase, label, game_kick, snapshot, now);
            p.target_buffer == BufferMode::Stable && p.target_flood == FloodMode::Off
        }),
        !g.blocked(at).unblocked().is_paused(now) <==> now >= 0,
{
}

/// A match and a queue that are not paused are always shielded, with tight buffers; a match has
/// the tightest.
pub proof fn play_is_always_shielded(
    g: GuardView,
    phase: Seq<char>,
    label: Seq<char>,
    game_kick: bool,
    snapshot: JsonView,
    now: i64,
)
    requires
        gaming(phase),
        !g.is_paused(now),
    ensures
        ({
            let p = g.poll(phase, label, game_kick, snapshot, now);
            &&& p.target_flood == FloodMode::Shield
            &&& p.target_buffer == BufferMode::Desync || p.target_buffer == BufferMode::Kick
            &&& phase == "in-match"@ ==> p.target_buffer == BufferMode::Kick
            &&& p.kick_spike ==> p.target_buffer == BufferMode::Kick
        }),
{
}

/// An action that works puts its defense where the poll wants it, so that the same poll asks for
/// nothing more of it.
pub proof fn actions_that_work_reach_their_target(g: GuardView, p: GuardPoll)
    requires
        p.buffer == g.buffer_mode,
        p.flood == g.flood_mode,
        p.gaming ==> p.paused || p.target_buffer != BufferMode::Stable,
    ensures
        g.buffer_action(p) != BufferAction::Keep ==> g.buffer_done(
            p,
            g.buffer_action(p),
            true,
        ).buffer_mode == p.target_buffer,
        g.buffer_action(p) == BufferAction::Keep ==> g.buffer_mode == p.target_buffer,
        g.flood_done(p, g.flood_action(p), true).flood_mode == p.target_flood,
        g.moca_done(p, g.moca_action(p), true).moca_qos_active == (p.gaming && !p.paused),
        g.upload_done(p, g.upload_action(p), true, None).upload_boost_active == (p.gaming
            && !p.paused),
{
}

/// After a release that worked nothing is on.
pub proof fn release_takes_everything_down(g: GuardView, now: i64)
    ensures
        ({
            let h = g.released(true, true, now);
            &&& h.buffer_mode == BufferMode::Stable
            &&& h.flood_mode == FloodMode::Off
            &&& !h.moca_qos_active
            &&& !h.upload_boost_active
        }),
{
}

/// An attack by peers is told by one of its three signals at 0.25 or more, an attack of any kind
/// by one of its own at 0.35 or more: a signal that suffices does so whatever else is seen, and
/// weak signals never do.
pub proof fn attacks_are_told_by_strong_signals(s: Seq<(Seq<char>, int)>, i: int)
    requires
        0 <= i < s.len(),
    ensures
        ({
            let (name, v) = s[i];
            let peer = name == "peer_tiny_flood"@ || name == "peer_micro_burst"@ || name
                == "suspicious_peer"@;
            let unknown = name == "unknown_inbound"@ || name == "unknown_inbound_fanout"@ || name
                == "unknown_inbound_packets"@;
            let flood = name == "inbound_flood"@ || name == "inbound_attack"@ || name
                == "packet_storm"@ || name == "tiny_packet_flood"@ || name == "packet_cheat"@
                || name == "inbound_elevated"@;
            &&& peer && v >= 250_000 ==> peer_attack(s)
            &&& (peer || unknown || flood) && v >= 350_000 ==> attack(s)
            &&& unknown && v >= 350_000 ==> strong(s, unknown_names(), 350_000)
            &&& (forall|k: int| 0 <= k < s.len() ==> (#[trigger] s[k]).1 < 250_000)
                ==> !peer_attack(
                s,
            )
            &&& (forall|k: int| 0 <= k < s.len() ==> (#[trigger] s[k]).1 < 350_000) ==> !attack(s)
            &&& s.len() == 1 ==> (peer_attack(s) <==> peer && v >= 250_000)
            &&& s.len() == 1 ==> (attack(s) <==> (peer || unknown || flood) && v >= 350_000)
        }),
{
    let (name, v) = s[i];
    let p = peer_attack_names();
    let u = unknown_names();
    let a = attack_names();
    assert(p[0] == "peer_tiny_flood"@ && p[1] == "peer_micro_burst"@ && p[2]
        == "suspicious_peer"@);
    assert(u[0] == "unknown_inbound"@ && u[1] == "unknown_inbound_fanout"@ && u[2]
        == "unknown_inbound_packets"@);
    assert(a[0] == "inbound_flood"@ && a[1] == "inbound_attack"@ && a[2] == "packet_storm"@ && a[3]
        == "tiny_packet_flood"@ && a[4] == "packet_cheat"@ && a[5] == "inbound_elevated"@ && a[6]
        == u[0] && a[7] == u[1] && a[8] == u[2] && a[9] == p[0] && a[10] == p[1] && a[11] == p[2]);
    assert(p.len() == 3 && u.len() == 3 && a.len() == 12);
    assert(p.contains(name) <==> name == p[0] || name == p[1] || name == p[2]);
    assert(u.contains(name) <==> name == u[0] || name == u[1] || name == u[2]);
    assert(a.contains(name) <==> name == a[0] || name == a[1] || name == a[2] || name == a[3]
        || name == a[4] || name == a[5] || name == a[6] || name == a[7] || name == a[8] || name
        == a[9] || name == a[10] || name == a[11]);
}

/// Strangers are told by a capture that holds ten of their packets, and more than of the game's.
pub proof fn strangers_are_told_by_counts(snapshot: JsonView, s: Seq<(Seq<char>, int)>)
    requires
        s.len() == 0,
    ensures
        ({
            let m = snapshot.field_in("packetCapture"@, "metrics"@);
            let unknown = uint_or(m->0.field("unknown_inbound_packets"@), 0);
            let game = uint_or(m->0.field("game_inbound_packets"@), 0);
            &&& m is None ==> !non_game_traffic(s, snapshot)
            &&& m is Some ==> (non_game_traffic(s, snapshot) <==> unknown >= 10 && unknown > game)
        }),
{
}

/// How the buffers are set: outside of play, light on a spike or for a lobby called likely,
/// possible or bad, and otherwise at rest; in play never at rest, and tightest in a match, on a
/// spike, and where the line swings by 15 ms.
pub proof fn buffers_follow_the_risk(
    phase: Seq<char>,
    label: Seq<char>,
    kick_spike: bool,
    wan: Seq<i64>,
)
    ensures
        ({
            let play = phase == "matchmaking"@ || phase == "in-match"@;
            let bad = label == "LIKELY"@ || label == "POSSIBLE"@ || label == "USER_BAD"@;
            let idle = idle_buffer(label, kick_spike);
            let game = gaming_buffer(phase, kick_spike, wan);
            &&& idle == BufferMode::Light <==> kick_spike || bad
            &&& idle == BufferMode::Stable <==> !kick_spike && !bad
            &&& game == BufferMode::Stable <==> !play
            &&& play ==> (game == BufferMode::Kick <==> kick_spike || phase == "in-match"@ || (
            wan.len() >= 4 && sample_deviation(last_of(wan, 8)) >= 15_000_000))
            &&& play ==> game == BufferMode::Kick || game == BufferMode::Desync
            &&& flood_target(phase) == FloodMode::Shield <==> phase == "matchmaking"@
            &&& flood_target(phase) == FloodMode::Off <==> phase != "matchmaking"@
        }),
{
    lemma_phase_words();
}

/// How strict the shield is: in a match it lets through what a match needs; a queue with a bad
/// reputation, or with probing peers, is shut to peers, and any other to all but the console's
/// own; elsewhere it is strict on a spike or on strangers, and normal otherwise.
pub proof fn shields_follow_the_risk(
    phase: Seq<char>,
    gate: bool,
    signals: Seq<(Seq<char>, int)>,
    suspicious: nat,
    snapshot: JsonView,
    kick_spike: bool,
)
    ensures
        ({
            let w = shield_word(phase, gate, signals, suspicious, snapshot, kick_spike);
            let queue = phase == "matchmaking"@;
            let in_match = phase == "in-match"@;
            let probed = peer_attack(signals) && suspicious > 0;
            &&& w == "in-match"@ <==> in_match
            &&& w == "peer-strict"@ <==> (queue && gate) || (probed && !in_match)
            &&& w == "console"@ <==> queue && !gate && !probed
            &&& w == "strict"@ <==> !queue && !in_match && !probed && (kick_spike
                || non_game_traffic(signals, snapshot))
            &&& w == "normal"@ <==> !queue && !in_match && !probed && !kick_spike
                && !non_game_traffic(signals, snapshot)
        }),
{
    lemma_phase_words();
    reveal_strlit("in-match");
    reveal_strlit("peer-strict");
    reveal_strlit("console");
    reveal_strlit("strict");
    reveal_strlit("normal");
    assert("in-match"@.len() == 8 && "peer-strict"@.len() == 11 && "console"@.len() == 7
        && "strict"@.len() == 6 && "normal"@.len() == 6);
    assert("strict"@[0] == 's' && "normal"@[0] == 'n');
}

/// A spike is traffic that is fast in itself, 85 Mbps or 900 packets at 20, or that multiplied
/// since the last poll, by five in bytes at 30 Mbps or by four in packets at 15. More bytes never
/// make less of a spike.
pub proof fn spikes_are_sudden_or_fast(prev_bytes: u64, prev_packets: u64, snapshot: JsonView)
    ensures
        ({
            let bytes = sampled(snapshot, "bytesIn"@);
            let packets = sampled(snapshot, "packets"@);
            let w = window(snapshot);
            let at = |mbps: int| 8 * bytes > mbps * w;
            &&& at(85) ==> spike(prev_bytes, prev_packets, snapshot)
            &&& packets > 900 && at(20) ==> spike(prev_bytes, prev_packets, snapshot)
            &&& prev_bytes > 0 && bytes > 5 * prev_bytes && at(30) ==> spike(
                prev_bytes,
                prev_packets,
                snapshot,
            )
            &&& prev_packets > 150 && packets > 4 * prev_packets && at(15) ==> spike(
                prev_bytes,
                prev_packets,
                snapshot,
            )
            &&& w >= 0 && !at(15) ==> !spike(prev_bytes, prev_packets, snapshot)
            &&& !at(85) && packets <= 900 && prev_bytes == 0 && prev_packets <= 150 ==> !spike(
                prev_bytes,
                prev_packets,
                snapshot,
            )
            &&& !at(85) && packets <= 900 && bytes <= 5 * prev_bytes && packets <= 4 * prev_packets
                ==> !spike(prev_bytes, prev_packets, snapshot)
        }),
{
    let bytes = sampled(snapshot, "bytesIn"@);
    let w = window(snapshot);
    assert forall|m: int| #[trigger] faster(bytes, w, m) == (8 * bytes > m * w) by {
        assert((m * 1_000_000) * w == 1_000_000 * (m * w)) by (nonlinear_arith);
    }
    assert(faster(bytes, w, 85) == (8 * bytes > 85 * w));
    assert(faster(bytes, w, 30) == (8 * bytes > 30 * w));
    assert(faster(bytes, w, 20) == (8 * bytes > 20 * w));
    assert(faster(bytes, w, 15) == (8 * bytes > 15 * w));
}

/// What a poll leaves of the guard: it remembers the counts and counts the spike, and after a kick
/// that the game reported it keeps the counts from before.
pub proof fn guards_remember_counts(g: GuardView, snapshot: JsonView, game_kick: bool)
    ensures
        ({
            let h = g.with_counts(snapshot, game_kick);
            let s = spike(g.last_bytes_in, g.last_packets, snapshot);
            &&& game_kick ==> h == g
            &&& !game_kick ==> h.last_bytes_in == sampled(snapshot, "bytesIn"@) && h.last_packets
                == sampled(snapshot, "packets"@)
            &&& !game_kick && s && g.kick_spikes < u32::MAX ==> h.kick_spikes == g.kick_spikes + 1
            &&& !s ==> h.kick_spikes == g.kick_spikes
            &&& h.wan_history == g.wan_history && h.buffer_mode == g.buffer_mode && h.flood_mode
                == g.flood_mode
        }),
{
}

/// A poll sees a spike where the game told of a kick or the traffic shows one, and is in play in
/// queue and match; the guard pauses until its time has come, or while it is stopped.
pub proof fn polls_see_what_is_on(
    g: GuardView,
    phase: Seq<char>,
    label: Seq<char>,
    game_kick: bool,
    snapshot: JsonView,
    now: i64,
)
    ensures
        ({
            let p = g.poll(phase, label, game_kick, snapshot, now);
            &&& p.kick_spike <==> game_kick || spike(g.last_bytes_in, g.last_packets, snapshot)
            &&& p.gaming <==> phase == "matchmaking"@ || phase == "in-match"@
            &&& p.in_match <==> phase == "in-match"@
            &&& p.paused <==> g.defenses_disabled || now < g.pause_until
            &&& p.now == now && p.buffer == g.buffer_mode && p.flood == g.flood_mode
            &&& !p.paused && !p.gaming ==> p.target_buffer == idle_buffer(label, p.kick_spike)
                && p.target_flood == FloodMode::Off
        }),
{
}

/// Nothing is applied again within ninety seconds unless it changed or there is a spike; and what
/// has changed, or is ninety seconds old, is.
pub proof fn settings_are_applied_when_due(g: GuardView, p: GuardPoll)
    ensures
        ({
            let wanted = (p.gaming && !p.paused) || p.target_buffer != BufferMode::Stable;
            let old = p.now - g.last_apply_at > 90_000_000;
            let flood_old = p.now - g.last_flood_at > 90_000_000;
            let play = p.gaming && !p.paused;
            &&& g.buffer_action(p) is Apply <==> wanted && (p.buffer != p.target_buffer || old
                || p.kick_spike)
            &&& g.buffer_action(p) is Restore <==> !wanted && p.buffer != BufferMode::Stable
            &&& g.flood_action(p) is Apply <==> p.target_flood != FloodMode::Off && (p.flood
                != p.target_flood || flood_old || p.kick_spike)
            &&& g.flood_action(p) is Relax <==> p.target_flood == FloodMode::Off && p.flood
                != FloodMode::Off
            &&& g.moca_action(p) == SwitchAction::Apply <==> play && (!g.moca_qos_active || p.now
                - g.last_moca_at > 90_000_000)
            &&& g.moca_action(p) == SwitchAction::Relax <==> !play && g.moca_qos_active
            &&& g.upload_action(p) == SwitchAction::Apply <==> play && (!g.upload_boost_active
                || p.now - g.last_upload_boost_at > 90_000_000)
            &&& g.upload_action(p) == SwitchAction::Relax <==> !play && g.upload_boost_active
        }),
{
}

/// What did not work leaves the guard as it was, and what did is remembered with its time.
pub proof fn only_what_worked_is_remembered(g: GuardView, p: GuardPoll, m: BufferMode, f: FloodMode)
    ensures
        g.buffer_done(p, BufferAction::Apply(m), false) == g,
        g.flood_done(p, FloodAction::Apply(f), false) == g,
        g.flood_done(p, FloodAction::Relax, false) == g,
        g.moca_done(p, SwitchAction::Apply, false) == g,
        g.upload_done(p, SwitchAction::Apply, false, None) == g,
        g.buffer_done(p, BufferAction::Apply(m), true).buffer_mode == m,
        g.buffer_done(p, BufferAction::Apply(m), true).last_apply_at == p.now,
        g.flood_done(p, FloodAction::Apply(f), true).flood_mode == f,
        g.flood_done(p, FloodAction::Apply(f), true).last_flood_at == p.now,
        g.moca_done(p, SwitchAction::Apply, true).moca_qos_active,
        !g.moca_done(p, SwitchAction::Relax, true).moca_qos_active,
        g.upload_done(p, SwitchAction::Apply, true, None).upload_boost_active,
        !g.upload_done(p, SwitchAction::Relax, true, None).upload_boost_active,
        g.firewalla_tuned || m == BufferMode::Kick || m == BufferMode::Desync <==> g.buffer_done(
            p,
            BufferAction::Apply(m),
            true,
        ).firewalla_tuned,
{
}

/// The upload presses from eighty percent of its ceiling on, and where its queue is saturated,
/// holds more than 64 KiB or is graded poor.
pub proof fn uploads_press_near_their_ceiling(
    upload: int,
    shaped: int,
    queues: Option<JsonView>,
)
    requires
        0 < upload <= LIMIT,
        0 < shaped <= LIMIT,
    ensures
        ({
            let a = upload_alerts(upload, shaped, queues);
            let full = upload * 10 > shaped * 8 || upload * 10 == shaped * 8;
            let e = egress_queue(queues)->0;
            let pressed = egress_queue(queues) is Some && (flag_or(e.field("saturated"@), false)
                || uint_or(e.field("backlog_bytes"@), 0) > 65_536 || text_or_empty(
                e.field("buffer_grade"@),
            ) == "poor"@);
            a.len() == (if full {
                1int
            } else {
                0int
            }) + (if pressed {
                1int
            } else {
                0int
            })
        }),
{
    quotients_compare(upload * 100_000_000, shaped, 80_000_000);
}

/// When the guard asks for more: for the queues in play, thirty seconds after a warning; for a
/// warning, a minute after the last; and for a profile in play, 45 seconds after the last.
pub proof fn guards_ask_in_time(g: GuardView, p: GuardPoll)
    ensures
        g.queues_wanted(p) <==> p.gaming && p.now > g.last_upload_warn_at + 30_000_000,
        g.warning_due(p.now) <==> p.now >= g.last_upload_warn_at + 60_000_000,
        g.rqd_wanted(p) <==> p.gaming && !p.paused && p.now >= g.last_rqd_buffer_at + 45_000_000,
{
}

/// Each buffer mode but the resting one has a profile of its name, and a profile names the mode
/// that it stands for.
pub proof fn profiles_name_their_mode(m: BufferMode)
    ensures
        profile_mode(mode_profile(m)) == m,
{
    reveal_strlit("gaming");
    reveal_strlit("light");
    reveal_strlit("desync");
    reveal_strlit("kick");
    assert("gaming"@.len() == 6 && "light"@.len() == 5 && "desync"@.len() == 6 && "kick"@.len()
        == 4 && "gaming"@[0] == 'g' && "desync"@[0] == 'd');
}

/// The floods that are met are told by their mode, each by another word.
pub proof fn flood_modes_have_names(a: FloodMode, b: FloodMode)
    ensures
        flood_word(a) == flood_word(b) ==> a == b,
        flood_word(a) == "off"@ <==> a == FloodMode::Off,
        flood_word(a) == "shield"@ <==> a == FloodMode::Shield,
{
    reveal_strlit("off");
    reveal_strlit("shield");
    reveal_strlit("defend");
    reveal_strlit("harden");
    assert("off"@.len() == 3 && "shield"@.len() == 6 && "defend"@.len() == 6 && "harden"@.len()
        == 6 && "shield"@[0] == 's' && "defend"@[0] == 'd' && "harden"@[0] == 'h');
}

/// A guard that is stopped stays so for a day, and the pause that is left never lasts longer.
pub proof fn pauses_run_out(g: GuardView, now: i64)
    requires
        0 <= now <= LIMIT,
    ensures
        g.blocked(now).defenses_disabled,
        g.blocked(now).pause_until == now + 86_400_000_000,
        g.blocked(now).pause_left(true, now) == 86_400,
        g.pause_left(false, now) == 0,
        !g.unblocked().defenses_disabled,
        g.pause_until <= now ==> g.pause_left(true, now) == 0,
        g.pause_until > now ==> g.pause_left(true, now) * 1_000_000 <= g.pause_until - now < (
        g.pause_left(true, now) + 1) * 1_000_000,
{
}

/// What the guard says it does: each mode of the buffers and of the flood guard has a part of its
/// own, the flood guard only where it is on, and a spike is told at the end.
pub proof fn the_summary_tells_what_is_on(
    buffer: BufferMode,
    flood: FloodMode,
    kick_spike: bool,
    non_game_drop: bool,
    peer_attack: bool,
)
    ensures
        ({
            let p = summary_parts(buffer, flood, kick_spike, non_game_drop, peer_attack);
            &&& p[0] == buffer_part(buffer)
            &&& p.len() == 1 + (if flood == FloodMode::Off {
                0int
            } else {
                1
            }) + (if kick_spike {
                1int
            } else {
                0
            })
            &&& flood != FloodMode::Off ==> p[1] == flood_part(flood, non_game_drop, peer_attack)
            &&& kick_spike ==> p.last() == "kick spike detected — escalated defense"@
        }),
{
}

/// Where a kick comes from: the game, before the traffic.
pub proof fn kicks_come_from_the_game_first(game_kick: bool, kick_spike: bool)
    ensures
        kick_source(game_kick, kick_spike) == "game_state"@ <==> game_kick,
        kick_source(game_kick, kick_spike) == "traffic"@ <==> kick_spike && !game_kick,
        kick_source(game_kick, kick_spike) == "none"@ <==> !kick_spike && !game_kick,
{
    reveal_strlit("game_state");
    reveal_strlit("traffic");
    reveal_strlit("none");
    assert("game_state"@.len() == 10 && "traffic"@.len() == 7 && "none"@.len() == 4);
}

/// A sample hints at lag from seventy percent of the upload on, and where the queue is saturated;
/// it tells the upload where there is any.
pub proof fn samples_hint_at_lag(
    snapshot: JsonView,
    queues: Option<JsonView>,
    upload_mbps: i64,
    util_pct: i64,
    kick_spike: bool,
    in_match: bool,
)
    ensures
        ({
            let r = rqd_sample(snapshot, queues, upload_mbps, util_pct, kick_spike, in_match);
            let e = egress_queue(queues);
            &&& util_pct >= 70_000_000 ==> r.desync_hint
            &&& util_pct < 70_000_000 && e is None ==> !r.desync_hint
            &&& util_pct < 70_000_000 && e is Some ==> (r.desync_hint <==> e->0.field("saturated"@)
                == Some(JsonView::Bool(true)))
            &&& r.egress_mbps is Some <==> upload_mbps > 0
            &&& r.egress_mbps is Some ==> r.egress_mbps->0 == upload_mbps
            &&& r.kick_spike == kick_spike && r.in_match == in_match && r.upload_util_pct
                == util_pct
            &&& e is None ==> r.backlog_bytes is None
        }),
{
}

/// A reply refuses where it says that all is not well, and only then.
pub proof fn replies_refuse_in_so_many_words(resp: JsonView)
    ensures
        refused(resp) <==> resp.field("ok"@) == Some(JsonView::Bool(false)),
{
}

/// The guard is engaged in play, and elsewhere while buffers or flood guard are not at rest.
pub proof fn guards_are_engaged_in_play(g: GuardView, phase: Seq<char>)
    ensures
        g.engaged(phase) <==> phase == "matchmaking"@ || phase == "in-match"@ || g.flood_mode
            != FloodMode::Off || g.buffer_mode != BufferMode::Stable,
{
}

/// What the guard says of a match and a queue: whether their shield is up, before all else.
pub proof fn mitigation_tells_of_the_shield(
    g: GuardView,
    phase: Seq<char>,
    kick_spike: bool,
    paused: bool,
    drop: bool,
    peer: bool,
)
    ensures
        ({
            let m = g.mitigation(phase, kick_spike, paused, drop, peer);
            let shield = g.flood_mode == FloodMode::Shield;
            let off = g.flood_mode == FloodMode::Off;
            &&& phase == "matchmaking"@ && off ==> m
                == "Matchmaking: fast queue — defenses off until attack or bad lobby signals"@
            &&& phase == "matchmaking"@ && shield ==> m
                == "Matchmaking: all inbound P2P blocked — Xbox Live / CoD service ports only"@
            &&& phase == "in-match"@ && shield ==> m
                == "In-match: Warzone + Xbox Live allowlist only — all other inbound dropped"@
            &&& phase == "in-match"@ && !shield ==> m
                == "In-match: detection only — network tuning disabled to protect aim/hit reg"@
            &&& phase != "matchmaking"@ && phase != "in-match"@ && paused ==> m
                == "Defenses paused — monitoring only"@
        }),
{
    lemma_phase_words();
}

/// What the shield does is told by the phase first, then by what it is up against.
pub proof fn shields_are_described_by_phase(
    shielded: bool,
    phase: Seq<char>,
    drop: bool,
    peer: bool,
)
    ensures
        ({
            let d = shield_description(shielded, phase, drop, peer);
            let play = phase == "matchmaking"@ || phase == "in-match"@;
            &&& shielded && phase == "in-match"@ ==> d
                == "In-match — Warzone + Xbox Live CIDRs only; LAN + established; everything else dropped"@
            &&& shielded && phase == "matchmaking"@ ==> d
                == "Matchmaking — all inbound P2P blocked; allowlisted service ports only"@
            &&& !(shielded && play) && peer ==> d
                == "Drops tiny inbound probes from flagged game-peer hosts (often VPS/Vultr)"@
            &&& !(shielded && play) && !peer && drop ==> d
                == "Drops inbound traffic not on Xbox game ports when non-game hosts detected"@
            &&& !(shielded && play) && !peer && !drop ==> d
                == "Drops inbound UDP/TCP ≤79 bytes (kick probes); normal Warzone packets pass"@
        }),
{
    lemma_phase_words();
}

/// What floods are met with is told by the mode, and for the shield by what it is up against,
/// probing peers before strangers.
pub proof fn floods_are_described_by_mode(drop: bool, peer: bool)
    ensures
        flood_part(FloodMode::Off, drop, peer).len() == 0,
        flood_part(FloodMode::Shield, drop, true) == "peer probe shield (VPS/tiny floods)"@,
        flood_part(FloodMode::Shield, true, false) == "packet shield + non-game port drop"@,
        flood_part(FloodMode::Shield, false, false) == "tiny-packet shield (≤79B)"@,
        flood_part(FloodMode::Harden, drop, peer) == "hardened flood guard on game ports"@,
        flood_part(FloodMode::Defend, drop, peer) == "flood guard per-source limits"@,
        flood_description(FloodMode::Off, drop, peer) == "Inactive"@,
        flood_description(FloodMode::Shield, drop, true)
            == "Peer probe shield — drops tiny floods from suspicious player/VPS peers"@,
        flood_description(FloodMode::Shield, true, false)
            == "Packet shield + non-game port drop — only Xbox game ports allowed inbound"@,
        flood_description(FloodMode::Shield, false, false)
            == "Tiny-packet shield (≤79B dropped) — normal game traffic unchanged"@,
{
}

} // verus!
