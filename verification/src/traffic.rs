//! Live traffic: the sampled rates, connections and flows of a snapshot.
use vstd::prelude::*;

use crate::counts::{
    added, count_in, is_ranked, lemma_added_count, name_counts, plus, ranking, sat_add, tally_of,
    Tally,
};
use crate::enrich::{
    classify_endpoint, classify_value, endpoint_role, first_field2, first_field3, get3,
    is_unknown_inbound, item_role, RoleRule,
};
use crate::fixed::{
    as_double, capped, capped_ratio, clamp, clamped, divide, double_of, fmt1, larger,
    lemma_quotient, max_i64, min_i64, nearest, quotient, quotients_compare, round_div, smaller,
    tenths_text, LIMIT, ONE,
};
use crate::json::{
    array_of, bool_or, dup_first, dup_or_null, entry_views, first_of, flag_or, items_or_empty,
    json_views, object, opt_view, or_else, or_null, real_or, str_or_empty, text, text_or_empty,
    u64_or, uint_or, Json, JsonView,
};
use crate::learning::AdaptiveThresholds;
use crate::metrics::InboundBaseline;
use crate::ranks::{largest_first, lemma_placed, place, placed};
use crate::signals::{
    apart, chained, grown, lemma_chained, lemma_link, named, weigh, Findings, FindingsView, Signal,
};
use crate::snapshot::{
    conn_total, connections, gaming, in_and_out_are_compared, in_out_ratio, in_out_ratio_of,
    is_gaming, kpps, kpps_of, lemma_phase_words, mbps, mbps_of, rates_are_true, sampled,
    sampled_of, wan_latency, wan_latency_of, window, window_of,
};
use crate::text::{cat, cat3, dec, dec_int, dec_wide, decimal, decimal_int, lower, lowercase, same};

verus! {

/// The rates, connections and flows of a snapshot. Rates are in millionths of their units.
#[derive(Clone, Copy)]
pub struct SampleMetrics {
    pub inbound_mbps: i64,
    pub outbound_mbps: i64,
    pub inbound_kpps: i64,
    pub total_kpps: i64,
    pub connections: i64,
    pub inbound_conns: u64,
    pub unknown_inbound_conns: u64,
    pub xbox_download_bytes: u64,
    pub xbox_upload_bytes: u64,
    pub in_out_byte_ratio: i64,
    pub wan_latency_ms: Option<i64>,
}

pub open spec fn is_inbound(c: JsonView) -> bool {
    match c.field("direction"@) {
        Some(d) => d.text() == Some("in"@),
        None => false,
    }
}

/// The role that an item carries, even an empty one, else that of its endpoint.
pub open spec fn carried_role(rules: Seq<RoleRule>, c: JsonView) -> Seq<char> {
    match c.field("roleId"@) {
        Some(v) => match v.text() {
            Some(s) => s,
            None => item_role(rules, c),
        },
        None => item_role(rules, c),
    }
}

/// How many connections came in, and how many of these from unknown hosts.
pub open spec fn inbound_counts(rules: Seq<RoleRule>, items: Seq<JsonView>) -> (nat, nat)
    decreases items.len(),
{
    if items.len() == 0 {
        (0, 0)
    } else {
        let before = inbound_counts(rules, items.drop_last());
        let c = items.last();
        if !is_inbound(c) {
            before
        } else if carried_role(rules, c) == "unknown"@ {
            (before.0 + 1, before.1 + 1)
        } else {
            (before.0 + 1, before.1)
        }
    }
}

/// The sum of a field over all items, up to the largest `u64`.
pub open spec fn field_sum(items: Seq<JsonView>, key: Seq<char>) -> u64
    decreases items.len(),
{
    if items.len() == 0 {
        0
    } else {
        plus(field_sum(items.drop_last(), key), uint_or(items.last().field(key), 0))
    }
}

pub open spec fn flows_of(snapshot: JsonView) -> Seq<JsonView> {
    items_or_empty(or_else(snapshot.field("recentFlows"@), snapshot.field("recent_flows"@)))
}

/// What a snapshot says of its sample, its connections and its flows.
pub open spec fn sample_metrics(rules: Seq<RoleRule>, snapshot: JsonView) -> SampleMetrics {
    let w = window(snapshot);
    let bytes_in = sampled(snapshot, "bytesIn"@);
    let bytes_out = sampled(snapshot, "bytesOut"@);
    let packets = sampled(snapshot, "packets"@);
    let conns = inbound_counts(rules, items_or_empty(snapshot.field_in("connections"@, "items"@)));
    let down = field_sum(flows_of(snapshot), "download"@);
    let up = field_sum(flows_of(snapshot), "upload"@);
    SampleMetrics {
        inbound_mbps: mbps(bytes_in, w) as i64,
        outbound_mbps: mbps(bytes_out, w) as i64,
        inbound_kpps: if packets > 0 && bytes_in >= bytes_out {
            kpps(packets, w) as i64
        } else {
            0
        },
        total_kpps: kpps(packets, w) as i64,
        connections: conn_total(snapshot) as i64,
        inbound_conns: conns.0 as u64,
        unknown_inbound_conns: conns.1 as u64,
        xbox_download_bytes: down,
        xbox_upload_bytes: up,
        in_out_byte_ratio: in_out_ratio(down, up) as i64,
        wan_latency_ms: match wan_latency(snapshot) {
            Some(n) => Some(n as i64),
            None => None,
        },
    }
}

fn inbound(c: &Json) -> (r: bool)
    ensures
        r == is_inbound(c@),
{
    match c.get("direction") {
        Some(d) => match d.as_str() {
            Some(s) => same(s, "in"),
            None => false,
        },
        None => false,
    }
}

pub(crate) fn role_carried(rules: &Vec<RoleRule>, c: &Json) -> (r: String)
    ensures
        r@ == carried_role(rules@, c@),
{
    match c.get("roleId") {
        Some(v) => match v.as_str() {
            Some(s) => s.to_owned(),
            None => classify_value(rules, c),
        },
        None => classify_value(rules, c),
    }
}

fn count_inbound(rules: &Vec<RoleRule>, items: Option<&Json>) -> (r: (u64, u64))
    ensures
        r.0 == inbound_counts(rules@, items_or_empty(opt_view(items))).0,
        r.1 == inbound_counts(rules@, items_or_empty(opt_view(items))).1,
{
    let mut all: u64 = 0;
    let mut unknown: u64 = 0;
    if let Some(v) = array_of(items) {
        let mut i: usize = 0;
        while i < v.len()
            invariant
                i <= v.len(),
                all <= i,
                unknown <= i,
                all == inbound_counts(rules@, json_views(v@).take(i as int)).0,
                unknown == inbound_counts(rules@, json_views(v@).take(i as int)).1,
            decreases v.len() - i,
        {
            proof {
                let t = json_views(v@).take(i + 1);
                assert(t.drop_last() =~= json_views(v@).take(i as int));
                assert(t.last() == v@[i as int]@);
            }
            if inbound(&v[i]) {
                all += 1;
                let role = role_carried(rules, &v[i]);
                if is_unknown_inbound(role.as_str()) {
                    unknown += 1;
                }
            }
            i += 1;
        }
        assert(json_views(v@).take(i as int) =~= json_views(v@));
    }
    (all, unknown)
}

fn sum_field(items: Option<&Json>, key: &str) -> (r: u64)
    ensures
        r == field_sum(items_or_empty(opt_view(items)), key@),
{
    let mut n: u64 = 0;
    if let Some(v) = array_of(items) {
        let mut i: usize = 0;
        while i < v.len()
            invariant
                i <= v.len(),
                n == field_sum(json_views(v@).take(i as int), key@),
            decreases v.len() - i,
        {
            proof {
                let t = json_views(v@).take(i + 1);
                assert(t.drop_last() =~= json_views(v@).take(i as int));
                assert(t.last() == v@[i as int]@);
            }
            n = sat_add(n, u64_or(v[i].get(key), 0));
            i += 1;
        }
        assert(json_views(v@).take(i as int) =~= json_views(v@));
    }
    n
}

/// Reads the sample, the connections and the flows of a snapshot.
pub fn collect_sample_metrics(rules: &Vec<RoleRule>, snapshot: &Json) -> (r: SampleMetrics)
    ensures
        r == sample_metrics(rules@, snapshot@),
        0 <= r.inbound_mbps <= LIMIT,
        0 <= r.outbound_mbps <= LIMIT,
        0 <= r.total_kpps <= LIMIT,
        0 <= r.in_out_byte_ratio <= LIMIT,
{
    let w: i64 = window_of(snapshot);
    let bytes_in: u64 = sampled_of(snapshot, "bytesIn");
    let bytes_out: u64 = sampled_of(snapshot, "bytesOut");
    let packets: u64 = sampled_of(snapshot, "packets");
    let (inbound_conns, unknown) = count_inbound(rules, snapshot.get_in("connections", "items"));
    let flows = snapshot.get_either("recentFlows", "recent_flows");
    let down: u64 = sum_field(flows, "download");
    let up: u64 = sum_field(flows, "upload");
    let total_kpps = kpps_of(packets, w);
    SampleMetrics {
        inbound_mbps: mbps_of(bytes_in, w),
        outbound_mbps: mbps_of(bytes_out, w),
        inbound_kpps: if packets > 0 && bytes_in >= bytes_out {
            total_kpps
        } else {
            0
        },
        total_kpps,
        connections: connections(snapshot),
        inbound_conns,
        unknown_inbound_conns: unknown,
        xbox_download_bytes: down,
        xbox_upload_bytes: up,
        in_out_byte_ratio: in_out_ratio_of(down, up),
        wan_latency_ms: wan_latency_of(snapshot),
    }
}

// ---------------------------------------------------------------------------------------------
// Inbound analysis

/// What the rates are held against.
#[derive(Clone, Copy)]
pub struct BaseRates {
    pub inbound: i64,
    pub connections: i64,
    pub kpps: i64,
}

/// The learned baseline, or general values where nothing was learned; no rate is taken as 0.
pub open spec fn base_rates(baseline: Option<InboundBaseline>) -> BaseRates {
    match baseline {
        Some(b) => BaseRates {
            inbound: larger(b.inbound_mbps as int, 100_000) as i64,
            connections: b.connections,
            kpps: larger(b.total_kpps as int, 10_000) as i64,
        },
        None => BaseRates { inbound: 5_000_000, connections: 40_000_000, kpps: 80_000 },
    }
}

fn rates(baseline: Option<&InboundBaseline>) -> (r: BaseRates)
    ensures
        r == base_rates(opt_baseline(baseline)),
        r.inbound >= 100_000,
        r.kpps >= 10_000,
{
    match baseline {
        Some(b) => BaseRates {
            inbound: max_i64(b.inbound_mbps, 100_000),
            connections: b.connections,
            kpps: max_i64(b.total_kpps, 10_000),
        },
        None => BaseRates { inbound: 5_000_000, connections: 40_000_000, kpps: 80_000 },
    }
}

/// `x / n` in millionths, at most `cap`.
pub open spec fn share_of(x: int, n: int, cap: int) -> int {
    smaller(quotient(x, n), cap)
}

pub(crate) fn share(x: i64, n: i64, cap: i64) -> (r: i64)
    requires
        x >= 0,
        n > 0,
    ensures
        r == share_of(x as int, n as int, cap as int),
{
    proof {
        assert(x <= x * n) by (nonlinear_arith)
            requires
                x >= 0,
                n >= 1,
        ;
        lemma_quotient(x as int, n as int, 0, x as int);
    }
    min_i64(divide(x as i128, n as i128) as i64, cap)
}

/// How many times the baseline the rate is, rounded to the nearest integer, halves up.
pub open spec fn times_baseline(rate: int, base: int) -> int {
    (2 * rate + base) / (2 * base)
}

/// A rate far above the baseline.
pub open spec fn rate_noted(
    f: FindingsView,
    m: SampleMetrics,
    base: BaseRates,
    th: AdaptiveThresholds,
) -> FindingsView {
    if m.inbound_mbps > th.inbound_mbps_bad && m.inbound_mbps > base.inbound * 4 && m.inbound_mbps
        * 2 > m.outbound_mbps * 5 {
        f.noted(
            280_000,
            "inbound_flood"@,
            share_of(m.inbound_mbps as int, 80, ONE as int),
            "Inbound flood "@ + tenths_text(m.inbound_mbps as int) + " Mbps ("@ + decimal(
                times_baseline(m.inbound_mbps as int, base.inbound as int) as nat,
            ) + "× baseline) — lag-comp / shadow-pool download burst"@,
        )
    } else if m.inbound_mbps > th.inbound_mbps_elevated && m.inbound_mbps * 2 > base.inbound * 5 {
        f.noted(
            140_000,
            "inbound_elevated"@,
            share_of(m.inbound_mbps as int, 40, 850_000),
            "Elevated inbound "@ + tenths_text(m.inbound_mbps as int) + " Mbps vs your "@
                + tenths_text(base.inbound as int) + " Mbps baseline"@,
        )
    } else {
        f
    }
}

fn note_rate(f: &mut Findings, m: &SampleMetrics, base: &BaseRates, th: &AdaptiveThresholds)
    requires
        -ONE <= old(f)@.score <= 10 * ONE,
        0 <= m.inbound_mbps <= LIMIT,
        0 <= m.outbound_mbps <= LIMIT,
        base.inbound >= 100_000,
    ensures
        final(f)@ == rate_noted(old(f)@, *m, *base, *th),
{
    if m.inbound_mbps > th.inbound_mbps_bad && m.inbound_mbps as i128 > base.inbound as i128 * 4
        && m.inbound_mbps * 2 > m.outbound_mbps * 5 {
        let mut s = "Inbound flood ".to_owned();
        s.append(fmt1(m.inbound_mbps).as_str());
        s.append(" Mbps (");
        let times: u128 = (2 * m.inbound_mbps as u128 + base.inbound as u128) / (2
            * base.inbound as u128);
        s.append(dec_wide(times).as_str());
        s.append("× baseline) — lag-comp / shadow-pool download burst");
        f.note(280_000, "inbound_flood", share(m.inbound_mbps, 80, ONE), s);
    } else if m.inbound_mbps > th.inbound_mbps_elevated && m.inbound_mbps as i128 * 2
        > base.inbound as i128 * 5 {
        let mut s = "Elevated inbound ".to_owned();
        s.append(fmt1(m.inbound_mbps).as_str());
        s.append(" Mbps vs your ");
        s.append(fmt1(base.inbound).as_str());
        s.append(" Mbps baseline");
        f.note(140_000, "inbound_elevated", share(m.inbound_mbps, 40, 850_000), s);
    }
}

/// Too many packets, and too many connections.
pub open spec fn surge_noted(f: FindingsView, m: SampleMetrics, base: BaseRates) -> FindingsView {
    let f1 = if m.total_kpps > base.kpps * 8 && m.total_kpps > 3_000_000 && m.connections
        * 10_000_000 > base.connections * 18 {
        f.noted(
            180_000,
            "packet_storm"@,
            share_of(m.total_kpps as int, 8, ONE as int),
            "Packet storm "@ + tenths_text(m.total_kpps as int) + " kpps with "@ + decimal_int(
                m.connections as int,
            ) + " connections — abnormal lobby load"@,
        )
    } else {
        f
    };
    if m.connections > 120 {
        f1.noted(
            160_000,
            "connection_surge"@,
            smaller((m.connections - 80) * 12_500, ONE as int),
            decimal_int(m.connections as int)
                + " active connections — lobby/boot surge pattern"@,
        )
    } else {
        f1
    }
}

fn note_surge(f: &mut Findings, m: &SampleMetrics, base: &BaseRates)
    requires
        -ONE <= old(f)@.score <= 10 * ONE,
        0 <= m.total_kpps <= LIMIT,
        base.kpps >= 10_000,
    ensures
        final(f)@ == surge_noted(old(f)@, *m, *base),
{
    if m.total_kpps as i128 > base.kpps as i128 * 8 && m.total_kpps > 3_000_000
        && m.connections as i128 * 10_000_000 > base.connections as i128 * 18 {
        let mut s = "Packet storm ".to_owned();
        s.append(fmt1(m.total_kpps).as_str());
        s.append(" kpps with ");
        s.append(dec_int(m.connections).as_str());
        s.append(" connections — abnormal lobby load");
        f.note(180_000, "packet_storm", share(m.total_kpps, 8, ONE), s);
    }
    if m.connections > 120 {
        let n = dec_int(m.connections);
        let s = cat(n.as_str(), " active connections — lobby/boot surge pattern");
        let strength: i64 = if m.connections >= 160 {
            ONE
        } else {
            (m.connections - 80) * 12_500
        };
        f.note(160_000, "connection_surge", strength, s);
    }
}

/// Inbound sockets from unknown hosts.
pub open spec fn sockets_noted(f: FindingsView, m: SampleMetrics) -> FindingsView {
    let unknown = m.unknown_inbound_conns as nat;
    if m.inbound_conns >= 8 && unknown >= 4 {
        f.noted(
            200_000,
            "unknown_inbound_fanout"@,
            capped_ratio(unknown, 12),
            decimal(unknown) + " inbound sockets from unknown hosts — peer relay / shadow pool"@,
        )
    } else if m.inbound_conns >= 5 && unknown >= 2 {
        f.noted(
            100_000,
            "unknown_inbound"@,
            500_000,
            "Inbound from "@ + decimal(unknown) + " unidentified remotes"@,
        )
    } else {
        f
    }
}

fn note_sockets(f: &mut Findings, m: &SampleMetrics)
    requires
        -ONE <= old(f)@.score <= 10 * ONE,
    ensures
        final(f)@ == sockets_noted(old(f)@, *m),
{
    let unknown: u64 = m.unknown_inbound_conns;
    if m.inbound_conns >= 8 && unknown >= 4 {
        let n = dec(unknown);
        let s = cat(
            n.as_str(),
            " inbound sockets from unknown hosts — peer relay / shadow pool",
        );
        f.note(200_000, "unknown_inbound_fanout", capped(unknown, 12), s);
    } else if m.inbound_conns >= 5 && unknown >= 2 {
        let n = dec(unknown);
        let s = cat3("Inbound from ", n.as_str(), " unidentified remotes");
        f.note(100_000, "unknown_inbound", 500_000, s);
    }
}

/// The console receives far more than it sends.
pub open spec fn flows_noted(
    f: FindingsView,
    m: SampleMetrics,
    th: AdaptiveThresholds,
) -> FindingsView {
    if m.in_out_byte_ratio > th.in_out_ratio_bad && m.xbox_download_bytes > 512_000 {
        f.noted(
            160_000,
            "inbound_asymmetry"@,
            share_of(m.in_out_byte_ratio as int, 8, ONE as int),
            "Download/upload ratio "@ + tenths_text(m.in_out_byte_ratio as int)
                + "× — receiving heavy lobby sync traffic"@,
        )
    } else {
        f
    }
}

fn note_flows(f: &mut Findings, m: &SampleMetrics, th: &AdaptiveThresholds)
    requires
        -ONE <= old(f)@.score <= 10 * ONE,
        0 <= m.in_out_byte_ratio <= LIMIT,
    ensures
        final(f)@ == flows_noted(old(f)@, *m, *th),
{
    if m.in_out_byte_ratio > th.in_out_ratio_bad && m.xbox_download_bytes > 512_000 {
        let n = fmt1(m.in_out_byte_ratio);
        let s = cat3(
            "Download/upload ratio ",
            n.as_str(),
            "× — receiving heavy lobby sync traffic",
        );
        f.note(160_000, "inbound_asymmetry", share(m.in_out_byte_ratio, 8, ONE), s);
    }
}

/// The bytes that each role sent to the console.
pub open spec fn role_downloads(rules: Seq<RoleRule>, flows: Seq<JsonView>) -> Seq<(Seq<char>, u64)>
    decreases flows.len(),
{
    if flows.len() == 0 {
        Seq::empty()
    } else {
        let before = role_downloads(rules, flows.drop_last());
        let f = flows.last();
        let down = uint_or(f.field("download"@), 0);
        if down == 0 {
            before
        } else {
            added(before, flow_role(rules, f), down)
        }
    }
}

/// The role of a flow's remote.
pub open spec fn flow_role(rules: Seq<RoleRule>, f: JsonView) -> Seq<char> {
    endpoint_role(
        rules,
        text_or_empty(f.field("remote"@)),
        text_or_empty(first_field2(f, "hostname"@, "label"@)),
        None,
        ""@,
    )
}

fn role_of_flow(rules: &Vec<RoleRule>, f: &Json) -> (r: String)
    ensures
        r@ == flow_role(rules@, f@),
{
    classify_endpoint(
        rules,
        str_or_empty(f.get("remote")),
        str_or_empty(f.get_either("hostname", "label")),
    )
}

fn downloads_by_role(rules: &Vec<RoleRule>, flows: Option<&Json>) -> (r: Tally)
    ensures
        r@ == role_downloads(rules@, items_or_empty(opt_view(flows))),
{
    let mut t = Tally::new();
    if let Some(v) = array_of(flows) {
        let mut i: usize = 0;
        while i < v.len()
            invariant
                i <= v.len(),
                t@ == role_downloads(rules@, json_views(v@).take(i as int)),
            decreases v.len() - i,
        {
            proof {
                let u = json_views(v@).take(i + 1);
                assert(u.drop_last() =~= json_views(v@).take(i as int));
                assert(u.last() == v@[i as int]@);
            }
            let down: u64 = u64_or(v[i].get("download"), 0);
            if down != 0 {
                let role = role_of_flow(rules, &v[i]);
                t.add_n(role.as_str(), down);
            }
            i += 1;
        }
        assert(json_views(v@).take(i as int) =~= json_views(v@));
    }
    t
}

/// Telemetry above the game's own traffic, a quiet pool with heavy inbound, and heavy receiving
/// during a match.
pub open spec fn roles_noted(
    f: FindingsView,
    m: SampleMetrics,
    base: BaseRates,
    downloads: Seq<(Seq<char>, u64)>,
    phase: Seq<char>,
) -> FindingsView {
    let telemetry = count_in(downloads, "telemetry"@);
    let game = plus(count_in(downloads, "warzone-game"@), count_in(downloads, "game-assets"@));
    let f1 = if phase == "in-match"@ && telemetry > 256_000 && telemetry > game {
        f.noted(
            180_000,
            "inbound_telemetry_spike"@,
            750_000,
            "Heavy inbound anti-cheat telemetry download — suspicious lobby telemetry"@,
        )
    } else {
        f
    };
    let f2 = if phase == "matchmaking"@ && 18 <= m.connections <= 45 && m.inbound_mbps
        > base.inbound * 2 && m.xbox_download_bytes > 128_000 {
        f1.noted(
            220_000,
            "quiet_pool_inbound"@,
            700_000,
            "Quiet matchmaking pool ("@ + decimal_int(m.connections as int)
                + " conns) with heavy inbound "@ + tenths_text(m.inbound_mbps as int)
                + " Mbps — cheater lobby pattern"@,
        )
    } else {
        f1
    };
    if phase == "in-match"@ && m.inbound_mbps > 15_000_000 && m.outbound_mbps < 3_000_000 {
        f2.noted(
            120_000,
            "inbound_heavy_outbound_light"@,
            550_000,
            "In-match: high inbound, low outbound — passive receive / lag-comp lobby"@,
        )
    } else {
        f2
    }
}

fn note_roles(
    f: &mut Findings,
    m: &SampleMetrics,
    base: &BaseRates,
    downloads: &Tally,
    phase: &str,
)
    requires
        -ONE <= old(f)@.score <= 10 * ONE,
        0 <= m.inbound_mbps <= LIMIT,
    ensures
        final(f)@ == roles_noted(old(f)@, *m, *base, downloads@, phase@),
{
    let telemetry: u64 = downloads.count("telemetry");
    let game: u64 = sat_add(downloads.count("warzone-game"), downloads.count("game-assets"));
    if same(phase, "in-match") && telemetry > 256_000 && telemetry > game {
        f.note(
            180_000,
            "inbound_telemetry_spike",
            750_000,
            "Heavy inbound anti-cheat telemetry download — suspicious lobby telemetry".to_owned(),
        );
    }
    if same(phase, "matchmaking") && m.connections >= 18 && m.connections <= 45
        && m.inbound_mbps as i128 > base.inbound as i128 * 2 && m.xbox_download_bytes > 128_000 {
        let mut s = "Quiet matchmaking pool (".to_owned();
        s.append(dec_int(m.connections).as_str());
        s.append(" conns) with heavy inbound ");
        s.append(fmt1(m.inbound_mbps).as_str());
        s.append(" Mbps — cheater lobby pattern");
        f.note(220_000, "quiet_pool_inbound", 700_000, s);
    }
    if same(phase, "in-match") && m.inbound_mbps > 15_000_000 && m.outbound_mbps < 3_000_000 {
        f.note(
            120_000,
            "inbound_heavy_outbound_light",
            550_000,
            "In-match: high inbound, low outbound — passive receive / lag-comp lobby".to_owned(),
        );
    }
}

/// What an inbound analysis is based on.
pub struct InboundMetrics {
    pub sample: SampleMetrics,
    pub base: BaseRates,
    pub download_by_role: Tally,
}

/// The result of an inbound analysis. The score is in millionths.
pub struct InboundAnalysis {
    pub score: i64,
    pub signals: Vec<Signal>,
    pub alerts: Vec<String>,
    pub verdict: &'static str,
    pub metrics: Option<InboundMetrics>,
}

impl InboundAnalysis {
    /// Score, signals and alerts of the analysis.
    pub open spec fn findings(self) -> FindingsView {
        (Findings { score: self.score, signals: self.signals, alerts: self.alerts })@
    }
}

/// Everything that a snapshot's inbound traffic shows, before the score is cut to its range.
pub open spec fn inbound_findings(
    rules: Seq<RoleRule>,
    snapshot: JsonView,
    phase: Seq<char>,
    base: BaseRates,
    th: AdaptiveThresholds,
) -> FindingsView {
    let m = sample_metrics(rules, snapshot);
    let f = rate_noted(FindingsView::none(), m, base, th);
    let f = surge_noted(f, m, base);
    let f = sockets_noted(f, m);
    let f = flows_noted(f, m, th);
    roles_noted(f, m, base, role_downloads(rules, flows_of(snapshot)), phase)
}

pub open spec fn inbound_verdict(score: int) -> Seq<char> {
    if score >= 450_000 {
        "likely_cheater_traffic"@
    } else if score >= 180_000 {
        "suspicious_inbound"@
    } else {
        "normal_inbound"@
    }
}

/// `r` is the analysis of a snapshot's inbound traffic.
#[verifier::opaque]
pub open spec fn is_inbound_analysis(
    r: InboundAnalysis,
    rules: Seq<RoleRule>,
    snapshot: JsonView,
    phase: Seq<char>,
    base: BaseRates,
    th: AdaptiveThresholds,
) -> bool {
    if gaming(phase) {
        let f = inbound_findings(rules, snapshot, phase, base, th);
        &&& r.score == clamped(f.score, 0, ONE as int)
        &&& r.findings().signals == f.signals
        &&& r.findings().alerts == f.alerts
        &&& r.verdict@ == inbound_verdict(r.score as int)
        &&& r.metrics is Some
        &&& r.metrics->0.sample == sample_metrics(rules, snapshot)
        &&& r.metrics->0.base == base
        &&& r.metrics->0.download_by_role@ == role_downloads(rules, flows_of(snapshot))
    } else {
        &&& r.findings() == (FindingsView {
            score: 0,
            signals: Seq::empty(),
            alerts: seq!["Not in lobby or match — inbound analysis idle"@],
        })
        &&& r.verdict@ == "idle"@
        &&& r.metrics is None
    }
}

pub open spec fn opt_baseline(b: Option<&InboundBaseline>) -> Option<InboundBaseline> {
    match b {
        Some(x) => Some(*x),
        None => None,
    }
}

/// Analyses inbound packets and flows for the signs of a cheater lobby.
pub fn analyze_inbound(
    rules: &Vec<RoleRule>,
    snapshot: &Json,
    phase: &str,
    baseline: Option<&InboundBaseline>,
    th: &AdaptiveThresholds,
) -> (r: InboundAnalysis)
    ensures
        is_inbound_analysis(
            r,
            rules@,
            snapshot@,
            phase@,
            base_rates(opt_baseline(baseline)),
            *th,
        ),
        0 <= r.score <= ONE,
{
    proof {
        reveal(is_inbound_analysis);
    }
    if !is_gaming(phase) {
        let mut alerts: Vec<String> = Vec::new();
        alerts.push("Not in lobby or match — inbound analysis idle".to_owned());
        let r = InboundAnalysis {
            score: 0,
            signals: Vec::new(),
            alerts,
            verdict: "idle",
            metrics: None,
        };
        assert(r.findings() =~= FindingsView {
            score: 0,
            signals: Seq::empty(),
            alerts: seq!["Not in lobby or match — inbound analysis idle"@],
        });
        return r;
    }
    let m = collect_sample_metrics(rules, snapshot);
    let base = rates(baseline);
    let mut f = Findings::new();
    note_rate(&mut f, &m, &base, th);
    note_surge(&mut f, &m, &base);
    note_sockets(&mut f, &m);
    note_flows(&mut f, &m, th);
    let downloads = downloads_by_role(rules, snapshot.get_either("recentFlows", "recent_flows"));
    note_roles(&mut f, &m, &base, &downloads, phase);
    let score = clamp(f.score, 0, ONE);
    let verdict = if score >= 450_000 {
        "likely_cheater_traffic"
    } else if score >= 180_000 {
        "suspicious_inbound"
    } else {
        "normal_inbound"
    };
    InboundAnalysis {
        score,
        signals: f.signals,
        alerts: f.alerts,
        verdict,
        metrics: Some(InboundMetrics { sample: m, base, download_by_role: downloads }),
    }
}

// ---------------------------------------------------------------------------------------------
// Inspection

/// The connections of a snapshot: its items, or the folded ones where it has none.
pub open spec fn connection_list(snapshot: JsonView) -> Seq<JsonView> {
    let items = items_or_empty(snapshot.field_in("connections"@, "items"@));
    if items.len() > 0 {
        items
    } else {
        items_or_empty(snapshot.field_in("connections"@, "folded"@))
    }
}

pub open spec fn text_or_null(s: Seq<char>) -> JsonView {
    if s.len() == 0 {
        JsonView::Null
    } else {
        JsonView::Str(s)
    }
}

/// The row of a connection.
pub open spec fn conn_row_view(rules: Seq<RoleRule>, c: JsonView) -> JsonView {
    JsonView::Obj(
        seq![
            (
                "direction"@,
                match c.field("direction"@) {
                    Some(d) => d,
                    None => JsonView::Str("out"@),
                },
            ),
            ("proto"@, or_null(c.field("proto"@))),
            ("state"@, or_null(c.field("state"@))),
            (
                "hostname"@,
                text_or_null(
                    text_or_empty(first_field3(c, "hostname"@, "label"@, "host"@)),
                ),
            ),
            ("role"@, JsonView::Str(carried_role(rules, c))),
            ("remote"@, or_null(c.field("remote"@))),
            ("ip"@, or_null(c.field("ip"@))),
            ("port"@, or_null(c.field("port"@))),
            ("scope"@, or_null(c.field("scope"@))),
            ("latency_ms"@, or_null(c.field("latencyMs"@))),
            ("local"@, or_null(c.field("local"@))),
        ],
    )
}

fn str_or_null(s: &str) -> (r: Json)
    ensures
        r@ == text_or_null(s@),
{
    if s.is_empty() {
        Json::Null
    } else {
        text(s)
    }
}

/// The row of a connection.
pub fn conn_row(rules: &Vec<RoleRule>, c: &Json) -> (r: Json)
    ensures
        r@ == conn_row_view(rules@, c@),
{
    let direction = match c.get("direction") {
        Some(d) => d.dup(),
        None => text("out"),
    };
    let host = str_or_null(str_or_empty(get3(c, "hostname", "label", "host")));
    let role = role_carried(rules, c);
    let mut e: Vec<(String, Json)> = Vec::new();
    e.push(("direction".to_owned(), direction));
    e.push(("proto".to_owned(), dup_or_null(c.get("proto"))));
    e.push(("state".to_owned(), dup_or_null(c.get("state"))));
    e.push(("hostname".to_owned(), host));
    e.push(("role".to_owned(), Json::Str(role)));
    e.push(("remote".to_owned(), dup_or_null(c.get("remote"))));
    e.push(("ip".to_owned(), dup_or_null(c.get("ip"))));
    e.push(("port".to_owned(), dup_or_null(c.get("port"))));
    e.push(("scope".to_owned(), dup_or_null(c.get("scope"))));
    e.push(("latency_ms".to_owned(), dup_or_null(c.get("latencyMs"))));
    e.push(("local".to_owned(), dup_or_null(c.get("local"))));
    assert(entry_views(e@) =~= conn_row_view(rules@, c@)->Obj_0);
    object(e)
}

/// The row of a flow.
pub open spec fn flow_row_view(rules: Seq<RoleRule>, f: JsonView) -> JsonView {
    JsonView::Obj(
        seq![
            ("direction"@, or_null(f.field("direction"@))),
            (
                "hostname"@,
                text_or_null(text_or_empty(first_field2(f, "hostname"@, "label"@))),
            ),
            ("role"@, JsonView::Str(flow_role(rules, f))),
            ("remote"@, or_null(f.field("remote"@))),
            ("category"@, or_null(f.field("category"@))),
            ("upload_bytes"@, or_null(f.field("upload"@))),
            ("download_bytes"@, or_null(f.field("download"@))),
            ("duration_sec"@, or_null(f.field("duration"@))),
            ("timestamp"@, or_null(f.field("timestamp"@))),
        ],
    )
}

/// The row of a flow.
pub fn flow_row(rules: &Vec<RoleRule>, f: &Json) -> (r: Json)
    ensures
        r@ == flow_row_view(rules@, f@),
{
    let host = str_or_null(str_or_empty(f.get_either("hostname", "label")));
    let role = role_of_flow(rules, f);
    let mut e: Vec<(String, Json)> = Vec::new();
    e.push(("direction".to_owned(), dup_or_null(f.get("direction"))));
    e.push(("hostname".to_owned(), host));
    e.push(("role".to_owned(), Json::Str(role)));
    e.push(("remote".to_owned(), dup_or_null(f.get("remote"))));
    e.push(("category".to_owned(), dup_or_null(f.get("category"))));
    e.push(("upload_bytes".to_owned(), dup_or_null(f.get("upload"))));
    e.push(("download_bytes".to_owned(), dup_or_null(f.get("download"))));
    e.push(("duration_sec".to_owned(), dup_or_null(f.get("duration"))));
    e.push(("timestamp".to_owned(), dup_or_null(f.get("timestamp"))));
    assert(entry_views(e@) =~= flow_row_view(rules@, f@)->Obj_0);
    object(e)
}

/// The connections of one direction, in order.
pub open spec fn conns_of(items: Seq<JsonView>, inbound: bool) -> Seq<JsonView>
    decreases items.len(),
{
    if items.len() == 0 {
        Seq::empty()
    } else {
        let before = conns_of(items.drop_last(), inbound);
        if is_inbound(items.last()) == inbound {
            before.push(items.last())
        } else {
            before
        }
    }
}

pub open spec fn conn_rows(rules: Seq<RoleRule>, items: Seq<JsonView>) -> Seq<JsonView> {
    items.map_values(|c: JsonView| conn_row_view(rules, c))
}

pub open spec fn carried_roles(rules: Seq<RoleRule>, items: Seq<JsonView>) -> Seq<Seq<char>> {
    items.map_values(|c: JsonView| carried_role(rules, c))
}

/// The rows of the flows with bytes under `key`, most bytes first, equal ones in their order.
pub open spec fn flow_ranking(
    rules: Seq<RoleRule>,
    flows: Seq<JsonView>,
    key: Seq<char>,
) -> Seq<(u64, JsonView)>
    decreases flows.len(),
{
    if flows.len() == 0 {
        Seq::empty()
    } else {
        let before = flow_ranking(rules, flows.drop_last(), key);
        let bytes = uint_or(flows.last().field(key), 0);
        if bytes > 0 {
            placed(before, (bytes, flow_row_view(rules, flows.last())))
        } else {
            before
        }
    }
}

/// The ranked flows come with the most bytes first.
pub proof fn flow_ranking_is_largest_first(
    rules: Seq<RoleRule>,
    flows: Seq<JsonView>,
    key: Seq<char>,
)
    ensures
        largest_first(flow_ranking(rules, flows, key)),
    decreases flows.len(),
{
    if flows.len() > 0 {
        flow_ranking_is_largest_first(rules, flows.drop_last(), key);
        let bytes = uint_or(flows.last().field(key), 0);
        lemma_placed(
            flow_ranking(rules, flows.drop_last(), key),
            (bytes, flow_row_view(rules, flows.last())),
        );
    }
}

pub open spec fn keyed_views(v: Seq<(u64, Json)>) -> Seq<(u64, JsonView)> {
    v.map_values(|e: (u64, Json)| (e.0, e.1@))
}

pub(crate) proof fn lemma_keyed_placed(s: Seq<(u64, Json)>, x: (u64, Json))
    ensures
        keyed_views(placed(s, x)) == placed(keyed_views(s), (x.0, x.1@)),
    decreases s.len(),
{
    let v = keyed_views(s);
    if s.len() > 0 {
        lemma_keyed_placed(s.skip(1), x);
        assert(v.skip(1) =~= keyed_views(s.skip(1)));
        assert(v[0].0 == s[0].0);
    }
    assert(keyed_views(placed(s, x)) =~= placed(v, (x.0, x.1@)));
}

fn rank_flows(rules: &Vec<RoleRule>, flows: Option<&Json>, key: &str) -> (r: Vec<(u64, Json)>)
    ensures
        keyed_views(r@) == flow_ranking(rules@, items_or_empty(opt_view(flows)), key@),
{
    let mut out: Vec<(u64, Json)> = Vec::new();
    assert(keyed_views(out@) =~= Seq::empty());
    if let Some(v) = array_of(flows) {
        let mut i: usize = 0;
        while i < v.len()
            invariant
                i <= v.len(),
                keyed_views(out@) == flow_ranking(rules@, json_views(v@).take(i as int), key@),
            decreases v.len() - i,
        {
            proof {
                let t = json_views(v@).take(i + 1);
                assert(t.drop_last() =~= json_views(v@).take(i as int));
                assert(t.last() == v@[i as int]@);
            }
            let bytes: u64 = u64_or(v[i].get(key), 0);
            if bytes > 0 {
                let row = flow_row(rules, &v[i]);
                proof {
                    lemma_keyed_placed(out@, (bytes, row));
                }
                place(&mut out, bytes, row);
            }
            i += 1;
        }
        assert(json_views(v@).take(i as int) =~= json_views(v@));
    }
    out
}

/// Which rows an inspection lists.
pub open spec fn selected<A>(want: Seq<char>, out: Seq<A>, inb: Seq<A>) -> Seq<A> {
    if want == "in"@ {
        inb
    } else if want == "all"@ {
        out + inb
    } else {
        out
    }
}

pub open spec fn rows_only(s: Seq<(u64, JsonView)>) -> Seq<JsonView> {
    s.map_values(|e: (u64, JsonView)| e.1)
}

/// What an inspection of a snapshot reports.
pub struct TrafficReport {
    pub direction: String,
    pub connections_total: u64,
    pub connections_shown: u64,
    pub connections_truncated: bool,
    pub connections_out: u64,
    pub connections_in: u64,
    pub connections_list: u64,
    pub flows_with_upload: u64,
    pub flows_with_download: u64,
    pub xbox_upload_bytes: u64,
    pub xbox_download_bytes: u64,
    /// The roles of the listed connections, most frequent first.
    pub by_role: Vec<(String, u64)>,
    /// At most 96 connections.
    pub connections: Vec<Json>,
    /// At most 48 flows.
    pub flows: Vec<Json>,
}

/// `r` reports on a snapshot for the direction `want`.
pub open spec fn reports(
    r: TrafficReport,
    rules: Seq<RoleRule>,
    snapshot: JsonView,
    want: Seq<char>,
) -> bool {
    let all = connection_list(snapshot);
    let out = conns_of(all, false);
    let inb = conns_of(all, true);
    let listed = selected(want, out, inb);
    let up = flow_ranking(rules, flows_of(snapshot), "upload"@);
    let down = flow_ranking(rules, flows_of(snapshot), "download"@);
    let total = uint_or(snapshot.field_in("connections"@, "count"@), all.len() as u64);
    &&& r.direction@ == want
    &&& r.connections_total == total
    &&& r.connections_shown == all.len()
    &&& r.connections_truncated == flag_or(
        snapshot.field_in("connections"@, "truncated"@),
        total > all.len(),
    )
    &&& r.connections_out == out.len()
    &&& r.connections_in == inb.len()
    &&& r.connections_list == listed.len()
    &&& r.flows_with_upload == up.len()
    &&& r.flows_with_download == down.len()
    &&& r.xbox_upload_bytes == field_sum(flows_of(snapshot), "upload"@)
    &&& r.xbox_download_bytes == field_sum(flows_of(snapshot), "download"@)
    &&& is_ranked(name_counts(r.by_role@))
    &&& name_counts(r.by_role@).to_multiset() == tally_of(
        carried_roles(rules, listed),
    ).to_multiset()
    &&& json_views(r.connections@) == first_of(conn_rows(rules, listed), 96)
    &&& json_views(r.flows@) == first_of(selected(want, rows_only(up), rows_only(down)), 48)
}

fn push_conns<'a>(items: &'a Vec<Json>, inb: bool, out: &mut Vec<&'a Json>)
    requires
        json_views(items@).len() == items.len(),
    ensures
        ref_views(final(out)@) == ref_views(old(out)@) + conns_of(json_views(items@), inb),
{
    let mut i: usize = 0;
    assert(ref_views(out@) =~= ref_views(old(out)@) + conns_of(json_views(items@).take(0), inb));
    while i < items.len()
        invariant
            i <= items.len(),
            ref_views(out@) == ref_views(old(out)@) + conns_of(
                json_views(items@).take(i as int),
                inb,
            ),
        decreases items.len() - i,
    {
        let ghost before = out@;
        proof {
            let t = json_views(items@).take(i + 1);
            assert(t.drop_last() =~= json_views(items@).take(i as int));
            assert(t.last() == items@[i as int]@);
        }
        if inbound(&items[i]) == inb {
            out.push(&items[i]);
            assert(ref_views(out@) =~= ref_views(before).push(items@[i as int]@));
        }
        assert(ref_views(out@) =~= ref_views(old(out)@) + conns_of(
            json_views(items@).take(i + 1),
            inb,
        ));
        i += 1;
    }
    assert(json_views(items@).take(i as int) =~= json_views(items@));
}

pub open spec fn ref_views(v: Seq<&Json>) -> Seq<JsonView> {
    v.map_values(|j: &Json| j@)
}

fn rows_of_conns(rules: &Vec<RoleRule>, conns: &Vec<&Json>) -> (r: Vec<Json>)
    ensures
        json_views(r@) == first_of(conn_rows(rules@, ref_views(conns@)), 96),
{
    let mut out: Vec<Json> = Vec::new();
    let end: usize = if conns.len() < 96 {
        conns.len()
    } else {
        96
    };
    let ghost want = conn_rows(rules@, ref_views(conns@));
    let mut i: usize = 0;
    while i < end
        invariant
            i <= end <= conns.len(),
            want == conn_rows(rules@, ref_views(conns@)),
            json_views(out@) == want.take(i as int),
        decreases end - i,
    {
        let ghost before = out@;
        let row = conn_row(rules, conns[i]);
        out.push(row);
        assert(json_views(out@) =~= json_views(before).push(row@));
        i += 1;
    }
    assert(json_views(out@) =~= first_of(want, 96));
    out
}

fn tally_roles(rules: &Vec<RoleRule>, conns: &Vec<&Json>) -> (r: Tally)
    ensures
        r@ == tally_of(carried_roles(rules@, ref_views(conns@))),
{
    let mut t = Tally::new();
    let ghost names = carried_roles(rules@, ref_views(conns@));
    let mut i: usize = 0;
    while i < conns.len()
        invariant
            i <= conns.len(),
            names == carried_roles(rules@, ref_views(conns@)),
            t@ == tally_of(names.take(i as int)),
        decreases conns.len() - i,
    {
        let role = role_carried(rules, conns[i]);
        t.add(role.as_str());
        proof {
            let n = names.take(i + 1);
            assert(n.drop_last() =~= names.take(i as int));
            assert(n.last() == role@);
        }
        i += 1;
    }
    assert(names.take(i as int) =~= names);
    t
}

fn push_rows(list: &Vec<(u64, Json)>, out: &mut Vec<Json>)
    ensures
        json_views(final(out)@) == json_views(old(out)@) + rows_only(keyed_views(list@)),
{
    let ghost rows = rows_only(keyed_views(list@));
    let mut i: usize = 0;
    assert(json_views(out@) =~= json_views(old(out)@) + rows.take(0));
    while i < list.len()
        invariant
            i <= list.len(),
            rows == rows_only(keyed_views(list@)),
            json_views(out@) == json_views(old(out)@) + rows.take(i as int),
        decreases list.len() - i,
    {
        let ghost before = out@;
        let c = list[i].1.dup();
        out.push(c);
        assert(json_views(out@) =~= json_views(before).push(c@));
        assert(json_views(out@) =~= json_views(old(out)@) + rows.take(i + 1));
        i += 1;
    }
    assert(rows.take(i as int) =~= rows);
}

/// Lists the connections and flows of one direction: "in", "all", or any other word for outbound.
/// Connections go by the direction of their socket; flows count as outbound where the console
/// sent something and as inbound where it received something.
pub fn inspect(rules: &Vec<RoleRule>, snapshot: &Json, direction: &str) -> (r: TrafficReport)
    ensures
        reports(r, rules@, snapshot@, lowercase(direction@)),
{
    let want = lower(direction);
    let none: Vec<Json> = Vec::new();
    assert(json_views(none@) =~= Seq::empty());
    let items: &Vec<Json> = match array_of(snapshot.get_in("connections", "items")) {
        Some(v) => v,
        None => &none,
    };
    let all: &Vec<Json> = if items.len() > 0 {
        items
    } else {
        match array_of(snapshot.get_in("connections", "folded")) {
            Some(v) => v,
            None => &none,
        }
    };
    assert(json_views(items@).len() == items.len());
    assert(json_views(all@).len() == all.len());
    assert(json_views(all@) == connection_list(snapshot@));
    let shown: u64 = all.len() as u64;
    let total: u64 = u64_or(snapshot.get_in("connections", "count"), shown);
    let truncated = bool_or(snapshot.get_in("connections", "truncated"), total > shown);
    let mut out: Vec<&Json> = Vec::new();
    assert(ref_views(out@) =~= Seq::empty());
    push_conns(all, false, &mut out);
    assert(ref_views(out@) =~= conns_of(json_views(all@), false));
    let mut inb: Vec<&Json> = Vec::new();
    assert(ref_views(inb@) =~= Seq::empty());
    push_conns(all, true, &mut inb);
    assert(ref_views(inb@) =~= conns_of(json_views(all@), true));
    assert(ref_views(out@).len() == out.len() && ref_views(inb@).len() == inb.len());
    let flows = snapshot.get_either("recentFlows", "recent_flows");
    let up = rank_flows(rules, flows, "upload");
    let down = rank_flows(rules, flows, "download");
    assert(keyed_views(up@).len() == up.len() && keyed_views(down@).len() == down.len());
    let mut listed: Vec<&Json> = Vec::new();
    assert(ref_views(listed@) =~= Seq::empty());
    let mut listed_flows: Vec<Json> = Vec::new();
    assert(json_views(listed_flows@) =~= Seq::empty());
    if same(want.as_str(), "in") {
        push_conns(all, true, &mut listed);
        push_rows(&down, &mut listed_flows);
    } else if same(want.as_str(), "all") {
        push_conns(all, false, &mut listed);
        push_conns(all, true, &mut listed);
        push_rows(&up, &mut listed_flows);
        push_rows(&down, &mut listed_flows);
    } else {
        push_conns(all, false, &mut listed);
        push_rows(&up, &mut listed_flows);
    }
    assert(ref_views(listed@) =~= selected(
        want@,
        conns_of(json_views(all@), false),
        conns_of(json_views(all@), true),
    ));
    assert(json_views(listed_flows@) =~= selected(
        want@,
        rows_only(keyed_views(up@)),
        rows_only(keyed_views(down@)),
    ));
    assert(ref_views(listed@).len() == listed.len());
    let by_role = ranking(&tally_roles(rules, &listed));
    TrafficReport {
        direction: want,
        connections_total: total,
        connections_shown: shown,
        connections_truncated: truncated,
        connections_out: out.len() as u64,
        connections_in: inb.len() as u64,
        connections_list: listed.len() as u64,
        flows_with_upload: up.len() as u64,
        flows_with_download: down.len() as u64,
        xbox_upload_bytes: sum_field(flows, "upload"),
        xbox_download_bytes: sum_field(flows, "download"),
        by_role,
        connections: rows_of_conns(rules, &listed),
        flows: dup_first(&listed_flows, 48),
    }
}

/// A number of bytes as a text: in MB or KB with one decimal, or in whole bytes.
pub open spec fn bytes_text(n: u64) -> Seq<char> {
    if n >= 1_048_576 {
        let tenths = nearest(as_double(n as nat) * 10, 1_048_576);
        decimal(tenths / 10) + "."@ + decimal(tenths % 10) + " MB"@
    } else if n >= 1024 {
        let tenths = nearest((n * 10) as nat, 1024);
        decimal(tenths / 10) + "."@ + decimal(tenths % 10) + " KB"@
    } else {
        decimal(n as nat) + " B"@
    }
}

fn tenths_with(tenths: u128, unit: &str) -> (r: String)
    ensures
        r@ == decimal((tenths / 10) as nat) + "."@ + decimal((tenths % 10) as nat) + unit@,
{
    let mut s = dec_wide(tenths / 10);
    s.append(".");
    s.append(dec_wide(tenths % 10).as_str());
    s.append(unit);
    s
}

/// A number of bytes as a text.
pub fn format_bytes(n: u64) -> (r: String)
    ensures
        r@ == bytes_text(n),
{
    if n >= 1_048_576 {
        tenths_with(round_div(double_of(n as u128) * 10, 1_048_576), " MB")
    } else if n >= 1024 {
        tenths_with(round_div(n as u128 * 10, 1024), " KB")
    } else {
        let d = dec(n);
        cat(d.as_str(), " B")
    }
}

spec fn rate_names() -> Seq<Seq<char>> {
    Seq::empty().push("inbound_flood"@).push("inbound_elevated"@).push("packet_storm"@)
        .push("connection_surge"@).push("unknown_inbound_fanout"@).push("unknown_inbound"@)
}

spec fn rate_given(m: SampleMetrics, base: BaseRates, th: AdaptiveThresholds) -> Seq<bool> {
    Seq::empty().push(m.inbound_mbps > th.inbound_mbps_bad && m.inbound_mbps > 4 * base.inbound
        && 2 * m.inbound_mbps > 5 * m.outbound_mbps)
        .push(!(m.inbound_mbps > th.inbound_mbps_bad && m.inbound_mbps > 4 * base.inbound
        && 2 * m.inbound_mbps > 5 * m.outbound_mbps)
        && m.inbound_mbps > th.inbound_mbps_elevated
        && 2 * m.inbound_mbps > 5 * base.inbound).push(m.total_kpps > 8 * base.kpps
        && m.total_kpps > 3_000_000 && 10_000_000 * m.connections > 18 * base.connections)
        .push(m.connections > 120).push(m.inbound_conns >= 8 && m.unknown_inbound_conns >= 4)
        .push(!(m.inbound_conns >= 8 && m.unknown_inbound_conns >= 4) && m.inbound_conns >= 5
        && m.unknown_inbound_conns >= 2)
}

spec fn rate_strengths(m: SampleMetrics) -> Seq<int> {
    Seq::empty().push(share_of(m.inbound_mbps as int, 80, 1_000_000))
        .push(share_of(m.inbound_mbps as int, 40, 850_000)).push(share_of(m.total_kpps as int, 8,
        1_000_000)).push(smaller((m.connections - 80) * 12_500, 1_000_000))
        .push(capped_ratio(m.unknown_inbound_conns as nat, 12)).push(500_000)
}

spec fn flow_names() -> Seq<Seq<char>> {
    Seq::empty().push("inbound_asymmetry"@).push("inbound_telemetry_spike"@)
        .push("quiet_pool_inbound"@).push("inbound_heavy_outbound_light"@)
}

spec fn flow_given(m: SampleMetrics, base: BaseRates, th: AdaptiveThresholds,
    down: Seq<(Seq<char>, u64)>, phase: Seq<char>) -> Seq<bool> {
    Seq::empty().push(m.in_out_byte_ratio > th.in_out_ratio_bad
        && m.xbox_download_bytes > 512_000).push(phase == "in-match"@ && count_in(down,
        "telemetry"@) > 256_000 && count_in(down, "telemetry"@) > plus(count_in(down,
        "warzone-game"@), count_in(down, "game-assets"@))).push(phase == "matchmaking"@
        && 18 <= m.connections <= 45 && m.inbound_mbps > 2 * base.inbound
        && m.xbox_download_bytes > 128_000).push(phase == "in-match"@
        && m.inbound_mbps > 15_000_000 && m.outbound_mbps < 3_000_000)
}

spec fn flow_strengths(m: SampleMetrics) -> Seq<int> {
    Seq::empty().push(share_of(m.in_out_byte_ratio as int, 8, 1_000_000)).push(750_000)
        .push(700_000).push(550_000)
}

proof fn lemma_inbound_names()
    ensures
        apart(rate_names() + flow_names()),
{
    reveal_strlit("inbound_flood");
    reveal_strlit("inbound_elevated");
    reveal_strlit("packet_storm");
    reveal_strlit("connection_surge");
    reveal_strlit("unknown_inbound_fanout");
    reveal_strlit("unknown_inbound");
    reveal_strlit("inbound_asymmetry");
    reveal_strlit("inbound_telemetry_spike");
    reveal_strlit("quiet_pool_inbound");
    reveal_strlit("inbound_heavy_outbound_light");
    let n = rate_names() + flow_names();
    assert(n[0].len() == 13);
    assert(n[1].len() == 16);
    assert(n[2].len() == 12);
    assert(n[3].len() == 16);
    assert(n[4].len() == 22);
    assert(n[5].len() == 15);
    assert(n[6].len() == 17);
    assert(n[7].len() == 23);
    assert(n[8].len() == 18);
    assert(n[9].len() == 28);
    assert(n[1][0] == 'i' && n[3][0] == 'c');
}

#[verifier::spinoff_prover]
proof fn lemma_rate_stage(f: FindingsView, m: SampleMetrics, base: BaseRates,
    th: AdaptiveThresholds)
    requires
        f == sockets_noted(surge_noted(rate_noted(FindingsView::none(), m, base, th), m, base), m),
    ensures
        chained(f.signals, rate_given(m, base, th), rate_names(), rate_strengths(m)),
        ({
            let g = rate_given(m, base, th);
            f.score == weigh(g[0], 280_000) + weigh(g[1], 140_000) + weigh(g[2], 180_000)
                + weigh(g[3], 160_000) + weigh(g[4], 200_000) + weigh(g[5], 100_000)
        }),
{
    let g = rate_given(m, base, th);
    let ns = rate_names();
    let ss = rate_strengths(m);
    let s0: Seq<(Seq<char>, int)> = Seq::empty();
    let s1 = if g[0] {
        s0.push((ns[0], ss[0]))
    } else {
        s0
    };
    let f2 = rate_noted(FindingsView::none(), m, base, th);
    assert(grown(s1, f2.signals, g[1], ns[1], ss[1]));
    let s3 = if g[2] {
        f2.signals.push((ns[2], ss[2]))
    } else {
        f2.signals
    };
    let f4 = surge_noted(f2, m, base);
    assert(grown(s3, f4.signals, g[3], ns[3], ss[3]));
    let s5 = if g[4] {
        f4.signals.push((ns[4], ss[4]))
    } else {
        f4.signals
    };
    assert(grown(s5, f.signals, g[5], ns[5], ss[5]));
    lemma_six(s0, s1, f2.signals, s3, f4.signals, s5, f.signals, g, ns, ss);
}

proof fn lemma_six(
    s0: Seq<(Seq<char>, int)>,
    s1: Seq<(Seq<char>, int)>,
    s2: Seq<(Seq<char>, int)>,
    s3: Seq<(Seq<char>, int)>,
    s4: Seq<(Seq<char>, int)>,
    s5: Seq<(Seq<char>, int)>,
    s6: Seq<(Seq<char>, int)>,
    g: Seq<bool>,
    ns: Seq<Seq<char>>,
    ss: Seq<int>,
)
    requires
        s0.len() == 0,
        g.len() == 6,
        ns.len() == 6,
        ss.len() == 6,
        grown(s0, s1, g[0], ns[0], ss[0]),
        grown(s1, s2, g[1], ns[1], ss[1]),
        grown(s2, s3, g[2], ns[2], ss[2]),
        grown(s3, s4, g[3], ns[3], ss[3]),
        grown(s4, s5, g[4], ns[4], ss[4]),
        grown(s5, s6, g[5], ns[5], ss[5]),
    ensures
        chained(s6, g, ns, ss),
{
    let b0: Seq<bool> = Seq::empty();
    let n0: Seq<Seq<char>> = Seq::empty();
    let t0: Seq<int> = Seq::empty();
    assert(chained(s0, b0, n0, t0));
    lemma_link(s0, s1, b0, n0, t0, g[0], ns[0], ss[0]);
    let (b1, n1, t1) = (b0.push(g[0]), n0.push(ns[0]), t0.push(ss[0]));
    lemma_link(s1, s2, b1, n1, t1, g[1], ns[1], ss[1]);
    let (b2, n2, t2) = (b1.push(g[1]), n1.push(ns[1]), t1.push(ss[1]));
    lemma_link(s2, s3, b2, n2, t2, g[2], ns[2], ss[2]);
    let (b3, n3, t3) = (b2.push(g[2]), n2.push(ns[2]), t2.push(ss[2]));
    lemma_link(s3, s4, b3, n3, t3, g[3], ns[3], ss[3]);
    let (b4, n4, t4) = (b3.push(g[3]), n3.push(ns[3]), t3.push(ss[3]));
    lemma_link(s4, s5, b4, n4, t4, g[4], ns[4], ss[4]);
    let (b5, n5, t5) = (b4.push(g[4]), n4.push(ns[4]), t4.push(ss[4]));
    lemma_link(s5, s6, b5, n5, t5, g[5], ns[5], ss[5]);
    let (b6, n6, t6) = (b5.push(g[5]), n5.push(ns[5]), t5.push(ss[5]));
    assert(b6 =~= g);
    assert(n6 =~= ns);
    assert(t6 =~= ss);
}

#[verifier::spinoff_prover]
proof fn lemma_flow_stage(
    f6: FindingsView,
    f: FindingsView,
    m: SampleMetrics, base: BaseRates, th: AdaptiveThresholds, down: Seq<(Seq<char>, u64)>,
        phase: Seq<char>,
    b0: Seq<bool>,
    n0: Seq<Seq<char>>,
    t0: Seq<int>,
)
    requires
        f == roles_noted(flows_noted(f6, m, th), m, base, down, phase),
        chained(f6.signals, b0, n0, t0),
        b0.len() == n0.len(),
        b0.len() == t0.len(),
    ensures
        chained(f.signals, b0 + flow_given(m, base, th, down, phase), n0 + flow_names(), t0
            + flow_strengths(m)),
        ({
            let g = flow_given(m, base, th, down, phase);
            f.score == f6.score + weigh(g[0], 160_000) + weigh(g[1], 180_000) + weigh(g[2],
                220_000) + weigh(g[3], 120_000)
        }),
{
    lemma_phase_words();
    let g = flow_given(m, base, th, down, phase);
    let ns = flow_names();
    let ss = flow_strengths(m);
    let s0 = f6.signals;
    let s1 = flows_noted(f6, m, th).signals;
    assert(grown(s0, s1, g[0], ns[0], ss[0]));
    let s2 = if g[1] {
        s1.push((ns[1], ss[1]))
    } else {
        s1
    };
    let s3 = if g[2] {
        s2.push((ns[2], ss[2]))
    } else {
        s2
    };
    let s4 = f.signals;
    assert(grown(s3, s4, g[3], ns[3], ss[3]));
    lemma_link(s0, s1, b0, n0, t0, g[0], ns[0], ss[0]);
    let (b1, n1, t1) = (b0.push(g[0]), n0.push(ns[0]), t0.push(ss[0]));
    lemma_link(s1, s2, b1, n1, t1, g[1], ns[1], ss[1]);
    let (b2, n2, t2) = (b1.push(g[1]), n1.push(ns[1]), t1.push(ss[1]));
    lemma_link(s2, s3, b2, n2, t2, g[2], ns[2], ss[2]);
    let (b3, n3, t3) = (b2.push(g[2]), n2.push(ns[2]), t2.push(ss[2]));
    lemma_link(s3, s4, b3, n3, t3, g[3], ns[3], ss[3]);
    let (b4, n4, t4) = (b3.push(g[3]), n3.push(ns[3]), t3.push(ss[3]));
    assert(b4 =~= b0 + g);
    assert(n4 =~= n0 + ns);
    assert(t4 =~= t0 + ss);
}

proof fn lemma_inbound_of(
    r: InboundAnalysis,
    rules: Seq<RoleRule>,
    snapshot: JsonView,
    phase: Seq<char>,
    base: BaseRates,
    th: AdaptiveThresholds,
    m: SampleMetrics,
    down: Seq<(Seq<char>, u64)>,
) -> (f: FindingsView)
    requires
        is_inbound_analysis(r, rules, snapshot, phase, base, th),
        gaming(phase),
        m == sample_metrics(rules, snapshot),
        down == role_downloads(rules, flows_of(snapshot)),
    ensures
        r.score == clamped(f.score, 0, ONE as int),
        r.findings().signals == f.signals,
        r.metrics is Some,
        r.metrics->0.sample == m,
        r.metrics->0.download_by_role@ == down,
        r.verdict@ == inbound_verdict(r.score as int),
        chained(
            f.signals,
            rate_given(m, base, th) + flow_given(m, base, th, down, phase),
            rate_names() + flow_names(),
            rate_strengths(m) + flow_strengths(m),
        ),
        ({
            let g = rate_given(m, base, th);
            let h = flow_given(m, base, th, down, phase);
            f.score == weigh(g[0], 280_000) + weigh(g[1], 140_000) + weigh(g[2], 180_000)
                + weigh(g[3], 160_000) + weigh(g[4], 200_000) + weigh(g[5], 100_000) + weigh(h[0],
                160_000) + weigh(h[1], 180_000) + weigh(h[2], 220_000) + weigh(h[3], 120_000)
        }),
{
    reveal(is_inbound_analysis);
    let f = inbound_findings(rules, snapshot, phase, base, th);
    let f6 = sockets_noted(
        surge_noted(rate_noted(FindingsView::none(), m, base, th), m, base),
        m,
    );
    lemma_rate_stage(f6, m, base, th);
    lemma_flow_stage(f6, f, m, base, th, down, phase, rate_given(m, base, th), rate_names(),
        rate_strengths(m));
    f
}

#[verifier::spinoff_prover]
proof fn lemma_read_inbound(s: Seq<(Seq<char>, int)>, m: SampleMetrics, base: BaseRates,
    th: AdaptiveThresholds, down: Seq<(Seq<char>, u64)>, phase: Seq<char>)
    requires
        chained(
            s,
            rate_given(m, base, th) + flow_given(m, base, th, down, phase),
            rate_names() + flow_names(),
            rate_strengths(m) + flow_strengths(m),
        ),
    ensures
        ({
            let g = rate_given(m, base, th);
            let h = flow_given(m, base, th, down, phase);
            &&& named(s, "inbound_flood"@) == g[0]
            &&& g[0] ==> s.contains(("inbound_flood"@, share_of(m.inbound_mbps as int, 80,
                1_000_000)))
            &&& named(s, "inbound_elevated"@) == g[1]
            &&& g[1] ==> s.contains(("inbound_elevated"@, share_of(m.inbound_mbps as int, 40,
                850_000)))
            &&& named(s, "packet_storm"@) == g[2]
            &&& g[2] ==> s.contains(("packet_storm"@, share_of(m.total_kpps as int, 8, 1_000_000)))
            &&& named(s, "connection_surge"@) == g[3]
            &&& g[3] ==> s.contains(("connection_surge"@, smaller((m.connections - 80) * 12_500,
                1_000_000)))
            &&& named(s, "unknown_inbound_fanout"@) == g[4]
            &&& g[4] ==> s.contains(("unknown_inbound_fanout"@,
                capped_ratio(m.unknown_inbound_conns as nat, 12)))
            &&& named(s, "unknown_inbound"@) == g[5]
            &&& g[5] ==> s.contains(("unknown_inbound"@, 500_000))
            &&& named(s, "inbound_asymmetry"@) == h[0]
            &&& h[0] ==> s.contains(("inbound_asymmetry"@, share_of(m.in_out_byte_ratio as int, 8,
                1_000_000)))
            &&& named(s, "inbound_telemetry_spike"@) == h[1]
            &&& h[1] ==> s.contains(("inbound_telemetry_spike"@, 750_000))
            &&& named(s, "quiet_pool_inbound"@) == h[2]
            &&& h[2] ==> s.contains(("quiet_pool_inbound"@, 700_000))
            &&& named(s, "inbound_heavy_outbound_light"@) == h[3]
            &&& h[3] ==> s.contains(("inbound_heavy_outbound_light"@, 550_000))
        }),
{
    let g = rate_given(m, base, th);
    let h = flow_given(m, base, th, down, phase);
    let n = rate_names() + flow_names();
    lemma_inbound_names();
    lemma_chained(s, g + h, n, rate_strengths(m) + flow_strengths(m));
    assert(n[0] == "inbound_flood"@ && n[1] == "inbound_elevated"@ && n[2] == "packet_storm"@
        && n[3] == "connection_surge"@ && n[4] == "unknown_inbound_fanout"@ && n[5]
        == "unknown_inbound"@ && n[6] == "inbound_asymmetry"@ && n[7]
        == "inbound_telemetry_spike"@ && n[8] == "quiet_pool_inbound"@ && n[9]
        == "inbound_heavy_outbound_light"@);
    assert((g + h)[6] == h[0] && (g + h)[7] == h[1] && (g + h)[8] == h[2] && (g + h)[9] == h[3]);
}

/// A signal of inbound traffic is given exactly when there is cause for it in what was measured,
/// with the strength that belongs to it; the score is what the signals weigh, at most one; and the
/// verdict names what the score stands for.
#[verifier::spinoff_prover]
pub proof fn traffic_is_judged_by_its_signals(
    r: InboundAnalysis,
    rules: Seq<RoleRule>,
    snapshot: JsonView,
    phase: Seq<char>,
    base: BaseRates,
    th: AdaptiveThresholds,
)
    requires
        is_inbound_analysis(r, rules, snapshot, phase, base, th),
        phase == "matchmaking"@ || phase == "in-match"@,
    ensures
        r.metrics is Some,
        ({
            let m = r.metrics->0.sample;
            let down = r.metrics->0.download_by_role@;
            let s = r.findings().signals;
            let flood = named(s, "inbound_flood"@);
            let elevated = named(s, "inbound_elevated"@);
            let storm = named(s, "packet_storm"@);
            let surge = named(s, "connection_surge"@);
            let fanout = named(s, "unknown_inbound_fanout"@);
            let strangers = named(s, "unknown_inbound"@);
            let asymmetry = named(s, "inbound_asymmetry"@);
            let spike = named(s, "inbound_telemetry_spike"@);
            let quiet = named(s, "quiet_pool_inbound"@);
            let passive = named(s, "inbound_heavy_outbound_light"@);
            &&& flood <==> m.inbound_mbps > th.inbound_mbps_bad
                && m.inbound_mbps > 4 * base.inbound && 2 * m.inbound_mbps > 5 * m.outbound_mbps
            &&& elevated <==> !flood && m.inbound_mbps > th.inbound_mbps_elevated
                && 2 * m.inbound_mbps > 5 * base.inbound
            &&& storm <==> m.total_kpps > 8 * base.kpps && m.total_kpps > 3_000_000
                && 10_000_000 * m.connections > 18 * base.connections
            &&& surge <==> m.connections > 120
            &&& fanout <==> m.inbound_conns >= 8 && m.unknown_inbound_conns >= 4
            &&& strangers <==> !fanout && m.inbound_conns >= 5 && m.unknown_inbound_conns >= 2
            &&& asymmetry <==> m.in_out_byte_ratio > th.in_out_ratio_bad
                && m.xbox_download_bytes > 512_000
            &&& spike <==> phase == "in-match"@ && count_in(down, "telemetry"@) > 256_000
                && count_in(down, "telemetry"@) > plus(count_in(down, "warzone-game"@),
                count_in(down, "game-assets"@))
            &&& quiet <==> phase == "matchmaking"@ && 18 <= m.connections <= 45
                && m.inbound_mbps > 2 * base.inbound && m.xbox_download_bytes > 128_000
            &&& passive <==> phase == "in-match"@ && m.inbound_mbps > 15_000_000
                && m.outbound_mbps < 3_000_000
            &&& flood ==> s.contains(("inbound_flood"@, share_of(m.inbound_mbps as int, 80,
                1_000_000)))
            &&& elevated ==> s.contains(("inbound_elevated"@, share_of(m.inbound_mbps as int, 40,
                850_000)))
            &&& storm ==> s.contains(("packet_storm"@, share_of(m.total_kpps as int, 8, 1_000_000)))
            &&& surge ==> s.contains(("connection_surge"@, smaller((m.connections - 80) * 12_500,
                1_000_000)))
            &&& fanout ==> s.contains(("unknown_inbound_fanout"@,
                capped_ratio(m.unknown_inbound_conns as nat, 12)))
            &&& strangers ==> s.contains(("unknown_inbound"@, 500_000))
            &&& asymmetry ==> s.contains(("inbound_asymmetry"@,
                share_of(m.in_out_byte_ratio as int, 8, 1_000_000)))
            &&& spike ==> s.contains(("inbound_telemetry_spike"@, 750_000))
            &&& quiet ==> s.contains(("quiet_pool_inbound"@, 700_000))
            &&& passive ==> s.contains(("inbound_heavy_outbound_light"@, 550_000))
            &&& r.score == smaller(weigh(flood, 280_000) + weigh(elevated, 140_000) + weigh(storm,
                180_000) + weigh(surge, 160_000) + weigh(fanout, 200_000) + weigh(strangers,
                100_000) + weigh(asymmetry, 160_000) + weigh(spike, 180_000) + weigh(quiet,
                220_000) + weigh(passive, 120_000), 1_000_000)
            &&& r.verdict@ == "likely_cheater_traffic"@ <==> r.score >= 450_000
            &&& r.verdict@ == "suspicious_inbound"@ <==> 180_000 <= r.score < 450_000
            &&& r.verdict@ == "normal_inbound"@ <==> r.score < 180_000
        }),
{
    let m = sample_metrics(rules, snapshot);
    let down = role_downloads(rules, flows_of(snapshot));
    let f = lemma_inbound_of(r, rules, snapshot, phase, base, th, m, down);
    lemma_read_inbound(f.signals, m, base, th, down, phase);
    reveal_strlit("likely_cheater_traffic");
    reveal_strlit("suspicious_inbound");
    reveal_strlit("normal_inbound");
    assert("likely_cheater_traffic"@.len() == 22 && "suspicious_inbound"@.len() == 18
        && "normal_inbound"@.len() == 14);
}

/// Outside queue and match inbound traffic is not looked at.
pub proof fn idle_traffic_says_nothing(
    r: InboundAnalysis,
    rules: Seq<RoleRule>,
    snapshot: JsonView,
    phase: Seq<char>,
    base: BaseRates,
    th: AdaptiveThresholds,
)
    requires
        is_inbound_analysis(r, rules, snapshot, phase, base, th),
        phase != "matchmaking"@,
        phase != "in-match"@,
    ensures
        r.score == 0,
        r.findings().signals.len() == 0,
        r.metrics is None,
        r.verdict@ == "idle"@,
{
    reveal(is_inbound_analysis);
}

/// What is measured is what the snapshot states: rates over the window of the sample, connections,
/// and the bytes of its flows.
pub proof fn samples_are_measured(rules: Seq<RoleRule>, snapshot: JsonView)
    ensures
        ({
            let m = sample_metrics(rules, snapshot);
            let w = larger(real_or(snapshot.field_in("sample"@, "windowSec"@), 3_000_000), 500_000);
            let packets = uint_or(snapshot.field_in("sample"@, "packets"@), 0);
            &&& m.inbound_mbps == mbps(uint_or(snapshot.field_in("sample"@, "bytesIn"@), 0), w)
            &&& m.outbound_mbps == mbps(uint_or(snapshot.field_in("sample"@, "bytesOut"@), 0), w)
            &&& m.total_kpps == kpps(packets, w)
            &&& m.xbox_download_bytes == field_sum(flows_of(snapshot), "download"@)
            &&& m.xbox_upload_bytes == field_sum(flows_of(snapshot), "upload"@)
            &&& m.in_out_byte_ratio == in_out_ratio(m.xbox_download_bytes, m.xbox_upload_bytes)
            &&& m.connections == conn_total(snapshot) as i64
            &&& m.inbound_conns == inbound_counts(
                rules,
                items_or_empty(snapshot.field_in("connections"@, "items"@)),
            ).0 as u64
            &&& m.unknown_inbound_conns == inbound_counts(
                rules,
                items_or_empty(snapshot.field_in("connections"@, "items"@)),
            ).1 as u64
        }),
{
    let w = window(snapshot);
    let a = uint_or(snapshot.field_in("sample"@, "bytesIn"@), 0);
    let b = uint_or(snapshot.field_in("sample"@, "bytesOut"@), 0);
    let c = uint_or(snapshot.field_in("sample"@, "packets"@), 0);
    rates_are_true(a, w, 0);
    rates_are_true(b, w, 0);
    rates_are_true(c, w, 0);
    let m = sample_metrics(rules, snapshot);
    in_and_out_are_compared(m.xbox_download_bytes, m.xbox_upload_bytes, 0);
}

/// What traffic is held against: the learned baseline, 0.1 Mbps and 10 packets a second at least,
/// and without one the rates of a quiet console.
pub proof fn traffic_has_a_baseline(b: InboundBaseline)
    ensures
        ({
            let r = base_rates(Some(b));
            &&& r.inbound >= 100_000 && r.kpps >= 10_000
            &&& b.inbound_mbps >= 100_000 ==> r.inbound == b.inbound_mbps
            &&& b.inbound_mbps < 100_000 ==> r.inbound == 100_000
            &&& b.total_kpps >= 10_000 ==> r.kpps == b.total_kpps
            &&& b.total_kpps < 10_000 ==> r.kpps == 10_000
            &&& r.connections == b.connections
        }),
        base_rates(None).inbound == 5_000_000,
        base_rates(None).connections == 40_000_000,
        base_rates(None).kpps == 80_000,
{
}

/// Connections are those that are listed, and the folded ones where none are; each is inbound or
/// outbound, and stands in one of both lists.
pub proof fn connections_go_one_way(items: Seq<JsonView>, x: JsonView)
    ensures
        is_inbound(x) ==> conns_of(items.push(x), true) == conns_of(items, true).push(x)
            && conns_of(items.push(x), false) == conns_of(items, false),
        !is_inbound(x) ==> conns_of(items.push(x), false) == conns_of(items, false).push(x)
            && conns_of(items.push(x), true) == conns_of(items, true),
        conns_of(items, true).len() + conns_of(items, false).len() == items.len(),
    decreases items.len(),
{
    assert(items.push(x).drop_last() =~= items);
    if items.len() > 0 {
        connections_go_one_way(items.drop_last(), items.last());
        assert(items.drop_last().push(items.last()) =~= items);
    }
}

/// Which direction is wanted: inbound by its word, both by theirs with the outbound ones first, and
/// outbound otherwise.
pub proof fn directions_are_selected<A>(want: Seq<char>, out: Seq<A>, inb: Seq<A>)
    ensures
        selected("in"@, out, inb) == inb,
        selected("all"@, out, inb) == out + inb,
        want != "in"@ && want != "all"@ ==> selected(want, out, inb) == out,
{
    reveal_strlit("in");
    reveal_strlit("all");
    assert("in"@.len() == 2 && "all"@.len() == 3);
}

/// Listed connections come before folded ones.
pub proof fn listed_connections_come_first(snapshot: JsonView)
    ensures
        ({
            let items = items_or_empty(snapshot.field_in("connections"@, "items"@));
            &&& items.len() > 0 ==> connection_list(snapshot) == items
            &&& items.len() == 0 ==> connection_list(snapshot) == items_or_empty(
                snapshot.field_in("connections"@, "folded"@),
            )
        }),
{
}

/// A number of bytes below 1024 is shown as it is.
pub proof fn few_bytes_are_shown_whole(n: u64)
    requires
        n < 1024,
    ensures
        bytes_text(n) == decimal(n as nat) + " B"@,
{
}

/// A number of whole kilobytes is shown as such.
pub proof fn whole_kilobytes_are_shown(k: u64)
    requires
        1 <= k < 1024,
    ensures
        bytes_text((1024 * k) as u64) == decimal(k as nat) + "."@ + decimal(0) + " KB"@,
{
    let n = 1024 * k;
    assert((n * 10) % 1024 == 0 && (n * 10) / 1024 == 10 * k);
}

/// Inbound connections are counted, and among them those that nothing is known of.
pub proof fn inbound_connections_are_counted(rules: Seq<RoleRule>, items: Seq<JsonView>,
    x: JsonView)
    ensures
        ({
            let (a, b) = (inbound_counts(rules, items), inbound_counts(rules, items.push(x)));
            let inbound = x.field("direction"@) == Some(JsonView::Str("in"@));
            &&& b.0 == a.0 + weigh(inbound, 1)
            &&& b.1 == a.1 + weigh(inbound && carried_role(rules, x) == "unknown"@, 1)
            &&& a.1 <= a.0 <= items.len()
        }),
    decreases items.len(),
{
    assert(items.push(x).drop_last() =~= items);
    if items.len() > 0 {
        inbound_connections_are_counted(rules, items.drop_last(), items.last());
        assert(items.drop_last().push(items.last()) =~= items);
    }
}

/// The bytes of flows add up, and what was loaded counts for the role of its flow alone.
pub proof fn flows_add_their_bytes(
    rules: Seq<RoleRule>,
    flows: Seq<JsonView>,
    x: JsonView,
    key: Seq<char>,
    other: Seq<char>,
)
    requires
        field_sum(flows, key) + uint_or(x.field(key), 0) <= u64::MAX,
        count_in(role_downloads(rules, flows), flow_role(rules, x)) + uint_or(
            x.field("download"@),
            0,
        ) <= u64::MAX,
    ensures
        field_sum(flows.push(x), key) == field_sum(flows, key) + uint_or(x.field(key), 0),
        ({
            let (a, b) = (role_downloads(rules, flows), role_downloads(rules, flows.push(x)));
            let role = flow_role(rules, x);
            &&& count_in(b, role) == count_in(a, role) + uint_or(x.field("download"@), 0)
            &&& other != role ==> count_in(b, other) == count_in(a, other)
        }),
{
    assert(flows.push(x).drop_last() =~= flows);
    lemma_added_count(
        role_downloads(rules, flows),
        flow_role(rules, x),
        uint_or(x.field("download"@), 0),
        other,
    );
}

/// A flow is ranked where it has bytes in the direction, and left out where it has none.
pub proof fn flows_with_bytes_are_ranked(
    rules: Seq<RoleRule>,
    flows: Seq<JsonView>,
    x: JsonView,
    key: Seq<char>,
)
    ensures
        flow_ranking(rules, flows.push(x), key).len() == flow_ranking(rules, flows, key).len()
            + weigh(uint_or(x.field(key), 0) > 0, 1),
        uint_or(x.field(key), 0) == 0 ==> flow_ranking(rules, flows.push(x), key) == flow_ranking(
            rules,
            flows,
            key,
        ),
{
    assert(flows.push(x).drop_last() =~= flows);
    flow_ranking_is_largest_first(rules, flows, key);
    lemma_placed(
        flow_ranking(rules, flows, key),
        (uint_or(x.field(key), 0), flow_row_view(rules, x)),
    );
}

/// A share of so many units is cut at its cap, and otherwise reaches an even number of millionths
/// exactly where the rate reaches as many units.
pub proof fn shares_are_cut(x: int, n: int, cap: int, even: int)
    requires
        n > 0,
        even % 2 == 0,
        even < cap,
    ensures
        share_of(x, n, cap) <= cap,
        share_of(x, n, cap) > even <==> x > even * n,
        share_of(x, n, cap) < even <==> x < even * n,
        share_of(x, n, cap) == even <==> x == even * n,
{
    quotients_compare(x, n, even);
}

} // verus!
