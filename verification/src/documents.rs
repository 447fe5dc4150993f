//! The documents that verdicts, analyses, thresholds and traffic are shown as.
use vstd::prelude::*;

use crate::cheater_lobby::{answer_json, answer_label, answer_words, CheaterVerdict, LobbyAnswer};
use crate::counts::name_counts;
use crate::enrich::{tally_json, tally_object};
use crate::fields::{
    count_json, count_view, first_texts, int_json, int_view, opt_real_json, opt_real_view,
    percent_json, percent_view, real_json, real_view, rounded_json, rounded_view, texts,
    texts_view, Entries, Fields,
};
use crate::fixed::{hundredths, hundredths_of, keep, kept};
use crate::game_state::{EventLine, GameReport};
use crate::information_flow::{FlowStep, InformationFlowTracker};
use crate::json::{
    array, dup_first, dup_or_null, first_of, items_or_empty, json_views, number, or_else, or_null,
    text, with_entry, Json, JsonView,
};
use crate::learning::{AdaptiveThresholds, ThresholdSource};
use crate::packets::{CaptureReport, CaptureStats, PacketAnalysis, PacketMetrics, PeerRow};
use crate::signals::{signal_views, Signal};
use crate::text::{same, views};
use crate::traffic::{InboundAnalysis, InboundMetrics, TrafficReport};

verus! {

// ---------------------------------------------------------------------------------------------
// Signals

/// The signals by name, with three decimals; of two with one name the later counts.
pub open spec fn signal_fields(s: Seq<(Seq<char>, int)>) -> Entries
    decreases s.len(),
{
    if s.len() == 0 {
        Seq::empty()
    } else {
        with_entry(signal_fields(s.drop_last()), s.last().0, rounded_view(s.last().1, 1000))
    }
}

/// The signals by name, with three decimals.
pub fn signals_json(v: &Vec<Signal>) -> (r: Json)
    ensures
        r@ == JsonView::Obj(signal_fields(signal_views(v@))),
{
    let mut o = Fields::new().done();
    let mut i: usize = 0;
    while i < v.len()
        invariant
            i <= v.len(),
            o@ == JsonView::Obj(signal_fields(signal_views(v@).take(i as int))),
        decreases v.len() - i,
    {
        proof {
            let t = signal_views(v@).take(i + 1);
            assert(t.drop_last() =~= signal_views(v@).take(i as int));
            assert(t.last() == (v@[i as int].name@, v@[i as int].strength as int));
        }
        o.set(v[i].name.as_str(), rounded_json(v[i].strength as i128, 1000));
        i += 1;
    }
    assert(signal_views(v@).take(i as int) =~= signal_views(v@));
    o
}

// ---------------------------------------------------------------------------------------------
// The verdict

/// A verdict with one decimal and its first six reasons.
pub open spec fn verdict_fields(v: CheaterVerdict) -> Entries {
    seq![
        ("label"@, JsonView::Str(v.label@)),
        ("confidence"@, rounded_view(v.confidence as int, 100_000)),
        ("likely"@, JsonView::Bool(v.label@ == "LIKELY"@)),
        ("reasons"@, texts_view(first_of(views(v.reasons@), 6))),
    ]
}

impl CheaterVerdict {
    /// The verdict as it is shown.
    pub fn to_json(&self) -> (r: Json)
        ensures
            r@ == JsonView::Obj(verdict_fields(*self)),
    {
        let v = self;
        let f = Fields::new()
            .put("label", text(v.label.as_str()))
            .put("confidence", rounded_json(v.confidence as i128, 100_000))
            .put("likely", Json::Bool(same(v.label.as_str(), "LIKELY")))
            .put("reasons", first_texts(&v.reasons, 6));
        assert(f@ =~= verdict_fields(*self));
        f.done()
    }
}

/// An answer in plain words.
pub open spec fn answer_fields(a: LobbyAnswer) -> Entries {
    seq![
        ("is_cheater_lobby"@, JsonView::Str(a.is_cheater_lobby@)),
        ("headline"@, JsonView::Str(a.headline@)),
        ("plain"@, JsonView::Str(a.plain@)),
        ("label"@, JsonView::Str(a.label@)),
        ("confidence"@, real_view(a.confidence as int)),
        ("reasons"@, texts_view(views(a.reasons@))),
    ]
}

impl LobbyAnswer {
    /// The answer as it is shown.
    pub fn to_json(&self) -> (r: Json)
        ensures
            r@ == JsonView::Obj(answer_fields(*self)),
    {
        let a = self;
        let f = Fields::new()
            .put("is_cheater_lobby", text(a.is_cheater_lobby))
            .put("headline", text(a.headline))
            .put("plain", text(a.plain.as_str()))
            .put("label", text(a.label.as_str()))
            .put("confidence", real_json(a.confidence))
            .put("reasons", texts(&a.reasons));
        assert(f@ =~= answer_fields(*self));
        f.done()
    }
}

/// The plain answer to the verdict that a document holds.
pub open spec fn plain_answer_fields(cheater: JsonView) -> Entries {
    let label = answer_label(cheater);
    let confidence = match number(cheater.field("confidence"@)) {
        Some(n) => n,
        None => 0,
    };
    let words = answer_words(label, confidence);
    seq![
        ("is_cheater_lobby"@, JsonView::Str(words.0)),
        ("headline"@, JsonView::Str(words.1)),
        ("plain"@, JsonView::Str(words.2)),
        ("label"@, JsonView::Str(label)),
        ("confidence"@, real_view(confidence)),
        (
            "reasons"@,
            texts_view(
                crate::cheater_lobby::first_texts(items_or_empty(cheater.field("reasons"@)), 4),
            ),
        ),
    ]
}

/// The plain answer to the verdict that a document holds, as it is shown.
pub fn plain_answer(cheater: &Json) -> (r: Json)
    ensures
        r@ == JsonView::Obj(plain_answer_fields(cheater@)),
{
    let a = answer_json(cheater);
    assert(answer_fields(a) =~= plain_answer_fields(cheater@));
    a.to_json()
}

// ---------------------------------------------------------------------------------------------
// Thresholds

pub open spec fn source_name(s: ThresholdSource) -> Seq<char> {
    match s {
        ThresholdSource::Learned => "learned"@,
        ThresholdSource::Default => "default"@,
    }
}

/// The thresholds with one decimal.
pub open spec fn threshold_fields(t: AdaptiveThresholds) -> Entries {
    seq![
        ("conn_matchmaking_high"@, rounded_view(t.conn_matchmaking_high as int, 100_000)),
        ("conn_matchmaking_elevated"@, rounded_view(t.conn_matchmaking_elevated as int, 100_000)),
        ("mm_delta_bad"@, rounded_view(t.mm_delta_bad as int, 100_000)),
        ("mm_delta_warn"@, rounded_view(t.mm_delta_warn as int, 100_000)),
        ("jitter_bad"@, rounded_view(t.jitter_bad as int, 100_000)),
        ("wan_jitter_bad"@, rounded_view(t.wan_jitter_bad as int, 100_000)),
        ("conn_good_ceiling"@, rounded_view(t.conn_good_ceiling as int, 100_000)),
        ("conn_marginal_low"@, rounded_view(t.conn_marginal_low as int, 100_000)),
        ("conn_marginal_high"@, rounded_view(t.conn_marginal_high as int, 100_000)),
        ("inbound_mbps_elevated"@, rounded_view(t.inbound_mbps_elevated as int, 100_000)),
        ("inbound_mbps_bad"@, rounded_view(t.inbound_mbps_bad as int, 100_000)),
        ("in_out_ratio_bad"@, rounded_view(t.in_out_ratio_bad as int, 100_000)),
        ("source"@, JsonView::Str(source_name(t.source))),
        ("samples"@, JsonView::UInt(t.samples as u64)),
    ]
}

impl AdaptiveThresholds {
    /// The thresholds as they are shown.
    pub fn to_json(&self) -> (r: Json)
        ensures
            r@ == JsonView::Obj(threshold_fields(*self)),
    {
        let t = self;
        let source = match t.source {
            ThresholdSource::Learned => "learned",
            ThresholdSource::Default => "default",
        };
        let f = Fields::new()
            .put("conn_matchmaking_high", rounded_json(t.conn_matchmaking_high as i128, 100_000))
            .put(
                "conn_matchmaking_elevated",
                rounded_json(t.conn_matchmaking_elevated as i128, 100_000),
            )
            .put("mm_delta_bad", rounded_json(t.mm_delta_bad as i128, 100_000))
            .put("mm_delta_warn", rounded_json(t.mm_delta_warn as i128, 100_000))
            .put("jitter_bad", rounded_json(t.jitter_bad as i128, 100_000))
            .put("wan_jitter_bad", rounded_json(t.wan_jitter_bad as i128, 100_000))
            .put("conn_good_ceiling", rounded_json(t.conn_good_ceiling as i128, 100_000))
            .put("conn_marginal_low", rounded_json(t.conn_marginal_low as i128, 100_000))
            .put("conn_marginal_high", rounded_json(t.conn_marginal_high as i128, 100_000))
            .put("inbound_mbps_elevated", rounded_json(t.inbound_mbps_elevated as i128, 100_000))
            .put("inbound_mbps_bad", rounded_json(t.inbound_mbps_bad as i128, 100_000))
            .put("in_out_ratio_bad", rounded_json(t.in_out_ratio_bad as i128, 100_000))
            .put("source", text(source))
            .put("samples", Json::UInt(t.samples as u64));
        assert(f@ =~= threshold_fields(*self));
        f.done()
    }
}

// ---------------------------------------------------------------------------------------------
// Information flow

/// Where the measure is described.
pub open spec fn measure_fields() -> Entries {
    seq![
        ("doi"@, JsonView::Str("10.5281/zenodo.17373031"@)),
        ("url"@, JsonView::Str("https://zenodo.org/records/17373031"@)),
    ]
}

fn measure_json() -> (r: Json)
    ensures
        r@ == JsonView::Obj(measure_fields()),
{
    let f = Fields::new()
        .put("doi", text("10.5281/zenodo.17373031"))
        .put("url", text("https://zenodo.org/records/17373031"));
    assert(f@ =~= measure_fields());
    f.done()
}

/// What the measure is not.
pub open spec fn barrier_fields() -> Entries {
    seq![
        (
            "natural_proofs"@,
            JsonView::Str("dynamic real-valued measure — not boolean function property"@),
        ),
        ("relativization"@, JsonView::Str("internal state transitions — not oracle black-box"@)),
        ("algebraization"@, JsonView::Str("Shannon entropy — not finite-field algebra"@)),
    ]
}

fn barriers_json() -> (r: Json)
    ensures
        r@ == JsonView::Obj(barrier_fields()),
{
    let f = Fields::new()
        .put("natural_proofs", text("dynamic real-valued measure — not boolean function property"))
        .put("relativization", text("internal state transitions — not oracle black-box"))
        .put("algebraization", text("Shannon entropy — not finite-field algebra"));
    assert(f@ =~= barrier_fields());
    f.done()
}

/// A step of the information flow.
pub open spec fn flow_fields(s: FlowStep) -> Entries {
    seq![
        ("zenodo"@, JsonView::Obj(measure_fields())),
        ("definition"@, JsonView::Str("Flow(M,x,t) = H(State_t | State_{t-1})"@)),
        ("flow_bits"@, real_view(s.flow_bits as int)),
        ("byte_flow_bits"@, real_view(s.byte_flow as int)),
        ("total_flow_bits"@, real_view(s.total_flow_bits as int)),
        ("steps"@, JsonView::UInt(s.steps as u64)),
        ("superlinear_flow"@, JsonView::Bool(s.superlinear)),
        ("prg_like"@, JsonView::Bool(s.prg_like)),
        ("alerts"@, texts_view(views(s.alerts@))),
        ("barriers"@, JsonView::Obj(barrier_fields())),
    ]
}

impl InformationFlowTracker {
    /// A step of the information flow as it is shown.
    pub fn to_json(&self, step: &FlowStep) -> (r: Json)
        ensures
            r@ == JsonView::Obj(flow_fields(*step)),
    {
        let s = step;
        let f = Fields::new()
            .put("zenodo", measure_json())
            .put("definition", text("Flow(M,x,t) = H(State_t | State_{t-1})"))
            .put("flow_bits", real_json(s.flow_bits))
            .put("byte_flow_bits", real_json(s.byte_flow))
            .put("total_flow_bits", real_json(s.total_flow_bits))
            .put("steps", Json::UInt(s.steps as u64))
            .put("superlinear_flow", Json::Bool(s.superlinear))
            .put("prg_like", Json::Bool(s.prg_like))
            .put("alerts", texts(&s.alerts))
            .put("barriers", barriers_json());
        assert(f@ =~= flow_fields(*step));
        f.done()
    }
}

// ---------------------------------------------------------------------------------------------
// Inbound traffic

/// What an inbound analysis is based on, with two decimals.
pub open spec fn inbound_metric_fields(m: InboundMetrics) -> Entries {
    seq![
        ("inbound_mbps"@, rounded_view(m.sample.inbound_mbps as int, 10_000)),
        ("outbound_mbps"@, rounded_view(m.sample.outbound_mbps as int, 10_000)),
        ("total_kpps"@, rounded_view(m.sample.total_kpps as int, 10_000)),
        ("connections"@, int_view(m.sample.connections as int)),
        ("inbound_connections"@, JsonView::UInt(m.sample.inbound_conns)),
        ("unknown_inbound_connections"@, JsonView::UInt(m.sample.unknown_inbound_conns)),
        ("xbox_download_bytes"@, JsonView::UInt(m.sample.xbox_download_bytes)),
        ("xbox_upload_bytes"@, JsonView::UInt(m.sample.xbox_upload_bytes)),
        ("in_out_byte_ratio"@, rounded_view(m.sample.in_out_byte_ratio as int, 10_000)),
        ("wan_latency_ms"@, opt_real_view(m.sample.wan_latency_ms)),
        ("baseline_inbound_mbps"@, rounded_view(m.base.inbound as int, 10_000)),
        ("baseline_connections"@, rounded_view(m.base.connections as int, 10_000)),
        ("download_by_role"@, tally_object(m.download_by_role@)),
    ]
}

fn inbound_metrics_json(m: &InboundMetrics) -> (r: Json)
    ensures
        r@ == JsonView::Obj(inbound_metric_fields(*m)),
{
    let f = Fields::new()
        .put("inbound_mbps", rounded_json(m.sample.inbound_mbps as i128, 10_000))
        .put("outbound_mbps", rounded_json(m.sample.outbound_mbps as i128, 10_000))
        .put("total_kpps", rounded_json(m.sample.total_kpps as i128, 10_000))
        .put("connections", int_json(m.sample.connections))
        .put("inbound_connections", Json::UInt(m.sample.inbound_conns))
        .put("unknown_inbound_connections", Json::UInt(m.sample.unknown_inbound_conns))
        .put("xbox_download_bytes", Json::UInt(m.sample.xbox_download_bytes))
        .put("xbox_upload_bytes", Json::UInt(m.sample.xbox_upload_bytes))
        .put("in_out_byte_ratio", rounded_json(m.sample.in_out_byte_ratio as i128, 10_000))
        .put("wan_latency_ms", opt_real_json(m.sample.wan_latency_ms))
        .put("baseline_inbound_mbps", rounded_json(m.base.inbound as i128, 10_000))
        .put("baseline_connections", rounded_json(m.base.connections as i128, 10_000))
        .put("download_by_role", tally_json(&m.download_by_role));
    assert(f@ =~= inbound_metric_fields(*m));
    f.done()
}

/// An inbound analysis, its score as a percentage with one decimal.
pub open spec fn inbound_fields(a: InboundAnalysis) -> Entries {
    seq![
        ("score"@, percent_view(a.score as int)),
        ("verdict"@, JsonView::Str(a.verdict@)),
        ("alerts"@, texts_view(views(a.alerts@))),
        ("signals"@, JsonView::Obj(signal_fields(signal_views(a.signals@)))),
        (
            "metrics"@,
            match a.metrics {
                Some(m) => JsonView::Obj(inbound_metric_fields(m)),
                None => JsonView::Obj(Seq::empty()),
            },
        ),
    ]
}

impl InboundAnalysis {
    /// The analysis as it is shown.
    pub fn to_json(&self) -> (r: Json)
        ensures
            r@ == JsonView::Obj(inbound_fields(*self)),
    {
        let a = self;
        let metrics = match &a.metrics {
            Some(m) => inbound_metrics_json(m),
            None => Fields::new().done(),
        };
        let f = Fields::new()
            .put("score", percent_json(a.score))
            .put("verdict", text(a.verdict))
            .put("alerts", texts(&a.alerts))
            .put("signals", signals_json(&a.signals))
            .put("metrics", metrics);
        assert(f@ =~= inbound_fields(*self));
        f.done()
    }
}

// ---------------------------------------------------------------------------------------------
// Captured packets

/// A row of the peer table.
pub open spec fn row_fields(p: PeerRow) -> Entries {
    seq![
        ("ip"@, JsonView::Str(p.ip@)),
        ("remote"@, JsonView::Str(p.remote@)),
        ("label"@, JsonView::Str(p.label@)),
        ("role"@, JsonView::Str(p.role@)),
        ("confirmed"@, JsonView::Bool(p.confirmed)),
        ("total_packets"@, JsonView::UInt(p.total_packets)),
        ("tiny_packets"@, JsonView::UInt(p.tiny_packets)),
        ("identical_count"@, JsonView::UInt(p.identical_count)),
        ("identical_size"@, JsonView::UInt(p.identical_size)),
        ("packet_size_min"@, JsonView::UInt(p.packet_size_min)),
        ("packet_size_max"@, JsonView::UInt(p.packet_size_max)),
        ("fixed_size"@, JsonView::Bool(p.fixed_size)),
        ("vps_probe"@, JsonView::Bool(p.vps_probe)),
        ("suspicious"@, JsonView::Bool(p.suspicious)),
    ]
}

impl PeerRow {
    /// The row as it is shown.
    pub fn to_json(&self) -> (r: Json)
        ensures
            r@ == JsonView::Obj(row_fields(*self)),
    {
        let p = self;
        let f = Fields::new()
            .put("ip", text(p.ip.as_str()))
            .put("remote", text(p.remote.as_str()))
            .put("label", text(p.label.as_str()))
            .put("role", text(p.role.as_str()))
            .put("confirmed", Json::Bool(p.confirmed))
            .put("total_packets", Json::UInt(p.total_packets))
            .put("tiny_packets", Json::UInt(p.tiny_packets))
            .put("identical_count", Json::UInt(p.identical_count))
            .put("identical_size", Json::UInt(p.identical_size))
            .put("packet_size_min", Json::UInt(p.packet_size_min))
            .put("packet_size_max", Json::UInt(p.packet_size_max))
            .put("fixed_size", Json::Bool(p.fixed_size))
            .put("vps_probe", Json::Bool(p.vps_probe))
            .put("suspicious", Json::Bool(p.suspicious));
        assert(f@ =~= row_fields(*self));
        f.done()
    }
}

/// A probe host that is to be blocked.
pub open spec fn probe_fields(p: PeerRow) -> Entries {
    seq![
        ("ip"@, JsonView::Str(p.ip@)),
        ("label"@, JsonView::Str(p.label@)),
        ("role"@, JsonView::Str(p.role@)),
        ("vps_probe"@, JsonView::Bool(true)),
        ("reason"@, JsonView::Str("vultr_vps_probe"@)),
    ]
}

fn probe_json(p: &PeerRow) -> (r: Json)
    ensures
        r@ == JsonView::Obj(probe_fields(*p)),
{
    let f = Fields::new()
        .put("ip", text(p.ip.as_str()))
        .put("label", text(p.label.as_str()))
        .put("role", text(p.role.as_str()))
        .put("vps_probe", Json::Bool(true))
        .put("reason", text("vultr_vps_probe"));
    assert(f@ =~= probe_fields(*p));
    f.done()
}

/// All rows.
pub open spec fn rows_view(v: Seq<PeerRow>) -> JsonView {
    JsonView::Arr(v.map_values(|x: PeerRow| JsonView::Obj(row_fields(x))))
}

pub fn rows_json(v: &Vec<PeerRow>) -> (r: Json)
    ensures
        r@ == rows_view(v@),
{
    let ghost want = v@.map_values(|x: PeerRow| JsonView::Obj(row_fields(x)));
    let mut out: Vec<Json> = Vec::new();
    let mut i: usize = 0;
    while i < v.len()
        invariant
            i <= v.len(),
            want == v@.map_values(|x: PeerRow| JsonView::Obj(row_fields(x))),
            json_views(out@) == want.take(i as int),
        decreases v.len() - i,
    {
        let ghost before = out@;
        let d = v[i].to_json();
        out.push(d);
        assert(json_views(out@) =~= json_views(before).push(d@));
        assert(json_views(out@) =~= want.take(i + 1));
        i += 1;
    }
    assert(want.take(i as int) =~= want);
    array(out)
}

/// The rows of probe hosts, in order: the whole row, or what says why to block them.
pub open spec fn probe_views(v: Seq<PeerRow>, brief: bool) -> Seq<JsonView>
    decreases v.len(),
{
    if v.len() == 0 {
        Seq::empty()
    } else {
        let before = probe_views(v.drop_last(), brief);
        if v.last().vps_probe {
            before.push(
                JsonView::Obj(
                    if brief {
                        probe_fields(v.last())
                    } else {
                        row_fields(v.last())
                    },
                ),
            )
        } else {
            before
        }
    }
}

fn probes_json(v: &Vec<PeerRow>, brief: bool) -> (r: Json)
    ensures
        r@ == JsonView::Arr(probe_views(v@, brief)),
{
    let mut out: Vec<Json> = Vec::new();
    let mut i: usize = 0;
    assert(json_views(out@) =~= Seq::empty());
    while i < v.len()
        invariant
            i <= v.len(),
            json_views(out@) == probe_views(v@.take(i as int), brief),
        decreases v.len() - i,
    {
        proof {
            let t = v@.take(i + 1);
            assert(t.drop_last() =~= v@.take(i as int));
        }
        if v[i].vps_probe {
            let ghost before = out@;
            let d = if brief {
                probe_json(&v[i])
            } else {
                v[i].to_json()
            };
            out.push(d);
            assert(json_views(out@) =~= json_views(before).push(d@));
        }
        i += 1;
    }
    assert(v@.take(i as int) =~= v@);
    array(out)
}

/// Why there is no packet.
pub open spec fn no_capture_fields(
    reason: Seq<char>,
    xbox_online: bool,
    capture_enabled: bool,
    pressure_mode: Seq<char>,
    window_sec: u64,
) -> Entries {
    seq![
        ("enabled"@, JsonView::Bool(false)),
        ("reason"@, JsonView::Str(reason)),
        ("xbox_online"@, JsonView::Bool(xbox_online)),
        ("capture_enabled"@, JsonView::Bool(capture_enabled)),
        ("pressure_mode"@, JsonView::Str(pressure_mode)),
        ("window_sec"@, JsonView::UInt(window_sec)),
    ]
}

fn no_capture_json(
    reason: &str,
    xbox_online: bool,
    capture_enabled: bool,
    pressure_mode: &str,
    window_sec: u64,
) -> (r: Json)
    ensures
        r@ == JsonView::Obj(
            no_capture_fields(reason@, xbox_online, capture_enabled, pressure_mode@, window_sec),
        ),
{
    let f = Fields::new()
        .put("enabled", Json::Bool(false))
        .put("reason", text(reason))
        .put("xbox_online", Json::Bool(xbox_online))
        .put("capture_enabled", Json::Bool(capture_enabled))
        .put("pressure_mode", text(pressure_mode))
        .put("window_sec", Json::UInt(window_sec));
    assert(f@ =~= no_capture_fields(
        reason@,
        xbox_online,
        capture_enabled,
        pressure_mode@,
        window_sec,
    ));
    f.done()
}

/// What an analysis of packets is based on. Packets of single peers are not counted here.
pub open spec fn capture_fields(
    st: CaptureStats,
    sent: JsonView,
    unknown_in: u64,
    game_in: u64,
    peers: Seq<PeerRow>,
    records: usize,
) -> Entries {
    seq![
        ("enabled"@, JsonView::Bool(true)),
        ("total"@, count_view(st.total as nat)),
        ("inbound"@, count_view(st.inbound as nat)),
        ("outbound"@, sent),
        ("inbound_ratio"@, real_view(kept(hundredths_of(st.inbound as nat, st.total as nat)))),
        ("tiny_inbound"@, count_view(st.tiny_in as nat)),
        ("large_inbound"@, count_view(st.large_in as nat)),
        ("unique_inbound_remotes"@, count_view(st.unique_in as nat)),
        ("udp_inbound"@, count_view(st.udp_in as nat)),
        ("tcp_syn_inbound"@, count_view(st.syn_in as nat)),
        ("avg_inbound_size"@, real_view(st.avg_in as int)),
        ("avg_outbound_size"@, real_view(st.avg_out as int)),
        ("unknown_inbound_packets"@, JsonView::UInt(unknown_in)),
        ("game_inbound_packets"@, JsonView::UInt(game_in)),
        ("peer_inbound_packets"@, JsonView::UInt(0)),
        ("peer_tiny_inbound"@, JsonView::UInt(0)),
        ("suspicious_peers"@, JsonView::Arr(probe_views(peers, true))),
        ("vps_game_peers"@, JsonView::Arr(probe_views(peers, false))),
        ("inbound_identical_peers"@, rows_view(peers)),
        ("records_in_snapshot"@, JsonView::UInt(records as u64)),
    ]
}

fn capture_json(
    st: &CaptureStats,
    outbound: &Json,
    unknown_in: u64,
    game_in: u64,
    peers: &Vec<PeerRow>,
    records: usize,
) -> (r: Json)
    ensures
        r@ == JsonView::Obj(
            capture_fields(*st, outbound@, unknown_in, game_in, peers@, records),
        ),
{
    let share: i64 = keep(hundredths(st.inbound, st.total));
    let f = Fields::new()
        .put("enabled", Json::Bool(true))
        .put("total", count_json(st.total))
        .put("inbound", count_json(st.inbound))
        .put("outbound", outbound.dup())
        .put("inbound_ratio", real_json(share))
        .put("tiny_inbound", count_json(st.tiny_in))
        .put("large_inbound", count_json(st.large_in))
        .put("unique_inbound_remotes", count_json(st.unique_in))
        .put("udp_inbound", count_json(st.udp_in))
        .put("tcp_syn_inbound", count_json(st.syn_in))
        .put("avg_inbound_size", real_json(st.avg_in))
        .put("avg_outbound_size", real_json(st.avg_out))
        .put("unknown_inbound_packets", Json::UInt(unknown_in))
        .put("game_inbound_packets", Json::UInt(game_in))
        .put("peer_inbound_packets", Json::UInt(0))
        .put("peer_tiny_inbound", Json::UInt(0))
        .put("suspicious_peers", probes_json(peers, true))
        .put("vps_game_peers", probes_json(peers, false))
        .put("inbound_identical_peers", rows_json(peers))
        .put("records_in_snapshot", Json::UInt(records as u64));
    assert(f@ =~= capture_fields(*st, outbound@, unknown_in, game_in, peers@, records));
    f.done()
}

/// What an analysis of packets is based on.
pub open spec fn packet_metrics_view(m: PacketMetrics) -> JsonView {
    match m {
        PacketMetrics::Idle => JsonView::Obj(Seq::empty()),
        PacketMetrics::NoCapture {
            reason,
            xbox_online,
            capture_enabled,
            pressure_mode,
            window_sec,
        } => JsonView::Obj(
            no_capture_fields(reason@, xbox_online, capture_enabled, pressure_mode@, window_sec),
        ),
        PacketMetrics::Capture { stats, outbound, unknown_in, game_in, peers, records } =>
            JsonView::Obj(
                capture_fields(stats, outbound@, unknown_in, game_in, peers@, records),
            ),
    }
}

fn packet_metrics_json(m: &PacketMetrics) -> (r: Json)
    ensures
        r@ == packet_metrics_view(*m),
{
    match m {
        PacketMetrics::Idle => Fields::new().done(),
        PacketMetrics::NoCapture {
            reason,
            xbox_online,
            capture_enabled,
            pressure_mode,
            window_sec,
        } => no_capture_json(
            reason.as_str(),
            *xbox_online,
            *capture_enabled,
            pressure_mode.as_str(),
            *window_sec,
        ),
        PacketMetrics::Capture { stats, outbound, unknown_in, game_in, peers, records } =>
            capture_json(stats, outbound, *unknown_in, *game_in, peers, *records),
    }
}

/// An analysis of packets, its score as a percentage with one decimal.
pub open spec fn packet_fields(a: PacketAnalysis) -> Entries {
    seq![
        ("score"@, percent_view(a.score as int)),
        ("verdict"@, JsonView::Str(a.verdict@)),
        ("alerts"@, texts_view(views(a.alerts@))),
        ("signals"@, JsonView::Obj(signal_fields(signal_views(a.signals@)))),
        ("metrics"@, packet_metrics_view(a.metrics)),
    ]
}

impl PacketAnalysis {
    /// The analysis as it is shown.
    pub fn to_json(&self) -> (r: Json)
        ensures
            r@ == JsonView::Obj(packet_fields(*self)),
    {
        let a = self;
        let f = Fields::new()
            .put("score", percent_json(a.score))
            .put("verdict", text(a.verdict))
            .put("alerts", texts(&a.alerts))
            .put("signals", signals_json(&a.signals))
            .put("metrics", packet_metrics_json(&a.metrics));
        assert(f@ =~= packet_fields(*self));
        f.done()
    }
}

/// An inspection of a capture.
pub open spec fn inspection_fields(c: CaptureReport) -> Entries {
    seq![
        ("analysis"@, JsonView::Obj(packet_fields(c.analysis))),
        ("captured"@, c.captured@),
        ("captureCount"@, c.capture_count@),
        ("records"@, JsonView::Arr(json_views(c.records@))),
        ("flows"@, JsonView::Arr(json_views(c.flows@))),
        ("stats"@, c.stats@),
    ]
}

impl CaptureReport {
    /// The inspection as it is shown.
    pub fn to_json(&self) -> (r: Json)
        ensures
            r@ == JsonView::Obj(inspection_fields(*self)),
    {
        let c = self;
        let f = Fields::new()
            .put("analysis", c.analysis.to_json())
            .put("captured", c.captured.dup())
            .put("captureCount", c.capture_count.dup())
            .put("records", array(dup_first(&c.records, c.records.len())))
            .put("flows", array(dup_first(&c.flows, c.flows.len())))
            .put("stats", c.stats.dup());
        assert(f@ =~= inspection_fields(*self));
        f.done()
    }
}

// ---------------------------------------------------------------------------------------------
// Connections and flows

/// A role with its number of connections.
pub open spec fn role_count_view(e: (Seq<char>, u64)) -> JsonView {
    JsonView::Obj(seq![("role"@, JsonView::Str(e.0)), ("count"@, JsonView::UInt(e.1))])
}

fn role_counts_json(v: &Vec<(String, u64)>) -> (r: Json)
    ensures
        r@ == JsonView::Arr(name_counts(v@).map_values(|e: (Seq<char>, u64)| role_count_view(e))),
{
    let ghost want = name_counts(v@).map_values(|e: (Seq<char>, u64)| role_count_view(e));
    let mut out: Vec<Json> = Vec::new();
    let mut i: usize = 0;
    while i < v.len()
        invariant
            i <= v.len(),
            want == name_counts(v@).map_values(|e: (Seq<char>, u64)| role_count_view(e)),
            json_views(out@) == want.take(i as int),
        decreases v.len() - i,
    {
        let ghost before = out@;
        let f = Fields::new().put("role", text(v[i].0.as_str())).put("count", Json::UInt(v[i].1));
        assert(f@ =~= role_count_view((v@[i as int].0@, v@[i as int].1))->Obj_0);
        let d = f.done();
        out.push(d);
        assert(json_views(out@) =~= json_views(before).push(d@));
        assert(name_counts(v@)[i as int] == (v@[i as int].0@, v@[i as int].1));
        assert(json_views(out@) =~= want.take(i + 1));
        i += 1;
    }
    assert(want.take(i as int) =~= want);
    array(out)
}

/// The numbers of an inspection of traffic.
pub open spec fn summary_fields(t: TrafficReport, snapshot: JsonView) -> Entries {
    seq![
        ("connections_total"@, JsonView::UInt(t.connections_total)),
        ("connections_shown"@, JsonView::UInt(t.connections_shown)),
        ("connections_truncated"@, JsonView::Bool(t.connections_truncated)),
        ("connections_out"@, JsonView::UInt(t.connections_out)),
        ("connections_in"@, JsonView::UInt(t.connections_in)),
        ("connections_list"@, JsonView::UInt(t.connections_list)),
        ("flows_with_upload"@, JsonView::UInt(t.flows_with_upload)),
        ("flows_with_download"@, JsonView::UInt(t.flows_with_download)),
        ("xbox_upload_bytes"@, JsonView::UInt(t.xbox_upload_bytes)),
        ("xbox_download_bytes"@, JsonView::UInt(t.xbox_download_bytes)),
        ("sample_window_sec"@, or_null(snapshot.field_in("sample"@, "windowSec"@))),
        ("sample_bytes_out"@, or_null(snapshot.field_in("sample"@, "bytesOut"@))),
        ("sample_bytes_in"@, or_null(snapshot.field_in("sample"@, "bytesIn"@))),
        (
            "flow_source"@,
            or_null(or_else(snapshot.field("flowSource"@), snapshot.field("flow_source"@))),
        ),
        (
            "note"@,
            JsonView::Str("Connections use socket direction; flow upload/download are Xbox-relative (Firewalla flow.direction is WAN-relative)."@),
        ),
    ]
}

fn summary_json(t: &TrafficReport, snapshot: &Json) -> (r: Json)
    ensures
        r@ == JsonView::Obj(summary_fields(*t, snapshot@)),
{
    let f = Fields::new()
        .put("connections_total", Json::UInt(t.connections_total))
        .put("connections_shown", Json::UInt(t.connections_shown))
        .put("connections_truncated", Json::Bool(t.connections_truncated))
        .put("connections_out", Json::UInt(t.connections_out))
        .put("connections_in", Json::UInt(t.connections_in))
        .put("connections_list", Json::UInt(t.connections_list))
        .put("flows_with_upload", Json::UInt(t.flows_with_upload))
        .put("flows_with_download", Json::UInt(t.flows_with_download))
        .put("xbox_upload_bytes", Json::UInt(t.xbox_upload_bytes))
        .put("xbox_download_bytes", Json::UInt(t.xbox_download_bytes))
        .put("sample_window_sec", dup_or_null(snapshot.get_in("sample", "windowSec")))
        .put("sample_bytes_out", dup_or_null(snapshot.get_in("sample", "bytesOut")))
        .put("sample_bytes_in", dup_or_null(snapshot.get_in("sample", "bytesIn")))
        .put("flow_source", dup_or_null(snapshot.get_either("flowSource", "flow_source")))
        .put(
            "note",
            text("Connections use socket direction; flow upload/download are Xbox-relative (Firewalla flow.direction is WAN-relative)."),
        );
    assert(f@ =~= summary_fields(*t, snapshot@));
    f.done()
}

/// An inspection of a snapshot's traffic.
pub open spec fn traffic_fields(t: TrafficReport, snapshot: JsonView) -> Entries {
    seq![
        ("direction"@, JsonView::Str(t.direction@)),
        ("summary"@, JsonView::Obj(summary_fields(t, snapshot))),
        (
            "by_role"@,
            JsonView::Arr(
                name_counts(t.by_role@).map_values(|e: (Seq<char>, u64)| role_count_view(e)),
            ),
        ),
        ("connections"@, JsonView::Arr(json_views(t.connections@))),
        ("flows"@, JsonView::Arr(json_views(t.flows@))),
        (
            "dns_destinations"@,
            or_null(
                or_else(snapshot.field("dnsDestinations"@), snapshot.field("dns_destinations"@)),
            ),
        ),
    ]
}

impl TrafficReport {
    /// The inspection of `snapshot` as it is shown.
    pub fn to_json(&self, snapshot: &Json) -> (r: Json)
        ensures
            r@ == JsonView::Obj(traffic_fields(*self, snapshot@)),
    {
        let t = self;
        let f = Fields::new()
            .put("direction", text(t.direction.as_str()))
            .put("summary", summary_json(t, snapshot))
            .put("by_role", role_counts_json(&t.by_role))
            .put("connections", array(dup_first(&t.connections, t.connections.len())))
            .put("flows", array(dup_first(&t.flows, t.flows.len())))
            .put(
                "dns_destinations",
                dup_or_null(snapshot.get_either("dnsDestinations", "dns_destinations")),
            );
        assert(f@ =~= traffic_fields(*self, snapshot@));
        f.done()
    }
}

// ---------------------------------------------------------------------------------------------
// Reported events

/// A reported event.
pub open spec fn event_fields(e: EventLine) -> Entries {
    seq![
        ("ts"@, real_view(e.ts as int)),
        ("type"@, JsonView::Str(e.event_type@)),
        ("player"@, JsonView::Str(e.player@)),
        ("playlist"@, JsonView::Str(e.playlist@)),
        ("source"@, JsonView::Str(e.source@)),
        ("note"@, JsonView::Str(e.note@)),
    ]
}

fn event_json(e: &EventLine) -> (r: Json)
    ensures
        r@ == JsonView::Obj(event_fields(*e)),
{
    let f = Fields::new()
        .put("ts", real_json(e.ts))
        .put("type", text(e.event_type.as_str()))
        .put("player", text(e.player.as_str()))
        .put("playlist", text(e.playlist.as_str()))
        .put("source", text(e.source.as_str()))
        .put("note", text(e.note.as_str()));
    assert(f@ =~= event_fields(*e));
    f.done()
}

/// All events.
pub open spec fn events_view(v: Seq<EventLine>) -> JsonView {
    JsonView::Arr(v.map_values(|x: EventLine| JsonView::Obj(event_fields(x))))
}

fn events_json(v: &Vec<EventLine>) -> (r: Json)
    ensures
        r@ == events_view(v@),
{
    let ghost want = v@.map_values(|x: EventLine| JsonView::Obj(event_fields(x)));
    let mut out: Vec<Json> = Vec::new();
    let mut i: usize = 0;
    while i < v.len()
        invariant
            i <= v.len(),
            want == v@.map_values(|x: EventLine| JsonView::Obj(event_fields(x))),
            json_views(out@) == want.take(i as int),
        decreases v.len() - i,
    {
        let ghost before = out@;
        let d = event_json(&v[i]);
        out.push(d);
        assert(json_views(out@) =~= json_views(before).push(d@));
        assert(json_views(out@) =~= want.take(i + 1));
        i += 1;
    }
    assert(want.take(i as int) =~= want);
    array(out)
}

/// The reported events as they are shown.
pub open spec fn game_fields(g: GameReport) -> Entries {
    seq![
        ("playlist"@, JsonView::Str(g.playlist@)),
        ("recent_kick"@, JsonView::Bool(g.recent_kick)),
        (
            "kick_age_sec"@,
            match g.kick_age_sec {
                Some(age) => real_view(kept(age as int)),
                None => JsonView::Null,
            },
        ),
        ("flagged_players"@, JsonView::UInt(g.flagged_players as u64)),
        ("events"@, events_view(g.events@)),
    ]
}

impl GameReport {
    /// The report as it is shown.
    pub fn to_json(&self) -> (r: Json)
        ensures
            r@ == JsonView::Obj(game_fields(*self)),
    {
        let g = self;
        let age = match g.kick_age_sec {
            Some(age) => real_json(keep(age)),
            None => Json::Null,
        };
        let f = Fields::new()
            .put("playlist", text(g.playlist.as_str()))
            .put("recent_kick", Json::Bool(g.recent_kick))
            .put("kick_age_sec", age)
            .put("flagged_players", Json::UInt(g.flagged_players as u64))
            .put("events", events_json(&g.events));
        assert(f@ =~= game_fields(*self));
        f.done()
    }
}

/// A verdict is told as likely where it is, with six reasons at most.
pub proof fn verdicts_are_told(v: CheaterVerdict)
    ensures
        ({
            let f = verdict_fields(v);
            &&& f[2] == ("likely"@, JsonView::Bool(v.label@ == "LIKELY"@))
            &&& f[0] == ("label"@, JsonView::Str(v.label@))
            &&& f[3].1 is Arr && f[3].1->Arr_0.len() <= 6
        }),
{
}

/// Limits are told as learned or not.
pub proof fn limits_tell_their_source(a: ThresholdSource, b: ThresholdSource)
    ensures
        source_name(a) == source_name(b) ==> a == b,
        source_name(a) == "learned"@ <==> a == ThresholdSource::Learned,
{
    reveal_strlit("learned");
    reveal_strlit("default");
    assert("learned"@[0] == 'l' && "default"@[0] == 'd');
}

} // verus!
