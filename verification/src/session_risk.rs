//! The risk of a live session: its signals, its verdict, and what to say about it.
use vstd::prelude::*;

use crate::adaptive::{learned_baseline, learned_thresholds};
use crate::adjust::adjusted;
use crate::cheater_lobby::{
    assess, lobby_case, lobby_roles, opinions_only_raise, opt_int, queue_delta, verdict_on,
    with_new, CheaterVerdict,
};
use crate::counts::{count_in, plus, sat_add, Tally};
use crate::enrich::RoleRule;
use crate::fixed::{
    capped, capped_ratio, clamped, deviation, divide, equal_values_do_not_deviate, fmt0, fmt2,
    hundredths_text, larger, last_of, lemma_quotient, max_i64, mean, mean_and_deviation, quotient,
    quotients_compare, smaller, whole_text, within_limit, LIMIT, ONE,
};
use crate::game_state::text_or;
use crate::information_flow::FlowStep;
use crate::json::{array_of, items_or_empty, json_views, opt_view, Json, JsonView};
use crate::learning::{pushed, AdaptiveThresholds, LearningEngine, LearningView};
use crate::network_session::{
    role_counts, session_roles, NetworkSessionScorer, PollKind, PollStart, ScorerView, MAX_SCORES,
};
use crate::packets::{analyze_packets, is_packet_analysis, PacketAnalysis};
use crate::signals::{lemma_given, named, signal_views, weigh, Findings, FindingsView, Signal};
use crate::snapshot::{conn_total, connections, gaming, is_gaming, lemma_phase_words};
use crate::text::{cat, cat3, dec_int, decimal_int, dup_texts, position, same, views};
use crate::traffic::{
    analyze_inbound, base_rates, is_inbound_analysis, share, share_of, InboundAnalysis,
};

verus! {

// ---------------------------------------------------------------------------------------------
// Signals of the session itself

/// What shows in the queue.
pub open spec fn queue_noted(
    f: FindingsView,
    conns: int,
    roles: Seq<(Seq<char>, u64)>,
) -> FindingsView {
    let fan = plus(
        plus(count_in(roles, "matchmaking"@), count_in(roles, "warzone-game"@)),
        count_in(roles, "dedicated-server"@),
    );
    let f1 = if fan >= 2 && conns >= 8 {
        f.noted(
            0,
            "heavy_matchmaking"@,
            smaller(conns * 50_000, ONE as int),
            "Dense matchmaking fan-out ("@ + decimal_int(conns) + " connections)"@,
        )
    } else {
        f
    };
    if count_in(roles, "xbox-live"@) >= 3 {
        f1.marked(0, "xbox_live_churn"@, 500_000)
    } else {
        f1
    }
}

fn note_queue(f: &mut Findings, conns: i64, roles: &Tally)
    requires
        -ONE <= old(f)@.score <= ONE,
    ensures
        final(f)@ == queue_noted(old(f)@, conns as int, roles@),
{
    let fan: u64 = sat_add(
        sat_add(roles.count("matchmaking"), roles.count("warzone-game")),
        roles.count("dedicated-server"),
    );
    if fan >= 2 && conns >= 8 {
        let n = dec_int(conns);
        let strength: i64 = if conns >= 20 {
            ONE
        } else {
            conns * 50_000
        };
        f.note(
            0,
            "heavy_matchmaking",
            strength,
            cat3("Dense matchmaking fan-out (", n.as_str(), " connections)"),
        );
    }
    if roles.count("xbox-live") >= 3 {
        f.mark(0, "xbox_live_churn", 500_000);
    }
}

/// What shows in a match.
pub open spec fn match_noted(
    f: FindingsView,
    roles: Seq<(Seq<char>, u64)>,
    crit: Seq<i64>,
    wan: Seq<i64>,
) -> FindingsView {
    let telemetry = count_in(roles, "telemetry"@);
    let servers = plus(count_in(roles, "warzone-game"@), count_in(roles, "dedicated-server"@));
    let gameplay = plus(servers, count_in(roles, "game-assets"@));
    let jitter = deviation(last_of(crit, 8));
    let latency = mean(last_of(crit, 8));
    let wan_jitter = deviation(last_of(wan, 10));
    let f1 = if telemetry >= 3 && gameplay >= 2 && telemetry >= servers {
        f.noted(
            0,
            "telemetry_noise"@,
            capped_ratio(telemetry as nat, gameplay as nat),
            "Anti-cheat telemetry spike vs gameplay traffic"@,
        )
    } else {
        f
    };
    let f2 = if crit.len() >= 8 && jitter >= 12_000_000 {
        f1.noted(
            0,
            "server_latency_jitter"@,
            share_of(jitter, 40, ONE as int),
            "Game server latency unstable (σ="@ + whole_text(jitter) + "ms)"@,
        )
    } else {
        f1
    };
    let f3 = if crit.len() >= 8 && latency >= 70_000_000 {
        f2.noted(
            0,
            "high_server_latency"@,
            share_of(latency - 50_000_000, 80, ONE as int),
            "High Demonware latency ("@ + whole_text(latency) + "ms)"@,
        )
    } else {
        f2
    };
    if wan.len() >= 10 && wan_jitter >= 15_000_000 {
        f3.noted(
            0,
            "wan_jitter"@,
            share_of(wan_jitter, 50, ONE as int),
            "WAN latency swinging — possible lag manipulation in lobby"@,
        )
    } else {
        f3
    }
}

fn note_match(f: &mut Findings, roles: &Tally, crit: &Vec<i64>, wan: &Vec<i64>)
    requires
        -ONE <= old(f)@.score <= ONE,
        within_limit(crit@),
        within_limit(wan@),
    ensures
        final(f)@ == match_noted(old(f)@, roles@, crit@, wan@),
{
    let telemetry: u64 = roles.count("telemetry");
    let servers: u64 = sat_add(roles.count("warzone-game"), roles.count("dedicated-server"));
    let gameplay: u64 = sat_add(servers, roles.count("game-assets"));
    if telemetry >= 3 && gameplay >= 2 && telemetry >= servers {
        f.note(
            0,
            "telemetry_noise",
            capped(telemetry, gameplay),
            "Anti-cheat telemetry spike vs gameplay traffic".to_owned(),
        );
    }
    if crit.len() >= 8 {
        let (latency, jitter) = mean_and_deviation(crit, 8);
        if jitter >= 12_000_000 {
            let n = fmt0(jitter);
            let s = cat3("Game server latency unstable (σ=", n.as_str(), "ms)");
            f.note(0, "server_latency_jitter", share(jitter, 40, ONE), s);
        }
        if latency >= 70_000_000 {
            let n = fmt0(latency);
            let s = cat3("High Demonware latency (", n.as_str(), "ms)");
            f.note(0, "high_server_latency", share(latency - 50_000_000, 80, ONE), s);
        }
    }
    if wan.len() >= 10 {
        let (_, jitter) = mean_and_deviation(wan, 10);
        if jitter >= 15_000_000 {
            f.note(
                0,
                "wan_jitter",
                share(jitter, 50, ONE),
                "WAN latency swinging — possible lag manipulation in lobby".to_owned(),
            );
        }
    }
}

pub open spec fn severity_strength(sev: Seq<char>) -> int {
    if sev == "high"@ {
        900_000
    } else if sev == "medium"@ {
        550_000
    } else {
        300_000
    }
}

/// What an advisor found, each with its severity.
pub open spec fn advised_noted(f: FindingsView, items: Seq<JsonView>) -> FindingsView
    decreases items.len(),
{
    if items.len() == 0 {
        f
    } else {
        let before = advised_noted(f, items.drop_last());
        let a = items.last();
        let name = "advisor_"@ + text_or(a.field("type"@), "unknown"@);
        let strength = severity_strength(text_or(a.field("severity"@), "medium"@));
        let message = match a.field("message"@) {
            Some(m) => m.text(),
            None => None,
        };
        match message {
            Some(m) => before.noted(0, name, strength, m),
            None => before.marked(0, name, strength),
        }
    }
}

fn str_or_else<'a>(j: Option<&'a Json>, default: &'a str) -> (r: &'a str)
    ensures
        r@ == text_or(opt_view(j), default@),
{
    match j {
        Some(v) => match v.as_str() {
            Some(s) => s,
            None => default,
        },
        None => default,
    }
}

fn note_advised(f: &mut Findings, items: Option<&Json>)
    requires
        old(f)@.score == 0,
    ensures
        final(f)@ == advised_noted(old(f)@, items_or_empty(opt_view(items))),
        final(f)@.score == 0,
{
    if let Some(v) = array_of(items) {
        let ghost all = json_views(v@);
        let mut i: usize = 0;
        while i < v.len()
            invariant
                i <= v.len(),
                all == json_views(v@),
                f@ == advised_noted(old(f)@, all.take(i as int)),
                f@.score == 0,
            decreases v.len() - i,
        {
            let a = &v[i];
            proof {
                let u = all.take(i + 1);
                assert(u.drop_last() =~= all.take(i as int));
                assert(u.last() == a@);
            }
            let sev = str_or_else(a.get("severity"), "medium");
            let strength: i64 = if same(sev, "high") {
                900_000
            } else if same(sev, "medium") {
                550_000
            } else {
                300_000
            };
            let name = cat("advisor_", str_or_else(a.get("type"), "unknown"));
            let message = match a.get("message") {
                Some(m) => m.as_str(),
                None => None,
            };
            match message {
                Some(m) => {
                    f.note(0, name.as_str(), strength, m.to_owned());
                },
                None => {
                    f.mark(0, name.as_str(), strength);
                },
            }
            i += 1;
        }
        assert(all.take(i as int) =~= all);
    }
}

/// What the information flow shows.
pub open spec fn flow_noted(f: FindingsView, step: FlowStep, phase: Seq<char>) -> FindingsView {
    let strength = share_of(step.flow_bits as int, 8, ONE as int);
    let f1 = if step.superlinear {
        f.noted(
            0,
            "superlinear_flow"@,
            strength,
            "Information flow spike: "@ + hundredths_text(step.flow_bits as int)
                + " bits/step (IFC Zenodo 17373031)"@,
        )
    } else if step.flow_bits >= 4_000_000 {
        f.marked(0, "info_flow_spike"@, strength)
    } else {
        f
    };
    let f2 = if step.prg_like {
        f1.noted(
            0,
            "prg_like_traffic"@,
            720_000,
            "PRG-like uniform packet bytes — synthetic traffic proxy"@,
        )
    } else {
        f1
    };
    let f3 = if step.byte_flow >= 6_500_000 && gaming(phase) {
        f2.marked(0, "byte_flow_entropy"@, share_of(step.byte_flow as int, 8, ONE as int))
    } else {
        f2
    };
    FindingsView {
        alerts: with_new(f3.alerts, views(step.alerts@), step.alerts@.len()),
        ..f3
    }
}

pub(crate) fn push_all_new(list: &mut Vec<String>, more: &Vec<String>)
    ensures
        views(final(list)@) == with_new(views(old(list)@), views(more@), more@.len()),
{
    let mut i: usize = 0;
    while i < more.len()
        invariant
            i <= more.len(),
            views(list@) == with_new(views(old(list)@), views(more@), i as nat),
        decreases more.len() - i,
    {
        let ghost before = list@;
        assert(views(more@)[i as int] == more@[i as int]@);
        match position(list, more[i].as_str()) {
            Some(k) => {
                assert(views(list@)[k as int] == more@[i as int]@);
            },
            None => {
                list.push(more[i].clone());
                assert(views(list@) =~= views(before).push(more@[i as int]@));
            },
        }
        i += 1;
    }
}

fn note_flow(f: &mut Findings, step: &FlowStep, phase: &str)
    requires
        old(f)@.score == 0,
        step.flow_bits >= 0,
        step.byte_flow >= 0,
    ensures
        final(f)@ == flow_noted(old(f)@, *step, phase@),
        final(f)@.score == 0,
{
    let strength: i64 = share(step.flow_bits, 8, ONE);
    if step.superlinear {
        let n = fmt2(step.flow_bits);
        let s = cat3(
            "Information flow spike: ",
            n.as_str(),
            " bits/step (IFC Zenodo 17373031)",
        );
        f.note(0, "superlinear_flow", strength, s);
    } else if step.flow_bits >= 4_000_000 {
        f.mark(0, "info_flow_spike", strength);
    }
    if step.prg_like {
        f.note(
            0,
            "prg_like_traffic",
            720_000,
            "PRG-like uniform packet bytes — synthetic traffic proxy".to_owned(),
        );
    }
    if step.byte_flow >= 6_500_000 && is_gaming(phase) {
        f.mark(0, "byte_flow_entropy", share(step.byte_flow, 8, ONE));
    }
    let ghost before = f@;
    push_all_new(&mut f.alerts, &step.alerts);
    assert(f@ =~= FindingsView {
        alerts: with_new(before.alerts, views(step.alerts@), step.alerts@.len()),
        ..before
    });
}

/// The signals of both analyses, a signal for each of their scores from 0.15 on, and their alerts.
pub open spec fn analyses_noted(
    f: FindingsView,
    inbound: FindingsView,
    packets: FindingsView,
) -> FindingsView {
    let s = f.signals + inbound.signals + packets.signals;
    let s = if inbound.score >= 150_000 {
        s.push(("inbound_attack"@, inbound.score))
    } else {
        s
    };
    let s = if packets.score >= 150_000 {
        s.push(("packet_cheat"@, packets.score))
    } else {
        s
    };
    let a = with_new(f.alerts, inbound.alerts, inbound.alerts.len());
    FindingsView {
        score: f.score,
        signals: s,
        alerts: with_new(a, packets.alerts, packets.alerts.len()),
    }
}

fn append_signals(list: &mut Vec<Signal>, more: &Vec<Signal>)
    ensures
        signal_views(final(list)@) == signal_views(old(list)@) + signal_views(more@),
{
    let mut i: usize = 0;
    assert(signal_views(list@) =~= signal_views(old(list)@) + signal_views(more@).take(0));
    while i < more.len()
        invariant
            i <= more.len(),
            signal_views(list@) == signal_views(old(list)@) + signal_views(more@).take(i as int),
        decreases more.len() - i,
    {
        let ghost before = signal_views(list@);
        let s = &more[i];
        list.push(Signal { name: s.name.clone(), strength: s.strength });
        assert(signal_views(list@) =~= before.push((s.name@, s.strength as int)));
        assert(signal_views(list@) =~= signal_views(old(list)@) + signal_views(more@).take(i + 1));
        i += 1;
    }
    assert(signal_views(more@).take(i as int) =~= signal_views(more@));
}

fn note_analyses(f: &mut Findings, inbound: &InboundAnalysis, packets: &PacketAnalysis)
    requires
        old(f)@.score == 0,
    ensures
        final(f)@ == analyses_noted(old(f)@, inbound.findings(), packets.findings()),
{
    append_signals(&mut f.signals, &inbound.signals);
    append_signals(&mut f.signals, &packets.signals);
    if inbound.score >= 150_000 {
        f.mark(0, "inbound_attack", inbound.score);
    }
    if packets.score >= 150_000 {
        f.mark(0, "packet_cheat", packets.score);
    }
    push_all_new(&mut f.alerts, &inbound.alerts);
    push_all_new(&mut f.alerts, &packets.alerts);
    assert(views(inbound.alerts@).len() == inbound.alerts.len());
    assert(views(packets.alerts@).len() == packets.alerts.len());
    assert(f@ =~= analyses_noted(old(f)@, inbound.findings(), packets.findings()));
}

/// All signals of a live session, and what is unusual about it.
pub open spec fn session_findings(
    s: ScorerView,
    roles: Seq<(Seq<char>, u64)>,
    snapshot: JsonView,
    insights: JsonView,
    phase: Seq<char>,
    step: FlowStep,
    inbound: FindingsView,
    packets: FindingsView,
) -> FindingsView {
    let conns = conn_total(snapshot);
    let f = FindingsView::none();
    let f = if phase == "matchmaking"@ {
        queue_noted(f, conns, roles)
    } else {
        f
    };
    let f = if phase == "in-match"@ {
        match_noted(f, roles, s.crit_history, s.wan_history)
    } else {
        f
    };
    let f = advised_noted(f, items_or_empty(insights.field("anomalies"@)));
    let f = flow_noted(f, step, phase);
    analyses_noted(f, inbound, packets)
}

// ---------------------------------------------------------------------------------------------
// Weights

/// The weight of a signal in the mean of all signals.
pub open spec fn signal_weight(name: Seq<char>) -> int {
    if name == "server_latency_jitter"@ {
        18
    } else if name == "telemetry_noise"@ || name == "peer_tiny_flood"@ {
        16
    } else if name == "wan_jitter"@ || name == "peer_micro_burst"@ || name
        == "superlinear_flow"@ {
        15
    } else if name == "heavy_matchmaking"@ || name == "quiet_pool_inbound"@ || name
        == "tiny_packet_flood"@ || name == "suspicious_peer"@ || name == "prg_like_traffic"@
        || name == "suboptimal_matchmaking_path"@ {
        14
    } else if name == "unknown_inbound_fanout"@ || name == "inbound_remote_fanout"@ || name
        == "info_flow_spike"@ {
        13
    } else if name == "high_server_latency"@ || name == "inbound_flood"@ || name
        == "unknown_inbound_packets"@ || name == "packet_cheat"@ || name == "byte_flow_entropy"@ {
        12
    } else if name == "packet_storm"@ {
        11
    } else if name == "xbox_live_churn"@ || name == "inbound_elevated"@ {
        8
    } else {
        10
    }
}

fn weight_of(name: &str) -> (r: u128)
    ensures
        r == signal_weight(name@),
        8 <= r <= 18,
{
    if same(name, "server_latency_jitter") {
        18
    } else if same(name, "telemetry_noise") || same(name, "peer_tiny_flood") {
        16
    } else if same(name, "wan_jitter") || same(name, "peer_micro_burst") || same(
        name,
        "superlinear_flow",
    ) {
        15
    } else if same(name, "heavy_matchmaking") || same(name, "quiet_pool_inbound") || same(
        name,
        "tiny_packet_flood",
    ) || same(name, "suspicious_peer") || same(name, "prg_like_traffic") || same(
        name,
        "suboptimal_matchmaking_path",
    ) {
        14
    } else if same(name, "unknown_inbound_fanout") || same(name, "inbound_remote_fanout") || same(
        name,
        "info_flow_spike",
    ) {
        13
    } else if same(name, "high_server_latency") || same(name, "inbound_flood") || same(
        name,
        "unknown_inbound_packets",
    ) || same(name, "packet_cheat") || same(name, "byte_flow_entropy") {
        12
    } else if same(name, "packet_storm") {
        11
    } else if same(name, "xbox_live_churn") || same(name, "inbound_elevated") {
        8
    } else {
        10
    }
}

pub open spec fn weighted_sum(s: Seq<(Seq<char>, int)>) -> int
    decreases s.len(),
{
    if s.len() == 0 {
        0
    } else {
        weighted_sum(s.drop_last()) + clamped(s.last().1, 0, LIMIT as int) * signal_weight(
            s.last().0,
        )
    }
}

pub open spec fn weight_sum(s: Seq<(Seq<char>, int)>) -> int
    decreases s.len(),
{
    if s.len() == 0 {
        0
    } else {
        weight_sum(s.drop_last()) + signal_weight(s.last().0)
    }
}

/// The weighted mean of all signals as a percentage in millionths, at most 100.
pub open spec fn weighted_score(s: Seq<(Seq<char>, int)>) -> int {
    if s.len() == 0 {
        0
    } else {
        smaller(quotient(weighted_sum(s) * 100, weight_sum(s)), 100_000_000)
    }
}

fn score_signals(signals: &Vec<Signal>) -> (r: i64)
    ensures
        r == weighted_score(signal_views(signals@)),
        0 <= r <= 100_000_000,
{
    let ghost all = signal_views(signals@);
    let mut total: u128 = 0;
    let mut weights: u128 = 0;
    let mut i: usize = 0;
    while i < signals.len()
        invariant
            i <= signals.len(),
            all == signal_views(signals@),
            total == weighted_sum(all.take(i as int)),
            weights == weight_sum(all.take(i as int)),
            total <= i * 0xffff_ffff_ffff_ffff,
            8 * i <= weights <= 18 * i,
        decreases signals.len() - i,
    {
        let s = &signals[i];
        let v: u128 = if s.strength < 0 {
            0
        } else if s.strength > LIMIT {
            LIMIT as u128
        } else {
            s.strength as u128
        };
        let w: u128 = weight_of(s.name.as_str());
        proof {
            let u = all.take(i + 1);
            assert(u.drop_last() =~= all.take(i as int));
            assert(u.last() == (s.name@, s.strength as int));
            assert(0 <= v * w <= 0xffff_ffff_ffff_ffff) by (nonlinear_arith)
                requires
                    0 <= v <= 0x07ff_ffff_ffff_ffff,
                    8 <= w <= 18,
            ;
            assert(i * 0xffff_ffff_ffff_ffff <= 0xffff_ffff_ffff_fffe * 0xffff_ffff_ffff_ffff)
                by (nonlinear_arith)
                requires
                    0 <= i <= 0xffff_ffff_ffff_fffe,
            ;
        }
        total = total + v * w;
        weights = weights + w;
        i += 1;
    }
    assert(all.take(i as int) =~= all);
    if signals.len() == 0 {
        return 0;
    }
    if total < 1_000_000 * weights {
        proof {
            lemma_quotient(total * 100, weights as int, 0, 100_000_000);
        }
        divide(total as i128 * 100, weights as i128) as i64
    } else {
        proof {
            quotients_compare(total * 100, weights as int, 100_000_000);
        }
        100_000_000
    }
}

/// The score that a strong signal alone stands for in a match.
pub open spec fn signal_floor(name: Seq<char>, v: int) -> int {
    if (name == "superlinear_flow"@ || name == "prg_like_traffic"@) && v >= 350_000 {
        420_000
    } else if (name == "peer_tiny_flood"@ || name == "suspicious_peer"@) && v >= 350_000 {
        400_000
    } else if (name == "tiny_packet_flood"@ || name == "packet_cheat"@) && v >= 400_000 {
        380_000
    } else if name == "info_flow_spike"@ && v >= 450_000 {
        360_000
    } else if (name == "inbound_flood"@ || name == "inbound_attack"@) && v >= 400_000 {
        350_000
    } else if name == "server_latency_jitter"@ && v >= 400_000 {
        320_000
    } else if name == "telemetry_noise"@ && v >= 450_000 {
        280_000
    } else {
        0
    }
}

/// The highest of the scores that the signals stand for, and of `start`.
pub open spec fn raised_by_signals(start: int, s: Seq<(Seq<char>, int)>) -> int
    decreases s.len(),
{
    if s.len() == 0 {
        start
    } else {
        larger(
            raised_by_signals(start, s.drop_last()),
            signal_floor(s.last().0, s.last().1),
        )
    }
}

fn floor_of(name: &str, v: i64) -> (r: i64)
    ensures
        r == signal_floor(name@, v as int),
{
    if (same(name, "superlinear_flow") || same(name, "prg_like_traffic")) && v >= 350_000 {
        420_000
    } else if (same(name, "peer_tiny_flood") || same(name, "suspicious_peer")) && v >= 350_000 {
        400_000
    } else if (same(name, "tiny_packet_flood") || same(name, "packet_cheat")) && v >= 400_000 {
        380_000
    } else if same(name, "info_flow_spike") && v >= 450_000 {
        360_000
    } else if (same(name, "inbound_flood") || same(name, "inbound_attack")) && v >= 400_000 {
        350_000
    } else if same(name, "server_latency_jitter") && v >= 400_000 {
        320_000
    } else if same(name, "telemetry_noise") && v >= 450_000 {
        280_000
    } else {
        0
    }
}

/// The adjusted score, raised in a match by strong signals, many connections, and the user's word.
pub open spec fn match_score(
    start: int,
    phase: Seq<char>,
    signals: Seq<(Seq<char>, int)>,
    conns: int,
    confirmed_bad: bool,
) -> int {
    if phase == "in-match"@ {
        let a = raised_by_signals(start, signals);
        let b = if conns >= 80 {
            larger(a, 250_000)
        } else {
            a
        };
        if confirmed_bad {
            larger(b, 580_000)
        } else {
            b
        }
    } else {
        start
    }
}

fn raise_in_match(
    start: i64,
    phase: &str,
    signals: &Vec<Signal>,
    conns: i64,
    confirmed_bad: bool,
) -> (r: i64)
    requires
        start >= 0,
    ensures
        r == match_score(
            start as int,
            phase@,
            signal_views(signals@),
            conns as int,
            confirmed_bad,
        ),
        start <= r,
        r <= start || r <= 580_000,
{
    if !same(phase, "in-match") {
        return start;
    }
    let ghost all = signal_views(signals@);
    let mut a: i64 = start;
    let mut i: usize = 0;
    while i < signals.len()
        invariant
            i <= signals.len(),
            all == signal_views(signals@),
            a == raised_by_signals(start as int, all.take(i as int)),
            start <= a,
            a <= start || a <= 420_000,
        decreases signals.len() - i,
    {
        proof {
            let u = all.take(i + 1);
            assert(u.drop_last() =~= all.take(i as int));
            assert(u.last() == (signals@[i as int].name@, signals@[i as int].strength as int));
        }
        a = max_i64(a, floor_of(signals[i].name.as_str(), signals[i].strength));
        i += 1;
    }
    assert(all.take(i as int) =~= all);
    if conns >= 80 {
        a = max_i64(a, 250_000);
    }
    if confirmed_bad {
        a = max_i64(a, 580_000);
    }
    a
}

// ---------------------------------------------------------------------------------------------
// The case of a poll

/// A live poll before learning had its say.
pub struct LiveCase {
    pub signals: Vec<Signal>,
    pub anomalies: Vec<String>,
    /// The weighted mean of the signals as a percentage.
    pub signal_score: i64,
    pub thresholds: AdaptiveThresholds,
    pub inbound: InboundAnalysis,
    pub packets: PacketAnalysis,
    /// The verdict on the snapshot alone.
    pub base: CheaterVerdict,
    pub server_jitter: Option<i64>,
    pub conns: i64,
}

/// The deviation of the last six server latencies, once there are six.
pub open spec fn server_jitter(crit: Seq<i64>) -> Option<i64> {
    if crit.len() >= 6 {
        Some(deviation(last_of(crit, 6)) as i64)
    } else {
        None
    }
}

impl LiveCase {
    /// The case is that of a live poll in this phase: the signals of the session and of both
    /// analyses, and the verdict on the snapshot alone.
    pub open spec fn describes(
        self,
        scorer: ScorerView,
        engine: LearningView,
        rules: Seq<RoleRule>,
        snapshot: JsonView,
        insights: JsonView,
        phase: Seq<char>,
        step: FlowStep,
    ) -> bool {
        let f = session_findings(
            scorer,
            session_roles(rules, snapshot),
            snapshot,
            insights,
            phase,
            step,
            self.inbound.findings(),
            self.packets.findings(),
        );
        &&& signal_views(self.signals@) == f.signals
        &&& views(self.anomalies@) == f.alerts
        &&& self.signal_score == weighted_score(f.signals)
        &&& self.thresholds == learned_thresholds(engine)
        &&& is_inbound_analysis(
            self.inbound,
            rules,
            snapshot,
            phase,
            base_rates(learned_baseline(engine)),
            self.thresholds,
        )
        &&& is_packet_analysis(self.packets, rules, snapshot, phase, conn_total(snapshot))
        &&& self.conns == conn_total(snapshot)
        &&& self.server_jitter == server_jitter(scorer.crit_history)
        &&& (self.base.label@, self.base.confidence as int, views(self.base.reasons@))
            == judgement(
            rules,
            snapshot,
            phase,
            scorer,
            self.thresholds,
            None,
            None,
            self.inbound.findings(),
            self.packets.findings(),
        )
        &&& opt_int(self.base.mm_delta) == if phase == "matchmaking"@ {
            queue_delta(rules, snapshot)
        } else {
            None
        }
    }
}

/// The label, the confidence and the reasons of a verdict; outside a lobby or match there is
/// nothing to judge.
pub open spec fn judgement(
    rules: Seq<RoleRule>,
    snapshot: JsonView,
    phase: Seq<char>,
    scorer: ScorerView,
    th: AdaptiveThresholds,
    adjust: Option<int>,
    notes: Option<Seq<Seq<char>>>,
    inbound: FindingsView,
    packets: FindingsView,
) -> (Seq<char>, int, Seq<Seq<char>>) {
    if gaming(phase) {
        verdict_on(
            lobby_case(
                rules,
                snapshot,
                phase,
                scorer.wan_history,
                scorer.crit_history,
                scorer.conn_history,
                th,
                adjust,
                notes,
                Some(inbound),
                Some(packets),
            ),
            phase,
            conn_total(snapshot),
            lobby_roles(rules, snapshot),
        )
    } else {
        ("CLEAN"@, 0, seq!["Not in lobby or match"@])
    }
}

impl NetworkSessionScorer {
    /// Gathers the signals of a live poll and judges the snapshot alone.
    pub fn build_case(
        &self,
        rules: &Vec<RoleRule>,
        engine: &LearningEngine,
        snapshot: &Json,
        insights: &Json,
        phase: &str,
        step: &FlowStep,
    ) -> (r: LiveCase)
        requires
            self@.wf(),
            step.flow_bits >= 0,
            step.byte_flow >= 0,
        ensures
            r.describes(self@, engine@, rules@, snapshot@, insights@, phase@, *step),
            0 <= r.base.confidence <= 100_000_000,
            0 <= r.signal_score <= 100_000_000,
    {
        let roles = role_counts(rules, snapshot);
        let conns: i64 = connections(snapshot);
        let thresholds = engine.thresholds();
        let baseline = engine.inbound_baseline();
        let inbound = analyze_inbound(rules, snapshot, phase, baseline.as_ref(), &thresholds);
        let packets = analyze_packets(rules, snapshot, phase, conns);
        let mut f = Findings::new();
        if same(phase, "matchmaking") {
            note_queue(&mut f, conns, &roles);
        }
        if same(phase, "in-match") {
            note_match(&mut f, &roles, self.crit_history(), self.wan_history());
        }
        note_advised(&mut f, insights.get("anomalies"));
        note_flow(&mut f, step, phase);
        note_analyses(&mut f, &inbound, &packets);
        let signal_score: i64 = score_signals(&f.signals);
        let base = assess(
            rules,
            snapshot,
            phase,
            self.wan_history(),
            self.crit_history(),
            self.conn_history(),
            &thresholds,
            None,
            None,
            Some(&inbound),
            Some(&packets),
        );
        let crit = self.crit_history();
        let jitter: Option<i64> = if crit.len() >= 6 {
            let (_, d) = mean_and_deviation(crit, 6);
            Some(d)
        } else {
            None
        };
        LiveCase {
            signals: f.signals,
            anomalies: f.alerts,
            signal_score,
            thresholds,
            inbound,
            packets,
            base,
            server_jitter: jitter,
            conns,
        }
    }
}

// ---------------------------------------------------------------------------------------------
// The risk

/// The level of a score outside a lobby.
pub open spec fn level_of_score(score: int) -> Seq<char> {
    if score >= 75_000_000 {
        "CRITICAL"@
    } else if score >= 55_000_000 {
        "HIGH"@
    } else if score >= 35_000_000 {
        "MEDIUM"@
    } else if score >= 15_000_000 {
        "LOW"@
    } else {
        "CLEAN"@
    }
}

/// The level of a score outside a lobby.
pub fn level_from_score(score: i64) -> (r: &'static str)
    ensures
        r@ == level_of_score(score as int),
{
    if score >= 75_000_000 {
        "CRITICAL"
    } else if score >= 55_000_000 {
        "HIGH"
    } else if score >= 35_000_000 {
        "MEDIUM"
    } else if score >= 15_000_000 {
        "LOW"
    } else {
        "CLEAN"
    }
}

/// The level of a verdict in a lobby or match.
pub open spec fn level_of_verdict(label: Seq<char>, score: int) -> Seq<char> {
    if label == "LIKELY"@ {
        if score >= 75_000_000 {
            "CRITICAL"@
        } else {
            "HIGH"@
        }
    } else if label == "POSSIBLE"@ {
        if score >= 35_000_000 {
            "MEDIUM"@
        } else {
            "LOW"@
        }
    } else {
        "CLEAN"@
    }
}

pub open spec fn advice(label: Seq<char>, level: Seq<char>) -> Seq<char> {
    if label == "LIKELY"@ || label == "USER_BAD"@ {
        "Cheater lobby — packet shield active (blocks tiny flood packets; normal aim traffic unchanged)."@
    } else if label == "POSSIBLE"@ {
        "Possible cheater lobby — light packet shield if tiny floods detected."@
    } else if level == "CRITICAL"@ || level == "HIGH"@ {
        "Elevated risk — cheater detection active; network path unchanged during match."@
    } else if level == "MEDIUM"@ {
        "Monitoring — detection active, defenses idle in-match."@
    } else {
        "Detection on standby."@
    }
}

fn advise(label: &str, level: &str) -> (r: &'static str)
    ensures
        r@ == advice(label@, level@),
{
    if same(label, "LIKELY") || same(label, "USER_BAD") {
        "Cheater lobby — packet shield active (blocks tiny flood packets; normal aim traffic unchanged)."
    } else if same(label, "POSSIBLE") {
        "Possible cheater lobby — light packet shield if tiny floods detected."
    } else if same(level, "CRITICAL") || same(level, "HIGH") {
        "Elevated risk — cheater detection active; network path unchanged during match."
    } else if same(level, "MEDIUM") {
        "Monitoring — detection active, defenses idle in-match."
    } else {
        "Detection on standby."
    }
}

/// The lines under a label: its reasons, then what else is unusual, eight at most.
pub open spec fn shown(
    label: Seq<char>,
    reasons: Seq<Seq<char>>,
    anomalies: Seq<Seq<char>>,
) -> Seq<Seq<char>> {
    let start = if label != "CLEAN"@ {
        reasons
    } else {
        seq!["Telemetry matches normal Warzone pools"@]
    };
    crate::json::first_of(with_new(start, anomalies, anomalies.len()), 8)
}

/// The risk of a session. The score is a percentage in millionths.
pub struct SessionRisk {
    pub score: i64,
    pub level: &'static str,
    pub phase: String,
    pub game: String,
    pub recommendation: &'static str,
    pub anomalies: Vec<String>,
    /// The score that learning and strong signals made of the base score, in millionths.
    pub adjusted: i64,
    pub learn_notes: Vec<String>,
    pub verdict: CheaterVerdict,
}

/// What is said where there is no lobby to judge.
pub struct QuietRisk {
    pub risk: SessionRisk,
    /// What the advisor says instead of an analysis.
    pub summary: &'static str,
}

/// What to tell the user, and what the advisor says, where there is no lobby to judge.
pub open spec fn quiet_words(kind: PollKind, phase: Seq<char>) -> (Seq<char>, Seq<char>) {
    match kind {
        PollKind::Elsewhere => (
            "Not in Warzone — monitoring idle"@,
            "Not in Warzone — AI idle"@,
        ),
        _ => (
            if phase == "post-match"@ {
                "Left lobby — monitoring for next queue."@
            } else {
                "Out of lobby — session logged."@
            },
            "Out of lobby — session logged for learning"@,
        ),
    }
}

/// The risk of a poll that there is no lobby to judge in: none. `None` where there is one.
pub fn quiet_risk(start: &PollStart) -> (r: Option<QuietRisk>)
    ensures
        r is None <==> start.kind == PollKind::Live,
        r is Some ==> {
            let q = r->0;
            &&& (q.risk.recommendation@, q.summary@) == quiet_words(start.kind, start.phase@)
            &&& q.risk.score == 0
            &&& q.risk.level@ == "CLEAN"@
            &&& q.risk.phase@ == start.phase@
            &&& q.risk.game@ == start.game_label@
            &&& views(q.risk.anomalies@) == if start.kind == PollKind::Elsewhere {
                Seq::empty()
            } else {
                seq!["Not in matchmaking or in-match"@]
            }
            &&& q.risk.adjusted == 0
            &&& q.risk.learn_notes@.len() == 0
            &&& q.risk.verdict.label@ == "CLEAN"@
            &&& q.risk.verdict.confidence == 0
            &&& q.risk.verdict.reasons@.len() == 0
            &&& q.risk.verdict.mm_delta is None
        },
{
    let mut anomalies: Vec<String> = Vec::new();
    let recommendation: &'static str;
    let summary: &'static str;
    match start.kind {
        PollKind::Live => {
            return None;
        },
        PollKind::Elsewhere => {
            recommendation = "Not in Warzone — monitoring idle";
            summary = "Not in Warzone — AI idle";
            assert(views(anomalies@) =~= Seq::empty());
        },
        PollKind::Resting => {
            recommendation = if same(start.phase.as_str(), "post-match") {
                "Left lobby — monitoring for next queue."
            } else {
                "Out of lobby — session logged."
            };
            summary = "Out of lobby — session logged for learning";
            anomalies.push("Not in matchmaking or in-match".to_owned());
            assert(views(anomalies@) =~= seq!["Not in matchmaking or in-match"@]);
        },
    }
    Some(
        QuietRisk {
            risk: SessionRisk {
                score: 0,
                level: "CLEAN",
                phase: start.phase.clone(),
                game: start.game_label.clone(),
                recommendation,
                anomalies,
                adjusted: 0,
                learn_notes: Vec::new(),
                verdict: CheaterVerdict {
                    label: "CLEAN".to_owned(),
                    confidence: 0,
                    reasons: Vec::new(),
                    mm_delta: None,
                },
            },
            summary,
        },
    )
}

/// The score and the level of a verdict. Outside a lobby the signals count, with little weight.
pub open spec fn scored(phase: Seq<char>, verdict_label: Seq<char>, confidence: int, signals: int)
    -> (int, Seq<char>) {
    if gaming(phase) {
        (confidence, level_of_verdict(verdict_label, confidence))
    } else {
        (quotient(signals * 15, 100), level_of_score(quotient(signals * 15, 100)))
    }
}

impl NetworkSessionScorer {
    /// Judges a live poll once learning had its say. `sims` holds for each recorded lobby the bits
    /// of the similarity of its fold to that of the lobby that is on.
    pub fn judge(
        &mut self,
        rules: &Vec<RoleRule>,
        engine: &LearningEngine,
        snapshot: &Json,
        start: &PollStart,
        case: &LiveCase,
        sims: &Vec<u32>,
        now: i64,
    ) -> (r: SessionRisk)
        requires
            old(self)@.wf(),
            sims.len() == engine.lobbies.len(),
            0 <= case.base.confidence <= 100_000_000,
            0 <= case.signal_score <= 100_000_000,
        ensures
            ({
                let learned = adjusted(
                    engine@,
                    quotient(case.base.confidence as int, 100) as i64,
                    case.conns,
                    start.phase@,
                    case.base.mm_delta,
                    sims@,
                    now,
                );
                let confirmed = engine@.active is Some && engine@.active->0.confirmed_bad;
                &&& views(r.learn_notes@) == learned.alerts
                &&& r.adjusted == match_score(
                    clamped(learned.score, 0, ONE as int),
                    start.phase@,
                    signal_views(case.signals@),
                    case.conns as int,
                    confirmed,
                )
            }),
            (r.verdict.label@, r.verdict.confidence as int, views(r.verdict.reasons@)) == judgement(
                rules@,
                snapshot@,
                start.phase@,
                old(self)@,
                case.thresholds,
                Some(r.adjusted as int),
                Some(views(r.learn_notes@)),
                case.inbound.findings(),
                case.packets.findings(),
            ),
            (r.score as int, r.level@) == scored(
                start.phase@,
                r.verdict.label@,
                r.verdict.confidence as int,
                case.signal_score as int,
            ),
            0 <= r.score <= 100_000_000,
            0 <= r.adjusted <= ONE,
            r.phase@ == start.phase@,
            r.game@ == start.game_label@,
            r.recommendation@ == advice(r.verdict.label@, r.level@),
            views(r.anomalies@) == shown(
                r.verdict.label@,
                views(r.verdict.reasons@),
                views(case.anomalies@),
            ),
            final(self)@ == (ScorerView {
                score_history: pushed(old(self)@.score_history, r.score, MAX_SCORES as nat),
                ..old(self)@
            }),
            final(self)@.wf(),
    {
        let phase = start.phase.as_str();
        proof {
            lemma_quotient(case.base.confidence as int, 100, 0, ONE as int);
        }
        let base_score: i64 = divide(case.base.confidence as i128, 100) as i64;
        let (learned, learn_notes) = engine.adjust_score(
            base_score,
            case.conns,
            phase,
            case.base.mm_delta,
            sims,
            now,
        );
        let confirmed = match &engine.active {
            Some(s) => s.confirmed_bad,
            None => false,
        };
        let adjusted: i64 = raise_in_match(learned, phase, &case.signals, case.conns, confirmed);
        let verdict = assess(
            rules,
            snapshot,
            phase,
            self.wan_history(),
            self.crit_history(),
            self.conn_history(),
            &case.thresholds,
            Some(adjusted),
            Some(&learn_notes),
            Some(&case.inbound),
            Some(&case.packets),
        );
        let score: i64;
        let level: &'static str;
        let label = verdict.label.as_str();
        if is_gaming(phase) {
            score = verdict.confidence;
            level = if same(label, "LIKELY") {
                if score >= 75_000_000 {
                    "CRITICAL"
                } else {
                    "HIGH"
                }
            } else if same(label, "POSSIBLE") {
                if score >= 35_000_000 {
                    "MEDIUM"
                } else {
                    "LOW"
                }
            } else {
                "CLEAN"
            };
        } else {
            proof {
                lemma_quotient(case.signal_score * 15, 100, 0, 15_000_000);
            }
            score = divide(case.signal_score as i128 * 15, 100) as i64;
            level = level_from_score(score);
        }
        let recommendation = advise(label, level);
        let mut display: Vec<String> = if !same(label, "CLEAN") {
            dup_texts(&verdict.reasons)
        } else {
            let mut v: Vec<String> = Vec::new();
            v.push("Telemetry matches normal Warzone pools".to_owned());
            assert(views(v@) =~= seq!["Telemetry matches normal Warzone pools"@]);
            v
        };
        push_all_new(&mut display, &case.anomalies);
        assert(views(case.anomalies@).len() == case.anomalies.len());
        let ghost all = views(display@);
        assert(all.len() == display.len());
        display.truncate(8);
        assert(views(display@) =~= crate::json::first_of(all, 8));
        self.push_score(score);
        SessionRisk {
            score,
            level,
            phase: start.phase.clone(),
            game: start.game_label.clone(),
            recommendation,
            anomalies: display,
            adjusted,
            learn_notes,
            verdict,
        }
    }
}

// ---------------------------------------------------------------------------------------------
// Laws

/// While the user's word stands that the session holds cheaters, a lobby is called likely at every
/// poll, whatever the telemetry says.
pub proof fn confirmed_session_is_likely(
    engine: LearningView,
    base: i64,
    conns: i64,
    mm_delta: Option<i64>,
    sims: Seq<u32>,
    now: i64,
    signals: Seq<(Seq<char>, int)>,
    rules: Seq<RoleRule>,
    snapshot: JsonView,
    phase: Seq<char>,
    wan_history: Seq<i64>,
    crit_history: Seq<i64>,
    conn_history: Seq<i64>,
    th: AdaptiveThresholds,
    inbound: FindingsView,
    packets: FindingsView,
)
    requires
        engine.active is Some && engine.active->0.confirmed_bad,
    ensures
        ({
            let learned = adjusted(engine, base, conns, phase, mm_delta, sims, now);
            let score = match_score(
                clamped(learned.score, 0, ONE as int),
                phase,
                signals,
                conns as int,
                true,
            );
            let case = lobby_case(
                rules,
                snapshot,
                phase,
                wan_history,
                crit_history,
                conn_history,
                th,
                Some(score),
                Some(learned.alerts),
                Some(inbound),
                Some(packets),
            );
            verdict_on(case, phase, conn_total(snapshot), lobby_roles(rules, snapshot)).0
                == "LIKELY"@
        }),
{
    let learned = adjusted(engine, base, conns, phase, mm_delta, sims, now);
    let score = match_score(
        clamped(learned.score, 0, ONE as int),
        phase,
        signals,
        conns as int,
        true,
    );
    assert(score >= 580_000);
    opinions_only_raise(
        rules,
        snapshot,
        phase,
        wan_history,
        crit_history,
        conn_history,
        th,
        score,
        Some(learned.alerts),
        inbound,
        packets,
    );
    reveal(verdict_on);
}

/// What the queue of a session shows by itself: a dense fan-out exactly where two servers of it and
/// eight connections are seen, and churn exactly where three hosts of Xbox Live are.
pub proof fn a_queue_shows_its_signals(conns: int, roles: Seq<(Seq<char>, u64)>)
    ensures
        ({
            let s = queue_noted(FindingsView::none(), conns, roles).signals;
            let servers = count_in(roles, "matchmaking"@) + count_in(roles, "warzone-game"@)
                + count_in(roles, "dedicated-server"@);
            let dense = named(s, "heavy_matchmaking"@);
            let churn = named(s, "xbox_live_churn"@);
            &&& dense <==> servers >= 2 && conns >= 8
            &&& churn <==> count_in(roles, "xbox-live"@) >= 3
            &&& dense && conns >= 20 ==> s.contains(("heavy_matchmaking"@, 1_000_000))
            &&& dense && conns < 20 ==> s.contains(("heavy_matchmaking"@, 50_000 * conns))
            &&& churn ==> s.contains(("xbox_live_churn"@, 500_000))
        }),
{
    reveal_strlit("heavy_matchmaking");
    reveal_strlit("xbox_live_churn");
    assert("heavy_matchmaking"@.len() == 17 && "xbox_live_churn"@.len() == 15);
    let e: Seq<(Seq<char>, int)> = Seq::empty();
    let x = smaller(conns * 50_000, ONE as int);
    lemma_given(e, "heavy_matchmaking"@, x);
    lemma_given(e, "xbox_live_churn"@, 500_000);
    lemma_given(e.push(("heavy_matchmaking"@, x)), "xbox_live_churn"@, 500_000);
}

/// What a match shows by itself: telemetry that outweighs the game, servers that swing by 12 ms or
/// lie 70 ms away over eight polls, and a line that swings by 15 ms over ten.
pub proof fn a_match_shows_its_signals(
    roles: Seq<(Seq<char>, u64)>,
    crit: Seq<i64>,
    wan: Seq<i64>,
)
    ensures
        ({
            let s = match_noted(FindingsView::none(), roles, crit, wan).signals;
            let telemetry = count_in(roles, "telemetry"@);
            let servers = count_in(roles, "warzone-game"@) + count_in(roles, "dedicated-server"@);
            let game = servers + count_in(roles, "game-assets"@);
            let swing = deviation(last_of(crit, 8));
            let away = mean(last_of(crit, 8));
            let line = deviation(last_of(wan, 10));
            &&& named(s, "telemetry_noise"@) <==> telemetry >= 3 && game >= 2 && telemetry
                >= smaller(servers, u64::MAX as int)
            &&& named(s, "server_latency_jitter"@) <==> crit.len() >= 8 && swing >= 12_000_000
            &&& named(s, "high_server_latency"@) <==> crit.len() >= 8 && away >= 70_000_000
            &&& named(s, "wan_jitter"@) <==> wan.len() >= 10 && line >= 15_000_000
            &&& named(s, "server_latency_jitter"@) ==> s.contains(
                ("server_latency_jitter"@, share_of(swing, 40, 1_000_000)),
            )
            &&& named(s, "high_server_latency"@) ==> s.contains(
                ("high_server_latency"@, share_of(away - 50_000_000, 80, 1_000_000)),
            )
            &&& named(s, "wan_jitter"@) ==> s.contains(
                ("wan_jitter"@, share_of(line, 50, 1_000_000)),
            )
        }),
{
    reveal_strlit("telemetry_noise");
    reveal_strlit("server_latency_jitter");
    reveal_strlit("high_server_latency");
    reveal_strlit("wan_jitter");
    assert("telemetry_noise"@.len() == 15 && "server_latency_jitter"@.len() == 21
        && "high_server_latency"@.len() == 19 && "wan_jitter"@.len() == 10);
    let telemetry = count_in(roles, "telemetry"@);
    let servers = plus(count_in(roles, "warzone-game"@), count_in(roles, "dedicated-server"@));
    let gameplay = plus(servers, count_in(roles, "game-assets"@));
    let jitter = deviation(last_of(crit, 8));
    let latency = mean(last_of(crit, 8));
    let line = deviation(last_of(wan, 10));
    let e: Seq<(Seq<char>, int)> = Seq::empty();
    let x1 = capped_ratio(telemetry as nat, gameplay as nat);
    let x2 = share_of(jitter, 40, ONE as int);
    let x3 = share_of(latency - 50_000_000, 80, ONE as int);
    let x4 = share_of(line, 50, ONE as int);
    lemma_given(e, "telemetry_noise"@, x1);
    let s1 = if telemetry >= 3 && gameplay >= 2 && telemetry >= servers {
        e.push(("telemetry_noise"@, x1))
    } else {
        e
    };
    lemma_given(s1, "server_latency_jitter"@, x2);
    let s2 = if crit.len() >= 8 && jitter >= 12_000_000 {
        s1.push(("server_latency_jitter"@, x2))
    } else {
        s1
    };
    lemma_given(s2, "high_server_latency"@, x3);
    let s3 = if crit.len() >= 8 && latency >= 70_000_000 {
        s2.push(("high_server_latency"@, x3))
    } else {
        s2
    };
    lemma_given(s3, "wan_jitter"@, x4);
}

/// What the flow of information adds to the signals of a session: a spike where it is superlinear
/// or reaches four bits, traffic that looks random, and bytes of 6.5 bits in queue and match.
/// Nothing that was there is lost.
pub proof fn a_flow_shows_its_signals(f: FindingsView, step: FlowStep, phase: Seq<char>)
    requires
        !named(f.signals, "superlinear_flow"@),
        !named(f.signals, "info_flow_spike"@),
        !named(f.signals, "prg_like_traffic"@),
        !named(f.signals, "byte_flow_entropy"@),
    ensures
        ({
            let s = flow_noted(f, step, phase).signals;
            let on = phase == "in-match"@ || phase == "matchmaking"@;
            &&& named(s, "superlinear_flow"@) <==> step.superlinear
            &&& named(s, "info_flow_spike"@) <==> !step.superlinear && step.flow_bits >= 4_000_000
            &&& named(s, "prg_like_traffic"@) <==> step.prg_like
            &&& named(s, "byte_flow_entropy"@) <==> step.byte_flow >= 6_500_000 && on
            &&& f.signals.is_prefix_of(s)
            &&& step.prg_like ==> s.contains(("prg_like_traffic"@, 720_000))
            &&& step.superlinear ==> s.contains(
                ("superlinear_flow"@, share_of(step.flow_bits as int, 8, 1_000_000)),
            )
        }),
{
    reveal_strlit("superlinear_flow");
    reveal_strlit("info_flow_spike");
    reveal_strlit("prg_like_traffic");
    reveal_strlit("byte_flow_entropy");
    assert("superlinear_flow"@.len() == 16 && "info_flow_spike"@.len() == 15
        && "prg_like_traffic"@.len() == 16 && "byte_flow_entropy"@.len() == 17);
    assert("superlinear_flow"@[0] == 's' && "prg_like_traffic"@[0] == 'p');
    let x = share_of(step.flow_bits as int, 8, ONE as int);
    let y = share_of(step.byte_flow as int, 8, ONE as int);
    let s0 = f.signals;
    lemma_given(s0, "superlinear_flow"@, x);
    lemma_given(s0, "info_flow_spike"@, x);
    let s1 = if step.superlinear {
        s0.push(("superlinear_flow"@, x))
    } else if step.flow_bits >= 4_000_000 {
        s0.push(("info_flow_spike"@, x))
    } else {
        s0
    };
    lemma_given(s1, "prg_like_traffic"@, 720_000);
    let s2 = if step.prg_like {
        s1.push(("prg_like_traffic"@, 720_000))
    } else {
        s1
    };
    lemma_given(s2, "byte_flow_entropy"@, y);
    let s = flow_noted(f, step, phase).signals;
    assert(s.subrange(0, s0.len() as int) =~= s0);
}

/// The analyses of a poll stand among its signals, behind those of the session, and as an attack
/// each where its score reaches 0.15.
pub proof fn analyses_stand_among_the_signals(
    f: FindingsView,
    inbound: FindingsView,
    packets: FindingsView,
)
    ensures
        ({
            let s = analyses_noted(f, inbound, packets).signals;
            let all = f.signals + inbound.signals + packets.signals;
            &&& all.is_prefix_of(s)
            &&& s.len() == all.len() + weigh(inbound.score >= 150_000, 1) + weigh(
                packets.score >= 150_000,
                1,
            )
            &&& inbound.score >= 150_000 ==> s.contains(("inbound_attack"@, inbound.score))
            &&& packets.score >= 150_000 ==> s.contains(("packet_cheat"@, packets.score))
        }),
{
    let all = f.signals + inbound.signals + packets.signals;
    let s = analyses_noted(f, inbound, packets).signals;
    let s1 = if inbound.score >= 150_000 {
        all.push(("inbound_attack"@, inbound.score))
    } else {
        all
    };
    lemma_given(all, "inbound_attack"@, inbound.score);
    lemma_given(s1, "packet_cheat"@, packets.score);
    assert(s.subrange(0, all.len() as int) =~= all);
}

/// A strong signal lifts the score of a match to what it stands for, and nothing lowers it: the
/// score is the one from before, one that a signal stands for, 0.25 for eighty connections, or
/// 0.58 for a lobby that the user confirmed. Outside a match it stays.
pub proof fn strong_signals_lift_a_match(
    start: int,
    phase: Seq<char>,
    signals: Seq<(Seq<char>, int)>,
    conns: int,
    confirmed: bool,
    i: int,
)
    requires
        start >= 0,
        0 <= i < signals.len(),
    ensures
        ({
            let score = match_score(start, phase, signals, conns, confirmed);
            let (name, v) = signals[i];
            &&& phase != "in-match"@ ==> score == start
            &&& phase == "in-match"@ ==> {
                &&& score >= start
                &&& conns >= 80 ==> score >= 250_000
                &&& confirmed ==> score >= 580_000
                &&& (name == "superlinear_flow"@ || name == "prg_like_traffic"@) && v >= 350_000
                    ==> score >= 420_000
                &&& (name == "peer_tiny_flood"@ || name == "suspicious_peer"@) && v >= 350_000
                    ==> score >= 400_000
                &&& (name == "tiny_packet_flood"@ || name == "packet_cheat"@) && v >= 400_000
                    ==> score >= 380_000
                &&& name == "info_flow_spike"@ && v >= 450_000 ==> score >= 360_000
                &&& (name == "inbound_flood"@ || name == "inbound_attack"@) && v >= 400_000
                    ==> score
                    >= 350_000
                &&& name == "server_latency_jitter"@ && v >= 400_000 ==> score >= 320_000
                &&& name == "telemetry_noise"@ && v >= 450_000 ==> score >= 280_000
                &&& !confirmed && conns < 80 && score > start ==> exists|k: int|
                    0 <= k < signals.len() && (#[trigger] signals[k]).1 >= 350_000 && score
                        <= 420_000
            }
        }),
{
    lemma_floor_names();
    lemma_raised(start, signals, i);
}

proof fn lemma_floor_names()
    ensures
        "superlinear_flow"@.len() == 16,
        "superlinear_flow"@[0] == 's',
        "prg_like_traffic"@.len() == 16,
        "prg_like_traffic"@[0] == 'p',
        "peer_tiny_flood"@.len() == 15,
        "peer_tiny_flood"@[0] == 'p',
        "suspicious_peer"@.len() == 15,
        "suspicious_peer"@[0] == 's',
        "tiny_packet_flood"@.len() == 17,
        "packet_cheat"@.len() == 12,
        "info_flow_spike"@.len() == 15,
        "info_flow_spike"@[0] == 'i',
        "inbound_flood"@.len() == 13,
        "inbound_attack"@.len() == 14,
        "server_latency_jitter"@.len() == 21,
        "telemetry_noise"@.len() == 15,
        "telemetry_noise"@[0] == 't',
{
    reveal_strlit("superlinear_flow");
    reveal_strlit("prg_like_traffic");
    reveal_strlit("peer_tiny_flood");
    reveal_strlit("suspicious_peer");
    reveal_strlit("tiny_packet_flood");
    reveal_strlit("packet_cheat");
    reveal_strlit("info_flow_spike");
    reveal_strlit("inbound_flood");
    reveal_strlit("inbound_attack");
    reveal_strlit("server_latency_jitter");
    reveal_strlit("telemetry_noise");
}

proof fn lemma_raised(start: int, s: Seq<(Seq<char>, int)>, i: int)
    requires
        start >= 0,
        0 <= i < s.len(),
    ensures
        raised_by_signals(start, s) >= start,
        raised_by_signals(start, s) >= signal_floor(s[i].0, s[i].1),
        raised_by_signals(start, s) == start || exists|k: int|
            0 <= k < s.len() && signal_floor((#[trigger] s[k]).0, s[k].1) == raised_by_signals(
                start,
                s,
            ),
    decreases s.len(),
{
    let u = s.drop_last();
    let last = s.len() - 1;
    assert(s[last] == s.last());
    if u.len() > 0 {
        let j = if i < u.len() {
            i
        } else {
            0
        };
        lemma_raised(start, u, j);
        assert(u[j] == s[j]);
        if raised_by_signals(start, u) != start {
            let k = choose|k: int|
                0 <= k < u.len() && signal_floor((#[trigger] u[k]).0, u[k].1) == raised_by_signals(
                    start,
                    u,
                );
            assert(s[k] == u[k]);
        }
    } else {
        assert(raised_by_signals(start, u) == start);
    }
    assert(signal_floor(s[last].0, s[last].1) == signal_floor(s.last().0, s.last().1));
}

/// Levels rise with the score, at 15, 35, 55 and 75 percent.
pub proof fn levels_follow_the_score(score: int)
    ensures
        level_of_score(score) == "CRITICAL"@ <==> score >= 75_000_000,
        level_of_score(score) == "HIGH"@ <==> 55_000_000 <= score < 75_000_000,
        level_of_score(score) == "MEDIUM"@ <==> 35_000_000 <= score < 55_000_000,
        level_of_score(score) == "LOW"@ <==> 15_000_000 <= score < 35_000_000,
        level_of_score(score) == "CLEAN"@ <==> score < 15_000_000,
{
    lemma_levels();
}

proof fn lemma_levels()
    ensures
        "CRITICAL"@.len() == 8,
        "HIGH"@.len() == 4,
        "MEDIUM"@.len() == 6,
        "MEDIUM"@[0] == 'M',
        "LOW"@.len() == 3,
        "CLEAN"@.len() == 5,
        "LIKELY"@.len() == 6,
        "LIKELY"@[0] == 'L',
        "POSSIBLE"@.len() == 8,
        "POSSIBLE"@[0] == 'P',
        "CRITICAL"@[0] == 'C',
{
    reveal_strlit("CRITICAL");
    reveal_strlit("HIGH");
    reveal_strlit("MEDIUM");
    reveal_strlit("LOW");
    reveal_strlit("CLEAN");
    reveal_strlit("LIKELY");
    reveal_strlit("POSSIBLE");
}

/// In queue and match the risk is what the verdict says: its confidence, with a level that is high
/// at least for a likely lobby, low or medium for a possible one, and clean for any other.
/// Elsewhere the signals alone count, and little: fifteen hundredths of them.
pub proof fn risks_follow_the_verdict(
    phase: Seq<char>,
    label: Seq<char>,
    confidence: int,
    signals: int,
    even: int,
)
    requires
        even % 2 == 0,
    ensures
        ({
            let (score, level) = scored(phase, label, confidence, signals);
            let on = phase == "in-match"@ || phase == "matchmaking"@;
            &&& on ==> score == confidence
            &&& on ==> (level == "CRITICAL"@ <==> label == "LIKELY"@ && confidence >= 75_000_000)
            &&& on ==> (level == "HIGH"@ <==> label == "LIKELY"@ && confidence < 75_000_000)
            &&& on ==> (level == "MEDIUM"@ <==> label == "POSSIBLE"@ && confidence >= 35_000_000)
            &&& on ==> (level == "LOW"@ <==> label == "POSSIBLE"@ && confidence < 35_000_000)
            &&& on ==> (level == "CLEAN"@ <==> label != "LIKELY"@ && label != "POSSIBLE"@)
            &&& !on ==> (score > even <==> 15 * signals > 100 * even)
            &&& !on ==> (score < even <==> 15 * signals < 100 * even)
            &&& !on && signals < 100_000_000 ==> level == "CLEAN"@
        }),
{
    lemma_levels();
    quotients_compare(signals * 15, 100, even);
    quotients_compare(signals * 15, 100, 15_000_000);
    levels_follow_the_score(quotient(signals * 15, 100));
}

/// Signals are weighed against each other: those of one strength have that strength together, and
/// the score is never above the strongest nor below the weakest of them.
pub proof fn signals_are_averaged(s: Seq<(Seq<char>, int)>, lo: int, hi: int)
    requires
        s.len() > 0,
        0 <= lo <= hi <= 1_000_000,
        forall|i: int| 0 <= i < s.len() ==> lo <= (#[trigger] s[i]).1 <= hi,
    ensures
        100 * lo <= weighted_score(s) <= 100 * hi,
{
    lemma_weights(s, lo, hi);
    let w = weight_sum(s);
    let t = weighted_sum(s);
    assert((100 * lo) * w <= t * 100 <= (100 * hi) * w) by (nonlinear_arith)
        requires
            lo * w <= t <= hi * w,
    ;
    lemma_quotient(t * 100, w, 100 * lo, 100 * hi);
}

proof fn lemma_weights(s: Seq<(Seq<char>, int)>, lo: int, hi: int)
    requires
        0 <= lo <= hi <= 1_000_000,
        forall|i: int| 0 <= i < s.len() ==> lo <= (#[trigger] s[i]).1 <= hi,
    ensures
        lo * weight_sum(s) <= weighted_sum(s) <= hi * weight_sum(s),
        s.len() > 0 ==> weight_sum(s) > 0,
        weight_sum(s) >= 0,
    decreases s.len(),
{
    if s.len() > 0 {
        let u = s.drop_last();
        lemma_weights(u, lo, hi);
        let w = signal_weight(s.last().0);
        let v = s.last().1;
        assert(s[s.len() - 1] == s.last());
        assert(lo * w <= v * w <= hi * w) by (nonlinear_arith)
            requires
                lo <= v <= hi,
                w > 0,
        ;
        let a = weight_sum(u);
        assert(lo * (a + w) == lo * a + lo * w && hi * (a + w) == hi * a + hi * w) by (
        nonlinear_arith);
    } else {
        assert(lo * 0 == 0 && hi * 0 == 0) by (nonlinear_arith);
    }
}

/// What a signal weighs: an unstable server most, churn and a mere rise least, and one without a
/// weight of its own ten.
pub proof fn signals_weigh_what_they_tell(name: Seq<char>)
    ensures
        signal_weight("server_latency_jitter"@) == 18,
        signal_weight("telemetry_noise"@) == 16 && signal_weight("peer_tiny_flood"@) == 16,
        signal_weight("superlinear_flow"@) == 15,
        signal_weight("suspicious_peer"@) == 14 && signal_weight("tiny_packet_flood"@) == 14
            && signal_weight("prg_like_traffic"@) == 14,
        signal_weight("info_flow_spike"@) == 13,
        signal_weight("inbound_flood"@) == 12 && signal_weight("packet_cheat"@) == 12,
        signal_weight("inbound_attack"@) == 10,
        8 <= signal_weight(name) <= 18,
        signal_weight(name) == 18 ==> name == "server_latency_jitter"@,
{
    lemma_floor_names();
    reveal_strlit("wan_jitter");
    reveal_strlit("peer_micro_burst");
    reveal_strlit("heavy_matchmaking");
    reveal_strlit("quiet_pool_inbound");
    reveal_strlit("suboptimal_matchmaking_path");
    reveal_strlit("unknown_inbound_fanout");
    reveal_strlit("inbound_remote_fanout");
    reveal_strlit("high_server_latency");
    reveal_strlit("unknown_inbound_packets");
    reveal_strlit("byte_flow_entropy");
    reveal_strlit("packet_storm");
    reveal_strlit("xbox_live_churn");
    reveal_strlit("inbound_elevated");
    reveal_strlit("tiny_packet_flood");
    reveal_strlit("server_latency_jitter");
    assert("wan_jitter"@.len() == 10 && "peer_micro_burst"@.len() == 16 && "peer_micro_burst"@[1]
        == 'e' && "heavy_matchmaking"@.len() == 17 && "quiet_pool_inbound"@.len() == 18
        && "suboptimal_matchmaking_path"@.len() == 27 && "unknown_inbound_fanout"@.len() == 22
        && "inbound_remote_fanout"@.len() == 21 && "high_server_latency"@.len() == 19
        && "unknown_inbound_packets"@.len() == 23 && "byte_flow_entropy"@.len() == 17
        && "packet_storm"@.len() == 12 && "xbox_live_churn"@.len() == 15
        && "inbound_elevated"@.len() == 16);
    assert("peer_micro_burst"@[0] == 'p' && "heavy_matchmaking"@[0] == 'h'
        && "byte_flow_entropy"@[0]
        == 'b' && "xbox_live_churn"@[0] == 'x' && "inbound_elevated"@[0] == 'i');
    reveal_strlit("prg_like_traffic");
    reveal_strlit("packet_cheat");
    assert("prg_like_traffic"@[1] == 'r' && "packet_cheat"@[7] == 'c' && "packet_storm"@[7] == 's'
        && "tiny_packet_flood"@[0] == 't' && "server_latency_jitter"@[0] == 's'
        && "inbound_remote_fanout"@[0] == 'i');
}

/// How strong an advised anomaly is: 0.9 where it is high, 0.55 where it is medium, 0.3 for any
/// other word; one without a word is medium. Each one leaves a signal, and an alert where it has a
/// message.
pub proof fn advised_anomalies_are_noted(f: FindingsView, items: Seq<JsonView>, x: JsonView)
    ensures
        ({
            let a = advised_noted(f, items);
            let b = advised_noted(f, items.push(x));
            let told = x.field("severity"@);
            let v = b.signals.last().1;
            &&& b.signals.len() == a.signals.len() + 1
            &&& b.score == a.score
            &&& a.signals.is_prefix_of(b.signals)
            &&& told == Some(JsonView::Str("high"@)) ==> v == 900_000
            &&& told == Some(JsonView::Str("medium"@)) || told is None ==> v == 550_000
            &&& (told matches Some(JsonView::Str(w)) && w != "high"@ && w != "medium"@) ==> v
                == 300_000
            &&& "advisor_"@.is_prefix_of(b.signals.last().0)
            &&& x.field("message"@) matches Some(JsonView::Str(m)) ==> b.alerts == a.alerts.push(m)
            &&& x.field("message"@) is None ==> b.alerts == a.alerts
        }),
{
    assert(items.push(x).drop_last() =~= items);
    reveal_strlit("high");
    reveal_strlit("medium");
    assert("high"@.len() == 4 && "medium"@.len() == 6);
    let a = advised_noted(f, items);
    let b = advised_noted(f, items.push(x));
    assert(b.signals.subrange(0, a.signals.len() as int) =~= a.signals);
    let t = text_or(x.field("type"@), "unknown"@);
    let name = "advisor_"@ + t;
    assert(b.signals.last().0 == name);
    assert(name.subrange(0, "advisor_"@.len() as int) =~= "advisor_"@);
}

/// Outside of play no verdict is made: the lobby is clean, with nothing for it.
pub proof fn no_play_no_verdict(
    rules: Seq<RoleRule>,
    snapshot: JsonView,
    phase: Seq<char>,
    scorer: ScorerView,
    th: AdaptiveThresholds,
    inbound: FindingsView,
    packets: FindingsView,
)
    requires
        phase != "matchmaking"@,
        phase != "in-match"@,
    ensures
        ({
            let j = judgement(
                rules,
                snapshot,
                phase,
                scorer,
                th,
                None,
                None,
                inbound,
                packets,
            );
            &&& j.0 == "CLEAN"@
            &&& j.1 == 0
            &&& j.2.len() == 1
        }),
{
}

/// What the signals of a session are made of: those of the queue in the queue, those of a match in
/// a match, then what was advised, the flow of information, and the analyses. Nothing of a queue is
/// seen in a match, nor the other way round.
pub proof fn sessions_show_their_phase(
    s: ScorerView,
    roles: Seq<(Seq<char>, u64)>,
    snapshot: JsonView,
    insights: JsonView,
    phase: Seq<char>,
    step: FlowStep,
    inbound: FindingsView,
    packets: FindingsView,
)
    requires
        items_or_empty(insights.field("anomalies"@)).len() == 0,
        !step.superlinear,
        step.flow_bits < 4_000_000,
        !step.prg_like,
        step.byte_flow < 6_500_000,
        inbound.score < 150_000,
        packets.score < 150_000,
        inbound.signals.len() == 0,
        packets.signals.len() == 0,
    ensures
        ({
            let f = session_findings(
                s,
                roles,
                snapshot,
                insights,
                phase,
                step,
                inbound,
                packets,
            );
            &&& phase == "matchmaking"@ ==> f.signals == queue_noted(
                FindingsView::none(),
                conn_total(snapshot),
                roles,
            ).signals
            &&& phase == "in-match"@ ==> f.signals == match_noted(
                FindingsView::none(),
                roles,
                s.crit_history,
                s.wan_history,
            ).signals
            &&& phase != "matchmaking"@ && phase != "in-match"@ ==> f.signals.len() == 0
        }),
{
    lemma_phase_words();
    let n = FindingsView::none();
    let g = if phase == "matchmaking"@ {
        queue_noted(n, conn_total(snapshot), roles)
    } else if phase == "in-match"@ {
        match_noted(n, roles, s.crit_history, s.wan_history)
    } else {
        n
    };
    let e: Seq<(Seq<char>, int)> = Seq::empty();
    assert(g.signals + inbound.signals =~= g.signals);
    assert(g.signals + packets.signals =~= g.signals);
}

/// What is shown of a session: its reasons unless it is clean, then one sentence; then the
/// anomalies; eight lines at most.
pub proof fn sessions_show_their_reasons(
    label: Seq<char>,
    reasons: Seq<Seq<char>>,
    anomalies: Seq<Seq<char>>,
)
    ensures
        shown(label, reasons, anomalies).len() <= 8,
        label != "CLEAN"@ && 0 < reasons.len() && anomalies.len() == 0 ==> shown(
            label,
            reasons,
            anomalies,
        )[0] == reasons[0],
        label == "CLEAN"@ && anomalies.len() == 0 ==> shown(label, reasons, anomalies).len() == 1,
        label != "CLEAN"@ && reasons.len() <= 8 && anomalies.len() == 0 ==> shown(
            label,
            reasons,
            anomalies,
        ) == reasons,
{
}

/// What is advised: the shield for a likely lobby, and for one that the user marked bad; less for a
/// possible one; and without a verdict by the level.
pub proof fn advice_goes_by_the_verdict(label: Seq<char>, level: Seq<char>, other: Seq<char>)
    ensures
        label == "LIKELY"@ || label == "USER_BAD"@ ==> advice(label, level)
            == "Cheater lobby — packet shield active (blocks tiny flood packets; normal aim traffic unchanged)."@,
        label == "POSSIBLE"@ ==> advice(label, level)
            == "Possible cheater lobby — light packet shield if tiny floods detected."@,
        label == "LIKELY"@ || label == "USER_BAD"@ || label == "POSSIBLE"@ ==> advice(label, level)
            == advice(label, other),
        label == "CLEAN"@ && (level == "CRITICAL"@ || level == "HIGH"@) ==> advice(label, level)
            == "Elevated risk — cheater detection active; network path unchanged during match."@,
        label == "CLEAN"@ && level == "MEDIUM"@ ==> advice(label, level)
            == "Monitoring — detection active, defenses idle in-match."@,
        label == "CLEAN"@ && (level == "LOW"@ || level == "CLEAN"@) ==> advice(label, level)
            == "Detection on standby."@,
{
    lemma_levels();
    reveal_strlit("USER_BAD");
    reveal_strlit("HIGH");
    reveal_strlit("LOW");
    reveal_strlit("CLEAN");
    assert("USER_BAD"@.len() == 8 && "USER_BAD"@[0] == 'U');
}

/// A heavier signal counts for more: of two signals the score lies nearer to the one that weighs
/// more, and of equal weights in the middle. Without signals there is none.
pub proof fn heavier_signals_count_for_more(a: (Seq<char>, int), b: (Seq<char>, int), even: int)
    requires
        even % 2 == 0,
        even < 100_000_000,
        0 <= a.1 <= 1_000_000,
        0 <= b.1 <= 1_000_000,
    ensures
        ({
            let s = seq![a, b];
            let (v, w) = (signal_weight(a.0), signal_weight(b.0));
            &&& weighted_score(s) > even <==> 100 * (v * a.1 + w * b.1) > even * (v + w)
            &&& weighted_score(s) < even <==> 100 * (v * a.1 + w * b.1) < even * (v + w)
        }),
        weighted_score(Seq::empty()) == 0,
{
    let s = seq![a, b];
    let (v, w) = (signal_weight(a.0), signal_weight(b.0));
    signals_weigh_what_they_tell(a.0);
    signals_weigh_what_they_tell(b.0);
    reveal_with_fuel(weight_sum, 3);
    reveal_with_fuel(weighted_sum, 3);
    assert(s.drop_last() =~= seq![a]);
    assert(s.drop_last().drop_last() =~= Seq::empty());
    assert(weight_sum(s) == v + w);
    let e: Seq<(Seq<char>, int)> = Seq::empty();
    assert(weighted_sum(e) == 0);
    assert(weighted_sum(seq![a]) == a.1 * v) by {
        assert(seq![a].drop_last() =~= e);
    }
    assert(weighted_sum(s) == a.1 * v + b.1 * w);
    assert(a.1 * v == v * a.1 && b.1 * w == w * b.1) by (nonlinear_arith);
    quotients_compare(weighted_sum(s) * 100, weight_sum(s), even);
}

/// The jitter of servers is known from six latencies on: the deviation of the last six.
pub proof fn server_jitter_needs_six(crit: Seq<i64>, x: i64)
    ensures
        server_jitter(crit) is Some <==> crit.len() >= 6,
        crit.len() >= 6 && (forall|i: int| 0 <= i < crit.len() ==> #[trigger] crit[i] == x)
            ==> server_jitter(crit) == Some(0i64),
        crit.len() >= 6 ==> server_jitter(crit)->0 == deviation(crit.skip(crit.len() - 6)) as i64,
{
    if crit.len() >= 6 {
        let l = last_of(crit, 6);
        assert(l =~= crit.skip(crit.len() - 6));
        if forall|i: int| 0 <= i < crit.len() ==> #[trigger] crit[i] == x {
            assert forall|i: int| 0 <= i < l.len() implies #[trigger] l[i] == x by {
                assert(l[i] == crit[i + crit.len() - 6]);
            }
            equal_values_do_not_deviate(l, x);
        }
    }
}

} // verus!
