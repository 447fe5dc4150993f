use warzone_sentinel::adaptive::{is_good_label, is_marginal_label};
use warzone_sentinel::ai_advisor::{
    ai_summary, analyze, build_recommendations, estimate_bad_probability, predict_trajectory,
    round1, score_breakdown, trajectory_analysis, AiContext,
};
use warzone_sentinel::cheater_lobby::CheaterVerdict;
use warzone_sentinel::fixed::{FINE_UNITS, LIMIT};
use warzone_sentinel::game_state::{GameStateStore, MAX_EVENTS};
use warzone_sentinel::information_flow::{
    changed_bytes, histogram, packet_byte_fingerprint, state_from_snapshot, FlowBits, FlowOdds,
    InformationFlowTracker,
};
use warzone_sentinel::insights::build_improvement_hints;
use warzone_sentinel::json::Json;
use warzone_sentinel::learning::{
    push_sample, AdaptiveThresholds, Feedback, LearningEngine, LobbyEntry, Sample, ThresholdSource,
};
use warzone_sentinel::network_session::{
    critical_latencies, infer_game, role_counts, verdict_rank, NetworkSessionScorer, PollKind,
};
use warzone_sentinel::poll::{
    block_reason, block_seconds, capture_in, deep_capture_due, error_is_logged,
    extract_vps_game_peer_ips, guard_activity, is_active, is_well, lobby_reputation_gate,
    normalize_ips, offenders_only, restriction_of, restrictions_are_fresh, session_verdict,
    with_deep_capture, with_reputation, xbox_online, BlockedPeers, OffenderCache,
};
use warzone_sentinel::network_guard::{BufferMode, FloodMode};
use warzone_sentinel::packets::analyze_packets;
use warzone_sentinel::roles::default_roles;
use warzone_sentinel::session_risk::level_from_score;
use warzone_sentinel::signals::Signal;

const SECOND: i64 = 1_000_000;

fn s(t: &str) -> Json {
    Json::Str(t.to_string())
}

fn n(v: u64) -> Json {
    Json::UInt(v)
}

fn obj(v: Vec<(&str, Json)>) -> Json {
    Json::Obj(v.into_iter().map(|(k, j)| (k.to_string(), j)).collect())
}

fn texts(v: &[&str]) -> Vec<String> {
    v.iter().map(|t| t.to_string()).collect()
}

fn lobby(label: &str, conns: i64, ts: i64) -> LobbyEntry {
    LobbyEntry {
        ts,
        phase: "matchmaking".to_string(),
        label: label.to_string(),
        confidence: 0,
        conns,
        mm_delta: None,
        fold: None,
    }
}

fn verdict(label: &str, confidence: i64) -> CheaterVerdict {
    CheaterVerdict { label: label.to_string(), confidence, reasons: vec![], mm_delta: None }
}

#[test]
fn a_bounded_record_keeps_the_newest() {
    let mut v = vec![1, 2];
    push_sample(&mut v, 3, 2);
    assert_eq!(v, vec![2, 3]);
    push_sample(&mut v, 4, 5);
    assert_eq!(v, vec![2, 3, 4]);
}

#[test]
fn thresholds_are_learned_from_enough_polls() {
    let mut e = LearningEngine::new();
    let t = e.thresholds();
    assert!(t.source == ThresholdSource::Default);
    assert_eq!(t.conn_matchmaking_high, 90 * SECOND);
    for _ in 0..8 {
        e.history.conn_count.push(Sample {
            ts: 1,
            v: 100 * SECOND,
            phase: "matchmaking".to_string(),
            label: String::new(),
        });
    }
    let t = e.thresholds();
    assert!(t.source == ThresholdSource::Learned);
    assert_eq!(t.samples, 8);
    // As doubles, 100 times 1.15 lies just below 115, and 100 times 1.1 just above 110.
    assert_eq!(t.conn_matchmaking_elevated, 114_999_999);
    assert_eq!(t.conn_matchmaking_high, 110_000_001);
    e.lobbies.push(lobby("USER_BAD", 20, 1));
    let t = e.thresholds();
    // A confirmed bad lobby of 20 pulls them down to 20 times 1.1 and at least 28.
    assert_eq!(t.conn_matchmaking_elevated, 22 * SECOND);
    assert_eq!(t.conn_matchmaking_high, 28 * SECOND);
}

#[test]
fn thresholds_part_counts_as_doubles_do() {
    for seen in 1..220i64 {
        let mut e = LearningEngine::new();
        for _ in 0..8 {
            e.history.conn_count.push(Sample {
                ts: 1,
                v: seen * SECOND,
                phase: "matchmaking".to_string(),
                label: String::new(),
            });
        }
        for _ in 0..5 {
            e.lobbies.push(lobby("CLEAN", seen, 1));
        }
        let t = e.thresholds();
        let v = seen as f64;
        let elevated = (v * 1.15).clamp(40.0, 120.0);
        let high = (v * 1.1).clamp(60.0, 180.0);
        let ceiling = (v * 1.1).clamp(15.0, 100.0);
        for conns in 1..200i64 {
            let c = conns as f64;
            assert_eq!(conns * SECOND >= t.conn_matchmaking_elevated, c >= elevated);
            assert_eq!(conns * SECOND >= t.conn_matchmaking_high, c >= high);
            assert_eq!(conns * SECOND > t.conn_matchmaking_high, c > high);
            assert_eq!(conns * SECOND <= t.conn_good_ceiling, c <= ceiling);
        }
        e.lobbies.push(lobby("USER_BAD", seen, 1));
        let t = e.thresholds();
        let lower = elevated.min((v * 1.1).clamp(18.0, 80.0));
        let upper = high.min((v * 1.35).clamp(28.0, 100.0));
        for conns in 1..200i64 {
            assert_eq!(conns * SECOND >= t.conn_matchmaking_elevated, conns as f64 >= lower);
            assert_eq!(conns * SECOND >= t.conn_matchmaking_high, conns as f64 >= upper);
        }
    }
}

#[test]
fn adjustments_add_up_as_doubles_do() {
    let mark = |bad_lobby: bool| Feedback {
        ts: 2 * SECOND,
        bad_lobby,
        note: String::new(),
        last_lobby: Some(lobby("CLEAN", 24, SECOND)),
        verdict_at_feedback: "CLEAN".to_string(),
        score_at_feedback: 0,
    };
    let mut e = LearningEngine::new();
    e.feedback.push(mark(true));
    e.feedback.push(mark(false));
    let (score, notes) = e.adjust_score(0, 24, "matchmaking", None, &vec![], 3 * SECOND);
    assert_eq!(notes.len(), 2);
    assert!(0.30 - 0.08 < 0.22);
    assert_eq!(score, 219_999);
    for hundredths in 0..35i64 {
        let base = hundredths * 10_000;
        let (score, _) = e.adjust_score(base, 90, "matchmaking", None, &vec![], 3 * SECOND);
        let want = (hundredths as f64 / 100.0 - 0.08).clamp(0.0, 1.0);
        for t in 0..100i64 {
            assert_eq!(score >= t * 10_000, want >= t as f64 / 100.0);
        }
    }
    for (hits, boost) in [(2, 0.1), (3, 3.0 * 0.05), (4, 0.18), (9, 0.18)] {
        let mut e = LearningEngine::new();
        let mut sims = vec![];
        for _ in 0..hits {
            e.lobbies.push(LobbyEntry { fold: Some([0; 32]), ..lobby("LIKELY", 500, 1) });
            sims.push(0.9f32.to_bits());
        }
        for hundredths in 0..60i64 {
            let base = hundredths * 10_000;
            let (score, notes) = e.adjust_score(base, 24, "idle", None, &sims, 3 * SECOND);
            assert_eq!(notes.len(), 1);
            let want: f64 = hundredths as f64 / 100.0 + boost;
            for t in 0..100i64 {
                assert_eq!(score >= t * 10_000, want >= t as f64 / 100.0);
            }
        }
    }
}

#[test]
fn a_score_stands_without_records() {
    let e = LearningEngine::new();
    for base in 0..1001i64 {
        let (score, notes) = e.adjust_score(base * 1000, 40, "matchmaking", None, &vec![], SECOND);
        assert_eq!(score, base * 1000);
        assert!(notes.is_empty());
    }
    assert_eq!(e.adjust_score(579_999, 64, "in-match", None, &vec![], SECOND).0, 579_999);
    assert_eq!(e.adjust_score(-SECOND, 64, "in-match", None, &vec![], SECOND).0, 0);
    assert_eq!(e.adjust_score(2 * SECOND, 64, "in-match", None, &vec![], SECOND).0, SECOND);
    assert_eq!(e.adjust_score(100_000, 65, "in-match", None, &vec![], SECOND).0, 260_000);
}

#[test]
fn precision_is_rounded_as_doubles_are() {
    for (hits, misses) in [(201usize, 199usize), (1, 2), (1, 0), (0, 1), (7, 73), (203, 197)] {
        let mut e = LearningEngine::new();
        for i in 0..hits + misses {
            e.feedback.push(Feedback {
                ts: 1,
                bad_lobby: i < hits,
                note: String::new(),
                last_lobby: None,
                verdict_at_feedback: "LIKELY".to_string(),
                score_at_feedback: 0,
            });
        }
        let share = hits as f64 / (hits + misses) as f64 * 100.0;
        assert_eq!(e.calibration().precision_tenths, Some((share * 10.0).round() as u64));
    }
}

#[test]
fn a_confirmed_session_is_likely() {
    let mut e = LearningEngine::new();
    let snap = obj(vec![("connections", obj(vec![("count", n(40))]))]);
    e.record_poll(10 * SECOND, &snap, "matchmaking", &verdict("CLEAN", 0), None, None, [0; 32]);
    assert!(e.active.is_some());
    assert_eq!(e.lobbies.len(), 1);
    e.record_feedback(11 * SECOND, true, "Kicked by a hacker", "CLEAN", 0);
    let active = e.active.as_ref().unwrap();
    assert!(active.confirmed_bad);
    assert_eq!(active.worst_score, 90 * SECOND);
    assert_eq!(e.lobbies[0].label, "USER_BAD");
    let (score, notes) = e.adjust_score(0, 40, "matchmaking", None, &vec![0], 12 * SECOND);
    assert_eq!(score, 580_000);
    assert_eq!(notes, vec!["You confirmed cheaters this session — treating as LIKELY"]);
    assert!(e.end_active_session(20 * SECOND));
    assert!(!e.end_active_session(20 * SECOND));
    assert_eq!(e.outcomes[0].duration_sec, 10);
    assert!(e.outcomes[0].confirmed_bad);
}

#[test]
fn a_lobby_like_a_confirmed_one_is_possible() {
    let mut e = LearningEngine::new();
    e.lobbies.push(lobby("CLEAN", 24, SECOND));
    e.record_feedback(2 * SECOND, true, "", "POSSIBLE", 0);
    assert!(is_marginal_label("USER_MARGINAL"));
    let sims = vec![0u32; e.lobbies.len()];
    let (score, notes) = e.adjust_score(0, 30, "matchmaking", None, &sims, 3 * SECOND);
    assert_eq!(score, 300_000);
    assert_eq!(notes[0], "Matches your confirmed bad lobby (~24 conns) — treating as POSSIBLE");
    let (score, _) = e.adjust_score(0, 33, "matchmaking", None, &sims, 3 * SECOND);
    assert_eq!(score, 0);
    let late = 3 * SECOND + 86_400 * SECOND;
    assert_eq!(e.adjust_score(0, 24, "matchmaking", None, &sims, late).0, 0);
}

#[test]
fn marks_calibrate_the_verdicts() {
    let mut e = LearningEngine::new();
    e.lobbies.push(lobby("CLEAN", 24, SECOND));
    for (bad, label) in [(true, "LIKELY"), (true, "POSSIBLE"), (false, "LIKELY"), (true, "CLEAN")] {
        e.record_feedback(2 * SECOND, bad, "", label, 0);
    }
    let c = e.calibration();
    assert_eq!((c.true_positives, c.false_alarms, c.missed_bad), (2, 1, 1));
    assert_eq!((c.good_marks, c.bad_marks, c.feedback_total), (1, 3, 4));
    assert_eq!(c.precision_tenths, Some(667));
    assert!(c.needs_clean_marks);
    assert_eq!(LearningEngine::new().calibration().precision_tenths, None);
    let i = e.insights();
    assert_eq!((i.good_feedback, i.bad_feedback, i.feedback_count), (1, 3, 4));
    assert!(i.patterns.len() <= 10);
    assert!(build_improvement_hints(&e).len() <= i.patterns.len() + 10);
    assert!(is_good_label("USER_GOOD") && !is_good_label("LIKELY"));
}

#[test]
fn similar_lobbies_come_most_alike_first() {
    let mut e = LearningEngine::new();
    for (label, conns) in [("CLEAN", 1), ("LIKELY", 2), ("USER_BAD", 3)] {
        let mut l = lobby(label, conns, SECOND);
        l.fold = Some([0; 32]);
        e.lobbies.push(l);
    }
    let sims = vec![0.6f32.to_bits(), 0.9f32.to_bits(), 0.1f32.to_bits()];
    let found = e.find_similar_lobbies(&sims, 5, 11 * SECOND);
    let labels: Vec<&str> = found.iter().map(|l| l.label.as_str()).collect();
    assert_eq!(labels, vec!["LIKELY", "CLEAN"]);
    assert_eq!(found[0].age_sec, 10);
    assert_eq!(e.find_similar_lobbies(&sims, 1, 11 * SECOND).len(), 1);
}

#[test]
fn guard_activity_is_counted_in_the_session() {
    let mut e = LearningEngine::new();
    e.record_guard_activity(true, true);
    let snap = obj(vec![("connections", obj(vec![("count", n(40))]))]);
    e.record_poll(SECOND, &snap, "in-match", &verdict("CLEAN", 0), None, None, [0; 32]);
    e.record_guard_activity(true, false);
    let a = e.active.as_ref().unwrap();
    assert_eq!((a.desync_polls, a.flood_polls), (1, 0));
}

#[test]
fn kicks_and_flags_are_remembered() {
    let mut g = GameStateStore::new();
    let now = 1_000 * SECOND;
    let r = g.ingest(&obj(vec![("type", s("match_start")), ("mode", s("resurgence"))]), now);
    assert_eq!((r.event_type.as_str(), r.playlist.as_str(), r.recent_kick), ("match_start", "resurgence", false));
    let r = g.ingest(&obj(vec![("type", s("x")), ("kicked", Json::Bool(true))]), now);
    assert!(r.recent_kick);
    assert!(g.recent_kick(120 * SECOND, now + 120 * SECOND));
    assert!(!g.recent_kick(120 * SECOND, now + 121 * SECOND));
    assert_eq!(g.kick_age_sec(now + 5), Some(5));
    g.ingest(&obj(vec![("type", s("wallhack")), ("killer", s("bad1"))]), now);
    assert_eq!(g.player_flags.count("bad1"), 1);
    let batch: Vec<Json> = (0..MAX_EVENTS).map(|_| obj(vec![("type", s("tick"))])).collect();
    assert_eq!(g.ingest_batch(&batch, now), MAX_EVENTS);
    assert_eq!(g.ingest_batch(&vec![Json::Null], now), 0);
    assert_eq!(g.events.len(), MAX_EVENTS);
    let shown = g.to_json(now);
    assert_eq!((shown.events.len(), shown.flagged_players), (24, 1));
    assert_eq!(shown.events[0].event_type, "tick");
    g.clear_session();
    assert_eq!(g.playlist(), "resurgence");
    assert!(g.kick_age_sec(now).is_none() && g.events.is_empty());
}

#[test]
fn states_are_sorted_into_bands() {
    let snap = obj(vec![(
        "packetCapture",
        obj(vec![("stats", obj(vec![
            ("total", n(100)),
            ("inbound", n(50)),
            ("tinyInbound", n(15)),
            ("uniqueInboundRemotes", n(9)),
            ("udpInbound", n(80)),
        ]))]),
    )]);
    let st = state_from_snapshot(&snap, 61, "in-match");
    assert_eq!(st.key(), "f=2 p=2 h=1 t=0 u=3 ti=1 ir=2 c=2 ph=3");
}

#[test]
fn packets_leave_a_fingerprint_of_bytes() {
    let recs = Json::Arr(vec![obj(vec![("len", n(300)), ("proto", s("udp")), ("remote", s("1.2.x.4"))])]);
    let snap = obj(vec![("packetCapture", obj(vec![("records", recs)]))]);
    assert_eq!(packet_byte_fingerprint(&snap), vec![44, 1, 1, 2, 4]);
    assert_eq!(changed_bytes(&vec![1, 2, 3], &vec![3, 2]), vec![2, 0]);
    let h = histogram(&vec![7, 7, 9]);
    assert_eq!((h.len(), h[7], h[9]), (256, 2, 1));
}

#[test]
fn a_new_state_is_a_step_of_flow() {
    let mut t = InformationFlowTracker::new();
    let mut st = state_from_snapshot(&obj(vec![]), 0, "in-match");
    let o = t.observe(&st, &vec![]);
    assert!(o.odds == FlowOdds::Still);
    st.conns = 3;
    let o = t.observe(&st, &vec![1, 2]);
    assert!(o.odds == FlowOdds::Unknown);
    let bits = FlowBits { surprisal: 0, change_entropy: 0, entropy: 0, bound: 3 * SECOND };
    let step = t.step(&o, bits);
    assert_eq!((step.flow_bits, step.steps, step.superlinear), (8 * SECOND, 1, false));
    st.conns = 0;
    t.observe(&st, &vec![]);
    st.conns = 3;
    let o = t.observe(&st, &vec![1, 2]);
    assert!(o.odds == FlowOdds::Known { count: 1, total: 1 });
}

#[test]
fn alerts_have_a_cooldown_and_grow_worse_at_once() {
    let mut sc = NetworkSessionScorer::new();
    assert_eq!((verdict_rank("LIKELY") > verdict_rank("POSSIBLE")), true);
    let first = sc.should_alert("in-match", "POSSIBLE", 1_000 * SECOND);
    assert!(first.send);
    assert!(!sc.should_alert("in-match", "POSSIBLE", 1_001 * SECOND).send);
    assert!(sc.should_alert("in-match", "LIKELY", 1_002 * SECOND).send);
    assert_eq!(sc.last_auto_alert().map(|a| a.1.to_string()), Some("LIKELY".to_string()));
    assert!(!sc.should_alert("idle", "LIKELY", 9_000 * SECOND).send);
    sc.mark_lobby_exit();
    assert!(!sc.should_alert("in-match", "LIKELY", 99_000 * SECOND).send);
}

#[test]
fn a_declared_match_is_on() {
    let mut sc = NetworkSessionScorer::new();
    sc.mark_in_match();
    let start = sc.begin_poll(&default_roles(), &obj(vec![]), &obj(vec![]), 0);
    assert_eq!(start.phase, "in-match");
    assert!(start.kind == PollKind::Live);
    assert!(sc.dashboard_meta().manual_in_match);
    sc.mark_lobby_exit();
    assert!(sc.dashboard_meta().lobby_exited);
}

#[test]
fn a_kick_is_handled_once() {
    let mut sc = NetworkSessionScorer::new();
    let mut g = GameStateStore::new();
    assert!(!sc.take_kick(&g, SECOND));
    g.ingest(&obj(vec![("type", s("kick"))]), 5 * SECOND);
    assert!(sc.take_kick(&g, 6 * SECOND));
    assert!(!sc.take_kick(&g, 6 * SECOND));
}

#[test]
fn a_snapshot_names_its_game() {
    let snap = obj(vec![("_enriched", obj(vec![("game", s("warzone"))]))]);
    assert!(!infer_game(&snap).is_empty());
    assert_eq!(role_counts(&default_roles(), &obj(vec![])).len(), 0);
    assert!(critical_latencies(&obj(vec![])).is_empty());
    assert_eq!(level_from_score(0), level_from_score(1));
}

fn context(label: &str, score: i64) -> AiContext {
    AiContext {
        phase: "in-match".to_string(),
        conns: 40,
        base_score: 200_000,
        adjusted_score: 300_000,
        final_score: score,
        final_label: label.to_string(),
        learn_notes: texts(&["note"]),
        base_reasons: texts(&["reason"]),
        signals: vec![],
        mm_delta: None,
        wan_jitter: None,
        server_jitter: None,
        conn_history: vec![10, 20, 40],
        score_history: vec![5 * SECOND, 20 * SECOND],
    }
}

/// The chance in double precision.
fn chance(score: i64, label: &str, conns: i64, delta: i64, factors: usize) -> f64 {
    let mut p = score as f64 / 1e6 / 100.0;
    p += (conns as f64 / 100.0).clamp(0.0, 0.15);
    p += (delta as f64 / 1e6 / 100.0).clamp(0.0, 0.12);
    p += (factors as f64 * 0.03).min(0.12);
    if label == "LIKELY" {
        p = p.max(0.55);
    } else if label == "POSSIBLE" {
        p = p.max(0.28);
    }
    p.clamp(0.0, 0.95)
}

#[test]
fn a_probability_follows_score_and_trend() {
    let units = |p: f64| (p * FINE_UNITS as f64) as i128;
    assert_eq!(estimate_bad_probability(0, "LIKELY", -30, -SECOND, 0), units(0.55));
    assert_eq!(estimate_bad_probability(0, "POSSIBLE", 0, 0, 0), units(0.28));
    assert_eq!(estimate_bad_probability(100 * SECOND, "LIKELY", 0, 0, 0), units(0.95));
    assert_eq!(estimate_bad_probability(-50 * SECOND, "CLEAN", 30, 15 * SECOND, 2), 0);
    let scores = [0, 1, 50, 99_999, 12_350_000, 40 * SECOND, -5 * SECOND, 87_654_321, LIMIT, -LIMIT];
    for score in scores {
        for label in ["CLEAN", "POSSIBLE", "LIKELY"] {
            for conns in [-3, 0, 1, 7, 14, 15, 16, i64::MAX] {
                for delta in [-7, 0, 1, 7, 3_300_000, 11_999_999, 12 * SECOND, i64::MAX] {
                    for factors in [0, 1, 2, 3, 4, 9] {
                        let want = chance(score, label, conns, delta, factors);
                        let got = estimate_bad_probability(score, label, conns, delta, factors);
                        assert_eq!(got, units(want));
                    }
                }
            }
        }
    }
    for k in -3000..3000i64 {
        let x = 50_000 * (2 * k + 1);
        assert_eq!(round1(x), ((x as f64 / 1e6 * 10.0).round() as i64) * 100_000);
    }
}

#[test]
fn the_parts_of_a_score_are_rounded_as_doubles_are() {
    let round = |v: f64| ((v * 10.0).round() as i64) * 100_000;
    let mut x: i64 = 1;
    for k in 0..3000i64 {
        // Thousandths and halves of them, in no order.
        x = (x * 48_271 + 11) % 2_147_483_647;
        let base = (x % 2401 - 200) * 500;
        x = (x * 48_271 + 11) % 2_147_483_647;
        let adjusted = (x % 2401 - 200) * 500;
        let total = (x % 120_000) * 1000 + k % 7;
        let mut ctx = context("CLEAN", total);
        ctx.base_score = base;
        ctx.adjusted_score = adjusted;
        ctx.signals = vec![Signal { name: "x".to_string(), strength: 575_000 }];
        let (b, a, f) = (base as f64 / 1e6, adjusted as f64 / 1e6, total as f64 / 1e6);
        let parts = score_breakdown(&ctx);
        assert_eq!(parts[0].contribution, round((b * 100.0).min(100.0)));
        assert_eq!(parts[1].contribution, round(((a - b) * 100.0).clamp(-30.0, 30.0)));
        assert_eq!(parts[1].adjusted_score, Some(round((a * 100.0).min(100.0))));
        assert_eq!(parts[2].contribution, round(((f / 100.0 - a) * 100.0).clamp(0.0, 25.0)));
        assert_eq!(parts[2].detail, vec!["x: 57%"]);
        let t = trajectory_analysis(&ctx);
        let p = predict_trajectory(&ctx, &t, &AdaptiveThresholds::default());
        let want = chance(total, "CLEAN", t.conn_delta, t.score_delta, p.risk_factors.len());
        assert_eq!(p.estimated_bad_probability, round(want * 100.0));
    }
}

#[test]
fn a_score_below_nothing_is_explained_too() {
    let mut ctx = context("CLEAN", -10 * SECOND);
    ctx.base_score = -200_000;
    ctx.adjusted_score = -50_000;
    let sources = score_breakdown(&ctx);
    assert_eq!(sources[0].contribution, -20 * SECOND);
    assert_eq!(sources[1].contribution, 15 * SECOND);
    assert_eq!(sources[1].adjusted_score, Some(-5 * SECOND));
}

#[test]
fn the_adviser_explains_a_verdict() {
    let ctx = context("LIKELY", 60 * SECOND);
    let t = trajectory_analysis(&ctx);
    assert_eq!((t.conn_delta, t.score_delta), (30, 15 * SECOND));
    assert_eq!(t.connections, vec![40, 20, 10]);
    let p = predict_trajectory(&ctx, &t, &AdaptiveThresholds::default());
    assert_eq!(p.trend, "worsening");
    assert_eq!(p.risk_factors[0], "Connection fan-out rising (+30 over ~48s)");
    assert!(!p.early_warning);
    let sources = score_breakdown(&ctx);
    assert!(sources.len() >= 2);
    assert_eq!(sources[0].contribution, 20 * SECOND);
    let calibration = LearningEngine::new().calibration();
    let recs = build_recommendations(&ctx, &vec![], &p, &calibration);
    assert_eq!((recs[0].priority, recs[0].action), ("high", "defend"));
    assert_eq!(recs.last().map(|r| r.action), Some("network_guard"));
    let report = analyze(&ctx, &vec![], &calibration, &AdaptiveThresholds::default());
    assert_eq!(report.summary, ai_summary("LIKELY", true));
    assert_eq!(report.recommendations.len(), recs.len());
}

#[test]
fn polls_come_often_during_play() {
    assert!(xbox_online(&obj(vec![("xbox", obj(vec![("online", Json::Bool(true))]))])));
    assert!(deep_capture_due(true, 12) && !deep_capture_due(true, 13) && !deep_capture_due(false, 12));
    let snap = |game: &str, conns: u64| {
        obj(vec![
            ("_enriched", obj(vec![("game", s(game))])),
            ("connections", obj(vec![("count", n(conns))])),
        ])
    };
    assert!(is_active("in-match", false, &obj(vec![])));
    assert!(is_active("background", true, &snap("warzone", 20)));
    assert!(!is_active("background", true, &snap("warzone", 19)));
    assert!(!is_active("background", true, &snap("other", 50)));
    assert!(!is_active("background", false, &snap("warzone", 50)));
    assert!(error_is_logged(0) && error_is_logged(40) && !error_is_logged(41));
    assert!(is_well(false, false) && is_well(true, true) && !is_well(true, false));
    assert_eq!(guard_activity(BufferMode::Desync, FloodMode::Off), (true, false));
    assert_eq!(guard_activity(BufferMode::Kick, FloodMode::Shield), (false, true));
}

#[test]
fn the_deeper_capture_counts() {
    let with = |k: u64| {
        obj(vec![("packetCapture", obj(vec![("records", Json::Arr((0..k).map(n).collect()))]))])
    };
    let count = |j: &Json| j.get_in("packetCapture", "records").unwrap().as_array().unwrap().len();
    assert_eq!(count(&with_deep_capture(with(3), &with(5))), 5);
    assert_eq!(count(&with_deep_capture(with(5), &with(5))), 5);
    assert_eq!(count(&with_deep_capture(with(5), &with(1))), 5);
    assert!(capture_in(&with(2)).get("records").is_some());
    assert_eq!(capture_in(&n(4)).as_u64(), Some(4));
}

#[test]
fn peers_are_blocked_once_in_a_session() {
    let mut b = BlockedPeers::new();
    assert_eq!(b.take_new(&texts(&["1", "2"])), texts(&["1", "2"]));
    assert_eq!(b.take_new(&texts(&["2", "3"])), texts(&["3"]));
    assert!(b.take_new(&texts(&["1", "2", "3"])).is_empty());
    b.clear();
    assert_eq!(b.take_new(&texts(&["1"])), texts(&["1"]));
    let idle = analyze_packets(&default_roles(), &obj(vec![]), "idle", 0);
    assert!(extract_vps_game_peer_ips(&idle).is_none());
}

#[test]
fn offenders_spoil_the_reputation() {
    let rep = || obj(vec![("score", n(1))]);
    assert!(!lobby_reputation_gate(&with_reputation(rep(), &texts(&["1", "2"]))));
    let bad = with_reputation(rep(), &texts(&["1", "2", "3"]));
    assert!(lobby_reputation_gate(&bad));
    assert_eq!(bad.get("offender_ips").and_then(|v| v.as_u64()), Some(3));
    assert!(with_reputation(rep(), &vec![]).get("gate").is_none());
}

#[test]
fn offenders_are_asked_for_now_and_then() {
    let mut c = OffenderCache::new();
    assert!(c.wants_refresh(100 * SECOND, 8));
    assert!(!c.wants_refresh(100 * SECOND, 9));
    let reply = obj(vec![("offenders", Json::Arr(vec![obj(vec![("ip", s("1"))]), Json::Null]))]);
    c.refresh(&reply, 100 * SECOND);
    assert_eq!(c.ips(), &texts(&["1"]));
    assert!(!c.wants_refresh(144 * SECOND, 16));
    assert!(c.wants_refresh(145 * SECOND, 16));
    assert!(restrictions_are_fresh(0, 15 * SECOND - 1) && !restrictions_are_fresh(0, 15 * SECOND));
}

#[test]
fn restrictions_are_told_of_a_peer() {
    let entry = |ip: &str, reason: &str| obj(vec![("ip", s(ip)), ("reason", s(reason))]);
    let list = obj(vec![("peers", Json::Arr(vec![entry("1", "x"), entry("1", "sentinel-shield:ab"), entry("2", "y")]))]);
    let r = restriction_of(&list, "1");
    assert!(r.restricted && r.shielded);
    assert_eq!(r.reason, Some("sentinel-shield:ab".to_string()));
    assert_eq!(r.repeat_offender.unwrap().as_bool(), Some(false));
    assert!(!restriction_of(&list, "2").shielded);
    assert!(!restriction_of(&list, "3").restricted);
}

#[test]
fn requests_of_the_user_are_cleaned() {
    assert_eq!(normalize_ips(&texts(&[" 1.1.1.1 ", "", "  ", "2"])), texts(&["1.1.1.1", "2"]));
    assert_eq!(block_reason(true, Some("ab")), "sentinel-restrict:ab");
    assert_eq!(block_reason(false, None), "sentinel-shield:manual");
    assert_eq!((block_seconds(true), block_seconds(false)), (604_800, 86_400));
    assert!(offenders_only(Some("1")) && offenders_only(Some("TrUe")));
    assert!(!offenders_only(Some("yes")) && !offenders_only(None));
    let risk = obj(vec![("cheater_lobby", obj(vec![("label", s("LIKELY")), ("confidence", n(60))]))]);
    assert_eq!(session_verdict(Some(&risk)), ("LIKELY".to_string(), 60 * SECOND));
    assert_eq!(session_verdict(None), ("UNKNOWN".to_string(), 0));
    let half = obj(vec![("cheater_lobby", obj(vec![("label", s("LIKELY"))]))]);
    assert_eq!(session_verdict(Some(&half)).0, "UNKNOWN");
}
