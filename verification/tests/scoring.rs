use warzone_sentinel::cheater_lobby::{assess, CheaterVerdict};
use warzone_sentinel::information_flow::{
    histogram, pigeonhole_min_flow, prg_uniformity, FlowBits, FlowStep, InformationFlowTracker,
};
use warzone_sentinel::json::Json;
use warzone_sentinel::learning::{AdaptiveThresholds, LearningEngine, Sample};
use warzone_sentinel::network_session::{NetworkSessionScorer, PollKind, PollStart};
use warzone_sentinel::roles::default_roles;
use warzone_sentinel::session_risk::{quiet_risk, LiveCase, SessionRisk};

const SECOND: i64 = 1_000_000;

fn s(t: &str) -> Json {
    Json::Str(t.to_string())
}

fn n(v: u64) -> Json {
    Json::UInt(v)
}

fn obj(v: Vec<(&str, Json)>) -> Json {
    Json::Obj(v.into_iter().map(|(k, j)| (k.to_string(), j)).collect())
}

fn snapshot(phase: &str, game: &str, conns: u64, roles: Vec<(&str, Json)>) -> Json {
    obj(vec![
        ("_enriched", obj(vec![("phase", s(phase)), ("game", s(game)), ("roleCounts", obj(roles))])),
        ("connections", obj(vec![("count", n(conns))])),
    ])
}

fn still() -> FlowBits {
    FlowBits { surprisal: 0, change_entropy: 0, entropy: 0, bound: 0 }
}

fn poll(
    sc: &mut NetworkSessionScorer,
    engine: &LearningEngine,
    flow: &mut InformationFlowTracker,
    snap: &Json,
    sims: &Vec<u32>,
) -> (PollStart, FlowStep, LiveCase, SessionRisk) {
    let rules = default_roles();
    let none = obj(vec![]);
    let open = sc.open_poll(flow, &rules, snap, &none, 0);
    let start = open.start;
    assert!(start.kind == PollKind::Live);
    let seen = open.seen.unwrap();
    let (step, case) = sc.weigh_poll(flow, engine, &rules, snap, &none, &start, &seen, still());
    let risk = sc.judge(&rules, engine, snap, &start, &case, sims, 100 * SECOND);
    (start, step, case, risk)
}

#[test]
fn a_busy_queue_is_scored() {
    let mut sc = NetworkSessionScorer::new();
    let mut flow = InformationFlowTracker::new();
    let engine = LearningEngine::new();
    let snap = snapshot("matchmaking", "warzone", 95, vec![("matchmaking", n(2))]);
    let (start, step, case, risk) = poll(&mut sc, &engine, &mut flow, &snap, &vec![]);
    assert_eq!((start.phase.as_str(), start.game.as_str()), ("matchmaking", "warzone"));
    assert_eq!((step.flow_bits, step.superlinear), (0, false));
    assert_eq!(case.conns, 95);
    assert_eq!(case.signals.len(), 1);
    assert_eq!((case.signals[0].name.as_str(), case.signals[0].strength), ("heavy_matchmaking", SECOND));
    assert_eq!(case.signal_score, 100 * SECOND);
    // 0.28 for the fan-out and 0.12 for the endpoints
    assert_eq!((case.base.label.as_str(), case.base.confidence), ("POSSIBLE", 40 * SECOND));
    assert_eq!(risk.adjusted, 400_000);
    assert_eq!((risk.verdict.label.as_str(), risk.score, risk.level), ("POSSIBLE", 40 * SECOND, "MEDIUM"));
    assert_eq!(
        risk.recommendation,
        "Possible cheater lobby — light packet shield if tiny floods detected."
    );
    assert_eq!(risk.anomalies[0], "Shadow-pool fan-out (95 live connections during queue)");
    assert!(risk.anomalies.contains(&"Dense matchmaking fan-out (95 connections)".to_string()));
    assert_eq!(sc.score_history(), &vec![40 * SECOND]);
    let ctx = sc.advice_context(&start, &case, &risk);
    assert_eq!((ctx.base_score, ctx.adjusted_score, ctx.final_score), (400_000, 400_000, 40 * SECOND));
    assert_eq!((ctx.conn_history, ctx.score_history), (vec![95], vec![40 * SECOND]));
    assert_eq!(ctx.wan_jitter, None);
}

#[test]
fn many_connections_in_a_match_raise_the_score() {
    let mut sc = NetworkSessionScorer::new();
    let mut flow = InformationFlowTracker::new();
    let engine = LearningEngine::new();
    let snap = snapshot("in-match", "warzone", 80, vec![("warzone-game", n(3))]);
    let (_, _, case, risk) = poll(&mut sc, &engine, &mut flow, &snap, &vec![]);
    // 0.16 for the load is possible all the same, and shown as 24 percent
    assert_eq!((case.base.label.as_str(), case.base.confidence), ("POSSIBLE", 24 * SECOND));
    assert_eq!(risk.adjusted, 260_000);
    assert_eq!((risk.verdict.label.as_str(), risk.score, risk.level), ("POSSIBLE", 26 * SECOND, "LOW"));
    assert_eq!(risk.learn_notes, vec!["In-match connection load (80) above learned baseline"]);
}

#[test]
fn strengths_that_are_no_millionths_are_odd() {
    let strength = |telemetry: u64, assets: u64| {
        let mut sc = NetworkSessionScorer::new();
        let mut flow = InformationFlowTracker::new();
        let roles = vec![
            ("telemetry", n(telemetry)),
            ("warzone-game", n(1)),
            ("game-assets", n(assets)),
        ];
        let snap = snapshot("in-match", "warzone", 30, roles);
        let (_, _, case, _) = poll(&mut sc, &LearningEngine::new(), &mut flow, &snap, &vec![]);
        assert_eq!(case.signals.len(), 1);
        assert_eq!(case.signal_score, case.signals[0].strength * 100);
        case.signals[0].strength
    };
    assert_eq!(strength(3, 6), 428_571);
    assert_eq!(strength(4, 5), 666_667);
    assert_eq!(strength(3, 4), 600_000);
    assert_eq!(strength(3, 2_999_999_999), 1);
    assert_eq!(strength(3, 2_999_999), SECOND / 1_000_000);
}

#[test]
fn the_word_of_the_user_outweighs_a_quiet_lobby() {
    let mut engine = LearningEngine::new();
    let quiet = snapshot("matchmaking", "warzone", 12, vec![]);
    let clean = CheaterVerdict {
        label: "CLEAN".to_string(),
        confidence: 0,
        reasons: vec![],
        mm_delta: None,
    };
    engine.record_poll(10 * SECOND, &quiet, "matchmaking", &clean, None, None, [0; 32]);
    engine.record_feedback(11 * SECOND, true, "", "CLEAN", 0);
    for phase in ["matchmaking", "in-match"] {
        let mut sc = NetworkSessionScorer::new();
        let mut flow = InformationFlowTracker::new();
        let roles = vec![("warzone-game", n(3)), ("matchmaking", n(1))];
        let snap = snapshot(phase, "warzone", 12, roles);
        let sims = vec![0; engine.lobbies.len()];
        let (start, _, _, risk) = poll(&mut sc, &engine, &mut flow, &snap, &sims);
        assert_eq!(start.phase, phase);
        assert_eq!(risk.adjusted, 580_000);
        assert_eq!((risk.verdict.label.as_str(), risk.score, risk.level), ("LIKELY", 58 * SECOND, "HIGH"));
        assert_eq!(
            risk.learn_notes,
            vec!["You confirmed cheaters this session — treating as LIKELY"]
        );
    }
}

#[test]
fn outside_a_lobby_nothing_is_judged() {
    let rules = default_roles();
    let none = obj(vec![]);
    let mut sc = NetworkSessionScorer::new();
    let start = sc.begin_poll(&rules, &snapshot("matchmaking", "fortnite", 3, vec![]), &none, 0);
    assert!(start.kind == PollKind::Elsewhere);
    let mut flow = InformationFlowTracker::new();
    let other = snapshot("matchmaking", "fortnite", 3, vec![]);
    let open = NetworkSessionScorer::new().open_poll(&mut flow, &rules, &other, &none, 0);
    assert!(open.seen.is_none());
    let q = quiet_risk(&start).unwrap();
    assert_eq!((q.risk.recommendation, q.summary), ("Not in Warzone — monitoring idle", "Not in Warzone — AI idle"));
    assert!(q.risk.anomalies.is_empty());

    let mut sc = NetworkSessionScorer::new();
    let start = sc.begin_poll(&rules, &snapshot("idle", "warzone", 0, vec![]), &none, 0);
    assert!(start.kind == PollKind::Resting);
    let q = quiet_risk(&start).unwrap();
    assert_eq!((q.risk.score, q.risk.level, q.risk.phase.as_str()), (0, "CLEAN", "idle"));
    assert_eq!(q.risk.recommendation, "Out of lobby — session logged.");
    assert_eq!(q.summary, "Out of lobby — session logged for learning");
    assert_eq!(q.risk.anomalies, vec!["Not in matchmaking or in-match"]);

    let left = PollStart {
        kind: PollKind::Resting,
        phase: "post-match".to_string(),
        game: "warzone".to_string(),
        game_label: "Warzone".to_string(),
    };
    let q = quiet_risk(&left).unwrap();
    assert_eq!(q.risk.recommendation, "Left lobby — monitoring for next queue.");
    assert_eq!(q.risk.game, "Warzone");
    let live = PollStart { kind: PollKind::Live, ..left };
    assert!(quiet_risk(&live).is_none());
}

#[test]
fn wild_records_leave_the_thresholds_in_bounds() {
    let mut e = LearningEngine::new();
    for _ in 0..20 {
        for list in [
            &mut e.history.conn_count,
            &mut e.history.mm_delta,
            &mut e.history.server_jitter,
            &mut e.history.inbound_mbps,
            &mut e.history.in_out_ratio,
        ] {
            list.push(Sample {
                ts: 1,
                v: 1_000_000 * SECOND,
                phase: "matchmaking".to_string(),
                label: String::new(),
            });
        }
    }
    let t = e.thresholds();
    assert_eq!(t.conn_matchmaking_elevated, 120 * SECOND);
    assert_eq!(t.conn_matchmaking_high, 180 * SECOND);
    assert_eq!((t.mm_delta_warn, t.mm_delta_bad), (50 * SECOND, 80 * SECOND));
    assert_eq!(t.jitter_bad, 30 * SECOND);
    assert_eq!((t.inbound_mbps_elevated, t.inbound_mbps_bad), (60 * SECOND, 200 * SECOND));
    assert_eq!(t.in_out_ratio_bad, 15 * SECOND);
}

fn opinion(conns: u64, adjust: Option<i64>) -> (String, i64) {
    let snap = obj(vec![("connections", obj(vec![("count", n(conns))]))]);
    let v = assess(
        &default_roles(),
        &snap,
        "matchmaking",
        &vec![],
        &vec![],
        &vec![],
        &AdaptiveThresholds::default(),
        adjust,
        None,
        None,
        None,
    );
    (v.label, v.confidence)
}

#[test]
fn a_lower_opinion_takes_nothing_back() {
    assert_eq!(opinion(90, None), ("POSSIBLE".to_string(), 28 * SECOND));
    assert_eq!(opinion(90, Some(100_000)), ("POSSIBLE".to_string(), 28 * SECOND));
    assert_eq!(opinion(90, Some(500_000)), ("LIKELY".to_string(), 50 * SECOND));
}

#[test]
fn labels_grow_with_the_score() {
    let rank = |l: &str| ["CLEAN", "POSSIBLE", "LIKELY"].iter().position(|x| *x == l).unwrap();
    let mut last = 0;
    for k in 0..=100 {
        let (label, _) = opinion(0, Some(k * 10_000));
        assert!(rank(&label) >= last);
        last = rank(&label);
    }
    assert_eq!(last, 2);
}

#[test]
fn even_bytes_look_random() {
    let even: Vec<u8> = (0..512u32).map(|i| (i % 256) as u8).collect();
    let counts = histogram(&even);
    assert_eq!(prg_uniformity(&counts, 512, 8 * SECOND), (8 * SECOND, SECOND, true));
    // An entropy of 7.2 bits is needed.
    assert!(!prg_uniformity(&counts, 512, 7_199_999).2);
    let one = histogram(&vec![7; 64]);
    assert_eq!(prg_uniformity(&one, 64, 8 * SECOND), (8 * SECOND, 0, false));
    // 64 values once: the statistic is 192, of which a 512th is 0.375.
    let some: Vec<u8> = (0..64).collect();
    assert_eq!(prg_uniformity(&histogram(&some), 64, 6 * SECOND), (6 * SECOND, 625_000, false));
    assert_eq!(prg_uniformity(&histogram(&vec![1; 31]), 31, 8 * SECOND), (0, 0, false));
}

#[test]
fn bits_are_shared_out_among_the_steps() {
    assert_eq!(pigeonhole_min_flow(9 * SECOND, 3), 3 * SECOND);
    assert_eq!(pigeonhole_min_flow(9 * SECOND, 0), 9 * SECOND);
    assert_eq!(pigeonhole_min_flow(-9 * SECOND, 2), -4_500_000);
    assert_eq!(pigeonhole_min_flow(10, 4), 3);
    assert_eq!(pigeonhole_min_flow(-1, 2), -1);
}
