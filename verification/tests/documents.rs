use warzone_sentinel::ai_advisor::{analyze, AiContext};
use warzone_sentinel::cheater_lobby::{role_pairs, CheaterVerdict};
use warzone_sentinel::documents::{plain_answer, signals_json};
use warzone_sentinel::enrich::enrich_snapshot;
use warzone_sentinel::fields::{
    count_json, int_json, opt_rounded_json, percent_json, real_json, rounded_json,
};
use warzone_sentinel::game_state::GameStateStore;
use warzone_sentinel::information_flow::{FlowStep, InformationFlowTracker};
use warzone_sentinel::json::Json;
use warzone_sentinel::learning::{AdaptiveThresholds, LearningEngine};
use warzone_sentinel::network_guard::{NetworkGuard, RqdSample};
use warzone_sentinel::network_session::NetworkSessionScorer;
use warzone_sentinel::packets::{analyze_packets, inspect_capture};
use warzone_sentinel::peer_tracker::PeerTracker;
use warzone_sentinel::poll::merge_peer_restrictions;
use warzone_sentinel::reports::{
    batch_json, block_reply, cleared_json, export_session_bundle, failure_json, formats_document,
    session_list_json, table_json, unblock_reply, RiskParts, SessionFile,
};
use warzone_sentinel::roles::default_roles;
use warzone_sentinel::session_export::formats_json;
use warzone_sentinel::session_risk::SessionRisk;
use warzone_sentinel::signals::Signal;
use warzone_sentinel::traffic::{analyze_inbound, inspect};

const SECOND: i64 = 1_000_000;

fn s(t: &str) -> Json {
    Json::Str(t.to_string())
}

fn n(v: u64) -> Json {
    Json::UInt(v)
}

fn obj(v: Vec<(&str, Json)>) -> Json {
    Json::Obj(v.into_iter().map(|(k, j)| (k.to_string(), j)).collect())
}

/// A document as text.
fn show(j: &Json) -> String {
    match j {
        Json::Null => "null".to_string(),
        Json::Bool(b) => b.to_string(),
        Json::UInt(n) => n.to_string(),
        Json::Int(n) => n.to_string(),
        Json::Real { text, .. } => text.clone(),
        Json::Str(t) => format!("\"{t}\""),
        Json::Arr(v) => format!("[{}]", v.iter().map(show).collect::<Vec<_>>().join(",")),
        Json::Obj(v) => {
            let fields: Vec<String> = v.iter().map(|(k, j)| format!("\"{k}\":{}", show(j))).collect();
            format!("{{{}}}", fields.join(","))
        }
    }
}

fn at(j: &Json, path: &[&str]) -> String {
    let mut here = j;
    for key in path {
        here = here.get(key).unwrap();
    }
    show(here)
}

#[test]
fn numbers_are_written_as_they_are() {
    assert_eq!(show(&real_json(12 * SECOND)), "12.0");
    assert_eq!(show(&real_json(12_300_000)), "12.3");
    assert_eq!(show(&real_json(-333)), "-0.000333");
    assert_eq!(show(&real_json(0)), "0.0");
    assert_eq!(real_json(i64::MIN).as_micro(), Some(i64::MIN as i128));
    assert_eq!(show(&rounded_json(333_333, 1000)), "0.333");
    assert_eq!(show(&rounded_json(-150_000, 100_000)), "-0.2");
    assert_eq!(show(&rounded_json(149_999, 100_000)), "0.1");
    for m in [5_000i64, 145_000, 285_000, 565_000, 575_000, 1_005_000, 1_015_000, -575_000] {
        let v = (m as f64 / 1e6 * 100.0).round() / 100.0;
        assert_eq!(show(&rounded_json(m as i128, 10_000)), format!("{v:?}"));
    }
    for m in [500i64, 1_500, 500_500, 501_500, 999_500] {
        let v = (m as f64 / 1e6 * 1000.0).round() / 1000.0;
        assert_eq!(show(&rounded_json(m as i128, 1000)), format!("{v:?}"));
        let p = (m as f64 / 1e6 * 1000.0).round() / 10.0;
        assert_eq!(show(&percent_json(m)), format!("{p:?}"));
    }
    assert_eq!(show(&opt_rounded_json(None, 100_000)), "null");
    assert_eq!(show(&int_json(-4)), "-4");
    assert_eq!(show(&count_json(7)), "7.0");
}

#[test]
fn a_verdict_is_shown_with_six_reasons() {
    let v = CheaterVerdict {
        label: "LIKELY".to_string(),
        confidence: 60_040_000,
        reasons: (0..8).map(|i| format!("r{i}")).collect(),
        mm_delta: None,
    };
    assert_eq!(
        show(&v.to_json()),
        "{\"label\":\"LIKELY\",\"confidence\":60.0,\"likely\":true,\"reasons\":[\"r0\",\"r1\",\"r2\",\"r3\",\"r4\",\"r5\"]}"
    );
    let a = plain_answer(&v.to_json());
    assert_eq!(at(&a, &["plain"]), "\"Yes — likely cheater lobby (60% confidence)\"");
    assert_eq!(at(&a, &["reasons"]), "[\"r0\",\"r1\",\"r2\",\"r3\"]");
}

#[test]
fn the_later_of_two_signals_counts() {
    let v: Vec<Signal> = [("a", 100_400), ("b", 1), ("a", 250_600)]
        .iter()
        .map(|(k, x)| Signal { name: k.to_string(), strength: *x })
        .collect();
    assert_eq!(show(&signals_json(&v)), "{\"a\":0.251,\"b\":0.0}");
}

#[test]
fn thresholds_are_shown_with_one_decimal() {
    let d = AdaptiveThresholds::default().to_json();
    assert_eq!(at(&d, &["conn_matchmaking_high"]), "90.0");
    assert_eq!(at(&d, &["source"]), "\"default\"");
    assert_eq!(at(&d, &["samples"]), "0");
}

#[test]
fn roles_are_listed_by_name() {
    let flow = |h: &str| obj(vec![("hostname", s(h))]);
    let snap = obj(vec![(
        "recentFlows",
        Json::Arr(vec![flow("x.xboxlive.com"), flow("a.demonware.net"), flow("b.xboxlive.com")]),
    )]);
    let e = enrich_snapshot(&default_roles(), snap);
    assert_eq!(at(&e, &["_enriched", "roleCounts"]), "{\"warzone-game\":1,\"xbox-live\":2}");
    assert_eq!(role_pairs(&e), vec![(1, 1), (6, 2)]);
    assert_eq!(show(&enrich_snapshot(&default_roles(), e.dup())), show(&e));
}

#[test]
fn an_inbound_analysis_is_shown() {
    let snap = obj(vec![
        ("sample", obj(vec![("bytesIn", n(25_000_000)), ("bytesOut", n(1_000_000)), ("windowSec", n(2))])),
        ("flowSource", s("conntrack")),
    ]);
    let th = AdaptiveThresholds::default();
    let d = analyze_inbound(&default_roles(), &snap, "matchmaking", None, &th).to_json();
    assert_eq!(at(&d, &["score"]), "28.0");
    assert_eq!(at(&d, &["signals"]), "{\"inbound_flood\":1.0}");
    assert_eq!(at(&d, &["metrics", "inbound_mbps"]), "100.0");
    assert_eq!(at(&d, &["metrics", "baseline_inbound_mbps"]), "5.0");
    let idle = analyze_inbound(&default_roles(), &snap, "idle", None, &th).to_json();
    assert_eq!(at(&idle, &["metrics"]), "{}");
    let t = inspect(&default_roles(), &snap, "all").to_json(&snap);
    assert_eq!(at(&t, &["summary", "sample_window_sec"]), "2");
    assert_eq!(at(&t, &["summary", "flow_source"]), "\"conntrack\"");
    assert_eq!(at(&t, &["by_role"]), "[]");
    assert_eq!(at(&t, &["dns_destinations"]), "null");
}

#[test]
fn an_analysis_of_packets_is_shown() {
    let packet = obj(vec![
        ("dir", s("in")),
        ("remote", s("66.42.86.93")),
        ("remotePort", n(44998)),
        ("proto", s("udp")),
        ("len", n(64)),
    ]);
    let stats = obj(vec![("total", n(9)), ("inbound", n(8)), ("outbound", n(1))]);
    let records: Vec<Json> = (0..8).map(|_| packet.dup()).collect();
    let snap = obj(vec![("packetCapture", obj(vec![("stats", stats), ("records", Json::Arr(records))]))]);
    let d = analyze_packets(&default_roles(), &snap, "matchmaking", 0).to_json();
    assert_eq!(at(&d, &["metrics", "total"]), "9.0");
    assert_eq!(at(&d, &["metrics", "outbound"]), "1");
    assert_eq!(at(&d, &["metrics", "inbound_ratio"]), "0.89");
    assert_eq!(
        at(&d, &["metrics", "suspicious_peers"]),
        "[{\"ip\":\"66.42.86.93\",\"label\":\"Vultr VPS\",\"role\":\"vps-probe\",\"vps_probe\":true,\"reason\":\"vultr_vps_probe\"}]"
    );
    assert_eq!(at(&d, &["metrics", "records_in_snapshot"]), "8");
    let idle = analyze_packets(&default_roles(), &snap, "idle", 0).to_json();
    assert_eq!(at(&idle, &["metrics"]), "{}");
    let none = analyze_packets(&default_roles(), &obj(vec![]), "in-match", 0).to_json();
    assert_eq!(at(&none, &["metrics", "reason"]), "\"xbox_offline\"");
    let r = inspect_capture(&default_roles(), &obj(vec![("captured", n(5))]), "idle", 0).to_json();
    assert_eq!(at(&r, &["captured"]), "5");
    assert_eq!(at(&r, &["analysis", "verdict"]), "\"idle\"");
}

#[test]
fn a_step_of_the_flow_is_shown() {
    let step = FlowStep {
        flow_bits: 4_500_000,
        total_flow_bits: 9_000_000,
        steps: 3,
        superlinear: true,
        prg_like: false,
        byte_flow: 0,
        alerts: vec![],
    };
    let d = InformationFlowTracker::new().to_json(&step);
    assert_eq!(at(&d, &["flow_bits"]), "4.5");
    assert_eq!(at(&d, &["superlinear_flow"]), "true");
    assert_eq!(at(&d, &["zenodo", "doi"]), "\"10.5281/zenodo.17373031\"");
}

#[test]
fn reported_events_are_shown() {
    let mut g = GameStateStore::new();
    let reply = g.ingest(&obj(vec![("type", s("kick")), ("player", s("p"))]), 10 * SECOND).to_json();
    assert_eq!(at(&reply, &["accepted"]), "1");
    assert_eq!(at(&reply, &["recent_kick"]), "true");
    let d = g.to_json(12 * SECOND).to_json();
    assert_eq!(at(&d, &["kick_age_sec"]), "2.0");
    assert_eq!(d.get("events").unwrap().as_array().unwrap().len(), 1);
    assert_eq!(show(&batch_json(3)), "{\"ok\":true,\"accepted\":3}");
}

#[test]
fn records_and_advice_are_shown() {
    let mut e = LearningEngine::new();
    let snap = obj(vec![("connections", obj(vec![("count", n(40))]))]);
    let clean = CheaterVerdict {
        label: "CLEAN".to_string(),
        confidence: 0,
        reasons: vec![],
        mm_delta: None,
    };
    e.record_poll(10 * SECOND, &snap, "matchmaking", &clean, None, None, [0; 32]);
    let d = e.insights().to_json(&e.active);
    assert_eq!(at(&d, &["fold_dim"]), "32");
    assert_eq!(at(&d, &["fold_blob_kb"]), "0.0");
    assert_eq!(at(&d, &["samples", "conn_count"]), "1");
    assert_eq!(at(&d, &["active_session", "started_at"]), "10.0");
    assert!(d.get_in("active_session", "ended_at").is_none());
    assert_eq!(at(&LearningEngine::new().insights().to_json(&None), &["active_session"]), "null");
    let marks = e.calibration();
    assert_eq!(at(&marks.to_json(), &["precision_pct"]), "null");
    let ctx = AiContext {
        phase: "matchmaking".to_string(),
        conns: 40,
        base_score: 300_000,
        adjusted_score: 300_000,
        final_score: 30 * SECOND,
        final_label: "POSSIBLE".to_string(),
        learn_notes: vec![],
        base_reasons: vec!["x".to_string()],
        signals: vec![],
        mm_delta: Some(12_340_000),
        wan_jitter: None,
        server_jitter: None,
        conn_history: vec![40],
        score_history: vec![30 * SECOND],
    };
    let a = analyze(&ctx, &vec![], &marks, &e.thresholds());
    let d = a.to_json(&ctx, &Json::Arr(vec![]), &marks, &snap);
    assert_eq!(at(&d, &["score_breakdown", "final_score"]), "30.0");
    assert_eq!(at(&d, &["features", "mm_delta_ms"]), "12.3");
    assert_eq!(at(&d, &["features", "role_counts"]), "{}");
    assert_eq!(at(&d, &["trajectory", "scores"]), "[30.0]");
    assert_eq!(at(&d, &["prediction", "trend"]), "\"stable\"");
}

#[test]
fn a_risk_is_shown_with_its_parts() {
    let none = || obj(vec![]);
    let risk = SessionRisk {
        score: 28_040_000,
        level: "LOW",
        phase: "matchmaking".to_string(),
        game: "Warzone".to_string(),
        recommendation: "Detection on standby.",
        anomalies: vec!["x".to_string()],
        adjusted: 280_000,
        learn_notes: vec![],
        verdict: CheaterVerdict {
            label: "POSSIBLE".to_string(),
            confidence: 28 * SECOND,
            reasons: vec!["x".to_string()],
            mm_delta: None,
        },
    };
    let parts = RiskParts {
        cheater_lobby: risk.verdict.to_json(),
        learning: none(),
        ai: none(),
        inbound: none(),
        packets: none(),
        information_flow: none(),
        lobby_reputation: none(),
        game_state: none(),
        playlist: "br".to_string(),
    };
    let d = risk.to_json(&vec![], &parts);
    assert_eq!(at(&d, &["score"]), "28.0");
    assert_eq!(at(&d, &["cheater_answer", "is_cheater_lobby"]), "\"maybe\"");
    assert_eq!(at(&d, &["cheater_lobby", "likely"]), "false");
    assert_eq!(at(&d, &["playlist"]), "\"br\"");
}

#[test]
fn the_scorer_and_the_guard_are_shown() {
    let mut sc = NetworkSessionScorer::new();
    assert_eq!(at(&sc.dashboard_meta().to_json(sc.last_auto_alert()), &["last_alert"]), "null");
    sc.should_alert("in-match", "LIKELY", 5 * SECOND);
    let d = sc.dashboard_meta().to_json(sc.last_auto_alert());
    assert_eq!(at(&d, &["last_alert"]), "{\"at\":5.0,\"label\":\"LIKELY\"}");
    assert_eq!(at(&d, &["conn_count"]), "null");
    let g = NetworkGuard::new().current_status(0).to_json();
    assert_eq!(at(&g, &["flood_guard"]), "{\"active\":false,\"level\":\"off\"}");
    assert_eq!(at(&g, &["moca_qos"]), "{\"active\":false,\"dscp\":\"off\"}");
    let x = RqdSample {
        upload_util_pct: 75 * SECOND,
        kick_spike: true,
        in_match: false,
        desync_hint: true,
        egress_mbps: None,
        backlog_bytes: Some(9),
        wan_jitter_ms: None,
    };
    assert_eq!(
        show(&x.to_json()),
        "{\"upload_util_pct\":75.0,\"utilization_pct\":75.0,\"kick_spike\":1.0,\"in_match\":0.0,\"desync_hint\":1.0,\"queue_pressure\":9,\"backlog_bytes\":9}"
    );
}

#[test]
fn a_session_is_kept_and_shown() {
    let mut t = PeerTracker::new();
    assert_eq!(at(&cleared_json(&t.clear_table(1)), &["session_hex"]), "null");
    let hex = t.ensure_session("in-match", 7 * SECOND, 255).hex;
    let meta = t.session_meta(&hex, "in-match", None).to_json();
    assert_eq!(at(&meta, &["started_at"]), "7.0");
    assert!(meta.get("ended_at").is_none());
    let row = obj(vec![("ip", s("203.0.113.9")), ("role", s("p2p-mesh")), ("total_packets", n(8))]);
    t.ingest_identical_peers(&default_roles(), "in-match", &vec![row], 8 * SECOND, 256);
    let table = table_json(&hex, "in-match", "updated_at", 9 * SECOND, &t.lines("in-match"));
    assert_eq!(at(&table, &["updated_at"]), "9.0");
    let mut d = t.to_json().to_json(&Some("/sessions/x".to_string()));
    assert_eq!(at(&d, &["storage_dir"]), "\"/sessions/x\"");
    assert_eq!(at(&d, &["peer_count"]), "1");
    merge_peer_restrictions(&mut d, None);
    assert!(d.get("peers").unwrap().as_array().unwrap()[0].get("restricted").is_none());
    let list = obj(vec![(
        "peers",
        Json::Arr(vec![obj(vec![("ip", s("203.0.113.9")), ("reason", s("manual restrict"))])]),
    )]);
    merge_peer_restrictions(&mut d, Some(&list));
    let peer = &d.get("peers").unwrap().as_array().unwrap()[0];
    assert_eq!(at(peer, &["restricted"]), "true");
    assert_eq!(at(peer, &["shielded"]), "true");
    assert_eq!(at(peer, &["repeat_offender"]), "false");
    let other = obj(vec![("peers", Json::Arr(vec![]))]);
    merge_peer_restrictions(&mut d, Some(&other));
    let peer = &d.get("peers").unwrap().as_array().unwrap()[0];
    assert_eq!((at(peer, &["restricted"]), at(peer, &["shielded"])), ("false".to_string(), "false".to_string()));
    let cleared = cleared_json(&t.clear_table(1));
    assert_eq!(at(&cleared, &["cleared_peers"]), "1");
    let bundle = export_session_bundle(
        SECOND,
        &hex,
        &d,
        &vec![SessionFile { path: "a.json".to_string(), data: n(1) }],
    );
    assert_eq!(at(&bundle, &["files"]), "[{\"path\":\"a.json\",\"data\":1}]");
    assert_eq!(at(&session_list_json(&vec![meta], "/sessions"), &["count"]), "1");
    let offer = formats_document(&formats_json());
    assert_eq!(offer.get("formats").unwrap().as_array().unwrap().len(), 6);
}

#[test]
fn a_block_is_answered_with_both_replies() {
    let ips = vec!["192.0.2.1".to_string(), "192.0.2.2".to_string()];
    let ok = obj(vec![("ok", Json::Bool(true)), ("n", n(2))]);
    let no = obj(vec![("n", n(0))]);
    assert_eq!(
        show(&block_reply(&ips, false, &ok, Ok(&ok))),
        "{\"ok\":true,\"action\":\"shield\",\"ips\":[\"192.0.2.1\",\"192.0.2.2\"],\
         \"blocklist\":{\"ok\":true,\"n\":2},\"shield\":{\"ok\":true,\"n\":2},\
         \"message\":\"Shield active for 2 peer(s) — tiny probes dropped\"}"
    );
    let strict = block_reply(&ips, true, &ok, Ok(&no));
    assert_eq!(at(&strict, &["ok"]), "false");
    assert_eq!(at(&strict, &["action"]), "\"restrict\"");
    assert_eq!(
        at(&strict, &["message"]),
        "\"Restricted 2 peer(s) for 7 days — full peer block + shield\""
    );
    assert_eq!(at(&block_reply(&ips, true, &no, Ok(&ok)), &["ok"]), "false");
    assert_eq!(
        show(&block_reply(&ips, true, &no, Err("timeout"))),
        "{\"ok\":false,\"error\":\"timeout\",\"blocklist\":{\"n\":0}}"
    );
    assert_eq!(
        show(&unblock_reply(&ips, &no, Ok(&ok))),
        "{\"ok\":true,\"action\":\"unrestrict\",\"ips\":[\"192.0.2.1\",\"192.0.2.2\"],\
         \"removed\":{\"n\":0},\"shield\":{\"ok\":true,\"n\":2},\
         \"message\":\"Removed restriction from 2 peer(s)\"}"
    );
    assert_eq!(
        show(&unblock_reply(&ips, &no, Err("refused"))),
        "{\"ok\":false,\"error\":\"refused\",\"removed\":{\"n\":0}}"
    );
    assert_eq!(
        show(&failure_json("no IPs selected")),
        "{\"ok\":false,\"error\":\"no IPs selected\"}"
    );
}

#[test]
fn the_inbound_share_is_rounded_as_doubles_are() {
    for (inbound, total) in [(23u64, 40u64), (57, 200), (575_001, 1_000_000), (1, 3), (0, 9)] {
        let stats = obj(vec![("total", n(total)), ("inbound", n(inbound))]);
        let capture = obj(vec![("packetCapture", obj(vec![("stats", stats)]))]);
        let doc = analyze_packets(&default_roles(), &capture, "matchmaking", 0).to_json();
        let v = if total > 0 { inbound as f64 / total as f64 } else { 0.0 };
        let want = (v * 100.0).round() / 100.0;
        assert_eq!(at(&doc, &["metrics", "inbound_ratio"]), format!("{want:?}"));
    }
}
