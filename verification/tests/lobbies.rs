use warzone_sentinel::cheater_lobby::{
    answer_json, assess, items_with_roles, phase_code_from_str, phase_str, role_pairs,
};
use warzone_sentinel::counts::{ranking, Tally};
use warzone_sentinel::json::Json;
use warzone_sentinel::learning::AdaptiveThresholds;
use warzone_sentinel::packets::{
    analyze_inbound_identical, analyze_packets, classify_record_role, collect_peers,
    inspect_capture, parse_port, record_role, PacketMetrics,
};
use warzone_sentinel::ranks::{median, percentile};
use warzone_sentinel::roles::default_roles;
use warzone_sentinel::signals::{find_strength, Findings, Signal};
use warzone_sentinel::traffic::{analyze_inbound, collect_sample_metrics, format_bytes, inspect};

fn s(t: &str) -> Json {
    Json::Str(t.to_string())
}

fn n(v: u64) -> Json {
    Json::UInt(v)
}

fn obj(v: Vec<(&str, Json)>) -> Json {
    Json::Obj(v.into_iter().map(|(k, j)| (k.to_string(), j)).collect())
}

fn strength(signals: &Vec<Signal>, name: &str) -> Option<i64> {
    find_strength(signals, name)
}

fn capture(stats: Vec<(&str, Json)>, records: Vec<Json>) -> Json {
    obj(vec![("packetCapture", obj(vec![("stats", obj(stats)), ("records", Json::Arr(records))]))])
}

fn packet(ip: &str, port: u64, len: u64) -> Json {
    obj(vec![
        ("dir", s("in")),
        ("remote", s(ip)),
        ("remotePort", n(port)),
        ("proto", s("udp")),
        ("len", n(len)),
    ])
}

#[test]
fn tiny_packets_are_a_signal() {
    let rules = default_roles();
    let snap = capture(vec![("total", n(100)), ("inbound", n(80)), ("tinyInbound", n(40))], vec![]);
    let a = analyze_packets(&rules, &snap, "matchmaking", 10);
    assert_eq!(a.score, 240_000);
    assert_eq!(a.verdict, "suspicious_packets");
    assert_eq!(strength(&a.signals, "tiny_packet_flood"), Some(1_000_000));
    assert_eq!(a.alerts, vec!["40 tiny inbound packets (50% of capture) — probe/stress pattern"]);
    let some = capture(vec![("total", n(100)), ("inbound", n(32)), ("tinyInbound", n(8))], vec![]);
    let a = analyze_packets(&rules, &some, "matchmaking", 10);
    assert_eq!((a.score, a.verdict), (120_000, "normal_packets"));
    let few = capture(vec![("total", n(100)), ("inbound", n(33)), ("tinyInbound", n(8))], vec![]);
    assert_eq!(analyze_packets(&rules, &few, "matchmaking", 10).score, 0);
}

#[test]
fn shares_are_shown_as_doubles_round() {
    let rules = default_roles();
    let share = |tiny: u64, all: u64| {
        let stats = vec![("total", n(2 * all)), ("inbound", n(all)), ("tinyInbound", n(tiny))];
        analyze_packets(&rules, &capture(stats, vec![]), "matchmaking", 10).alerts[0].clone()
    };
    for (tiny, all) in [(23, 40), (46, 80), (109, 200), (115, 200), (33, 40), (25, 40), (17, 17)] {
        let percent = tiny as f64 / all as f64 * 100.0;
        assert_eq!(
            share(tiny, all),
            format!("{tiny} tiny inbound packets ({percent:.0}% of capture) — probe/stress pattern")
        );
    }
    assert_eq!(share(23, 40), "23 tiny inbound packets (57% of capture) — probe/stress pattern");
}

#[test]
fn signals_of_a_capture_add_up() {
    let snap = capture(
        vec![
            ("total", n(100)),
            ("inbound", n(80)),
            ("uniqueInboundRemotes", n(12)),
            ("tcpSynInbound", n(4)),
            ("udpInbound", n(20)),
            ("largeInbound", n(10)),
            ("avgInboundSize", Json::Real { micro: 200_500_000, text: "200.5".to_string() }),
            ("avgOutboundSize", n(100)),
        ],
        vec![],
    );
    let a = analyze_packets(&default_roles(), &snap, "in-match", 18);
    // 0.22 + 0.20 + 0.18 + 0.16 + 0.14
    assert_eq!(a.score, 900_000);
    assert_eq!(a.verdict, "likely_cheat_packets");
    assert_eq!(strength(&a.signals, "inbound_remote_fanout"), Some(600_000));
    assert_eq!(strength(&a.signals, "tcp_syn_inbound"), Some(500_000));
    assert_eq!(strength(&a.signals, "inbound_packet_asymmetry"), Some(800_000));
    assert_eq!(strength(&a.signals, "tiny_packet_flood"), None);
}

#[test]
fn without_packets_the_reason_is_told() {
    let rules = default_roles();
    let offline = analyze_packets(&rules, &obj(vec![]), "in-match", 0);
    assert!(matches!(&offline.metrics, PacketMetrics::NoCapture { reason, .. } if reason == "xbox_offline"));
    let online = obj(vec![("xbox", obj(vec![("online", Json::Bool(true))]))]);
    let idle = analyze_packets(&rules, &online, "in-match", 0);
    assert!(matches!(&idle.metrics, PacketMetrics::NoCapture { reason, window_sec: 3, .. } if reason == "idle_window"));
    let out = analyze_packets(&rules, &online, "background", 0);
    assert_eq!((out.score, out.verdict), (0, "idle"));
    assert_eq!(out.alerts, vec!["Not in lobby or match"]);
}

#[test]
fn runs_of_one_size_are_counted_by_address() {
    let rules = default_roles();
    let mut recs = vec![];
    for i in 0..8 {
        recs.push(packet("66.42.86.93", 44998, 64));
        recs.push(packet("203.0.113.9", 44998, 60 + i));
    }
    recs.push(packet("20.201.1.1", 3074, 64));
    let peers = collect_peers(&rules, "matchmaking", &recs);
    assert_eq!(peers.len(), 2);
    assert_eq!((peers[0].total, peers[0].tiny, peers[0].max_identical), (8, 8, 8));
    assert_eq!((peers[1].packet_size_min, peers[1].packet_size_max), (60, 67));
    let rows = analyze_inbound_identical(&rules, &recs, "matchmaking");
    assert_eq!(rows[0].ip, "66.42.86.93");
    assert_eq!((rows[0].role.as_str(), rows[0].label.as_str()), ("vps-probe", "Vultr VPS"));
    assert!(rows[0].confirmed && rows[0].vps_probe && rows[0].fixed_size && rows[0].suspicious);
    assert!(!rows[1].confirmed && !rows[1].suspicious);
    let a = analyze_packets(&rules, &capture(vec![("total", n(17))], recs), "matchmaking", 0);
    assert_eq!(strength(&a.signals, "suspicious_peer"), Some(333_333));
    assert!(a.alerts.contains(&"1 VPS probe host(s) detected — auto-block active".to_string()));
}

#[test]
fn records_have_roles_and_ports() {
    let rules = default_roles();
    let r = packet("185.34.106.103", 3074, 200);
    assert_eq!(parse_port(&r), Some(3074));
    assert_eq!(record_role(&rules, &r), "warzone-game");
    assert_eq!(classify_record_role(&rules, &vec![r], "185.34.106.103"), "warzone-game");
    assert_eq!(parse_port(&obj(vec![])), None);
}

#[test]
fn a_capture_is_inspected_by_itself() {
    let many = |k: u64| Json::Arr((0..k).map(n).collect());
    let c = obj(vec![("records", many(120)), ("flows", many(3)), ("captured", n(9))]);
    let r = inspect_capture(&default_roles(), &c, "idle", 0);
    assert_eq!((r.records.len(), r.flows.len()), (100, 3));
    assert_eq!(r.captured.as_u64(), Some(9));
    assert!(r.stats.is_null());
    assert_eq!(r.analysis.verdict, "idle");
}

fn rates(bytes_in: u64, bytes_out: u64, packets: u64, conns: u64) -> Json {
    obj(vec![
        (
            "sample",
            obj(vec![
                ("bytesIn", n(bytes_in)),
                ("bytesOut", n(bytes_out)),
                ("packets", n(packets)),
                ("windowSec", n(2)),
            ]),
        ),
        ("connections", obj(vec![("count", n(conns))])),
    ])
}

#[test]
fn rates_come_from_the_window() {
    let m = collect_sample_metrics(&default_roles(), &rates(25_000_000, 1_000_000, 9_000, 40));
    assert_eq!(m.inbound_mbps, 100_000_000);
    assert_eq!(m.outbound_mbps, 4_000_000);
    assert_eq!(m.total_kpps, 4_500_000);
    assert_eq!((m.connections, m.in_out_byte_ratio), (40, 1_000_000));
}

#[test]
fn a_flood_is_seen_against_the_baseline() {
    let th = AdaptiveThresholds::default();
    let rules = default_roles();
    let a = analyze_inbound(&rules, &rates(25_000_000, 1_000_000, 0, 0), "matchmaking", None, &th);
    assert_eq!((a.score, a.verdict), (280_000, "suspicious_inbound"));
    assert_eq!(strength(&a.signals, "inbound_flood"), Some(1_000_000));
    assert_eq!(
        a.alerts,
        vec!["Inbound flood 100.0 Mbps (20× baseline) — lag-comp / shadow-pool download burst"]
    );
    let b = analyze_inbound(&rules, &rates(7_500_000, 7_500_000, 0, 121), "in-match", None, &th);
    // 0.14 for the rate and 0.16 for the connections
    assert_eq!(b.score, 300_000);
    assert_eq!(strength(&b.signals, "inbound_elevated"), Some(750_000));
    assert_eq!(strength(&b.signals, "connection_surge"), Some(512_500));
    let c = analyze_inbound(&rules, &rates(25_000_000, 0, 0, 0), "idle", None, &th);
    assert_eq!((c.score, c.verdict), (0, "idle"));
}

#[test]
fn an_inspection_lists_connections_and_flows() {
    let flow = |ip: &str, down: u64, up: u64| {
        obj(vec![("remote", s(ip)), ("download", n(down)), ("upload", n(up))])
    };
    let snap = obj(vec![
        ("connections", obj(vec![("count", n(2)), ("items", Json::Arr(vec![
            obj(vec![("remote", s("20.201.1.1:443")), ("direction", s("out"))]),
            obj(vec![("remote", s("203.0.113.5:9")), ("direction", s("in"))]),
        ]))])),
        ("recentFlows", Json::Arr(vec![flow("20.201.1.1", 10, 5), flow("23.66.1.1", 30, 7), flow("8.8.8.8", 0, 0)])),
    ]);
    let r = inspect(&default_roles(), &snap, "all");
    assert_eq!((r.connections_out, r.connections_in), (1, 1));
    assert_eq!((r.flows_with_upload, r.flows_with_download), (2, 2));
    assert_eq!((r.xbox_upload_bytes, r.xbox_download_bytes), (12, 40));
    assert_eq!(inspect(&default_roles(), &snap, "in").connections.len(), 1);
    assert_eq!(format_bytes(512), "512 B");
}

fn verdict(conns: u64, phase: &str, adjust: Option<i64>) -> (String, i64, Vec<String>) {
    let snap = obj(vec![("connections", obj(vec![("count", n(conns))]))]);
    let v = assess(
        &default_roles(),
        &snap,
        phase,
        &vec![],
        &vec![],
        &vec![],
        &AdaptiveThresholds::default(),
        adjust,
        None,
        None,
        None,
    );
    (v.label, v.confidence, v.reasons)
}

#[test]
fn fan_out_makes_a_lobby_possible() {
    assert_eq!(
        verdict(90, "matchmaking", None),
        (
            "POSSIBLE".to_string(),
            28_000_000,
            vec!["Shadow-pool fan-out (90 live connections during queue)".to_string()]
        )
    );
    let (label, confidence, reasons) = verdict(60, "matchmaking", None);
    assert_eq!((label.as_str(), confidence), ("CLEAN", 14_000_000));
    assert_eq!(reasons, vec!["Telemetry matches normal Warzone pools"]);
    let (label, confidence, _) = verdict(65, "in-match", None);
    assert_eq!((label.as_str(), confidence), ("POSSIBLE", 24_000_000));
    assert_eq!(verdict(0, "matchmaking", Some(480_000)).0, "LIKELY");
    assert_eq!(verdict(0, "matchmaking", Some(479_999)).0, "POSSIBLE");
    assert_eq!(verdict(200, "idle", None).2, vec!["Not in lobby or match"]);
}

#[test]
fn a_far_server_makes_a_lobby_bad() {
    let item = obj(vec![("roleId", s("matchmaking")), ("latencyMs", n(100))]);
    let snap = obj(vec![
        ("wan", obj(vec![("latencyMs", n(20))])),
        ("connections", obj(vec![("count", n(95)), ("items", Json::Arr(vec![item]))])),
    ]);
    assert_eq!(items_with_roles(&default_roles(), &snap).len(), 1);
    let v = assess(
        &default_roles(),
        &snap,
        "matchmaking",
        &vec![],
        &vec![],
        &vec![],
        &AdaptiveThresholds::default(),
        None,
        None,
        None,
        None,
    );
    // 0.28 for the fan-out and 0.32 for the placement
    assert_eq!((v.label.as_str(), v.confidence), ("LIKELY", 60_000_000));
    assert_eq!(v.mm_delta, Some(80_000_000));
    assert_eq!(v.reasons[1], "Bad lobby placement (+80 ms vs your best path)");
}

#[test]
fn verdicts_are_answered_in_plain_words() {
    let a = answer_json(&obj(vec![("label", s("POSSIBLE")), ("confidence", n(30))]));
    assert_eq!((a.is_cheater_lobby, a.headline), ("maybe", "POSSIBLE CHEATER LOBBY"));
    assert_eq!(a.plain, "Maybe — possible cheater lobby (30% confidence)");
    assert_eq!(answer_json(&obj(vec![])).is_cheater_lobby, "no");
}

#[test]
fn an_enriched_snapshot_tells_its_roles() {
    let snap = obj(vec![(
        "_enriched",
        obj(vec![("phase", s("in-match")), ("roleCounts", obj(vec![("unknown", n(4)), ("xbox-live", n(2))]))]),
    )]);
    assert_eq!(role_pairs(&snap).len(), 1);
    assert_eq!(role_pairs(&snap)[0].1, 2);
    assert_eq!(phase_str(&snap), "in-match");
    assert_eq!(phase_str(&obj(vec![])), "idle");
    assert_eq!(phase_code_from_str("matchmaking"), 2);
}

#[test]
fn names_are_counted_and_ranked() {
    let names: Vec<String> = ["b", "a", "b", "c", "a", "b"].iter().map(|t| t.to_string()).collect();
    let t = Tally::of(&names);
    assert_eq!((t.count("b"), t.count("a"), t.count("x")), (3, 2, 0));
    let r = ranking(&t);
    assert_eq!(r[0], ("b".to_string(), 3));
    assert_eq!(r.len(), 3);
    let mut full = Tally::new();
    full.add_n("k", u64::MAX);
    full.add("k");
    assert_eq!(full.count("k"), u64::MAX);
}

#[test]
fn values_are_ranked() {
    assert_eq!(median(&vec![5, 1, 3]), 3);
    assert_eq!(percentile(&vec![], 50), None);
    assert_eq!(percentile(&vec![7], 90), Some(7));
}

#[test]
fn findings_gather() {
    let mut f = Findings::new();
    f.note(100_000, "a", 300_000, "x".to_string());
    f.mark(50_000, "b", 200_000);
    f.argue(10_000, "y".to_string());
    f.shift(-60_000);
    assert_eq!(f.score, 100_000);
    assert_eq!(f.alerts, vec!["x", "y"]);
    assert_eq!(find_strength(&f.signals, "b"), Some(200_000));
}
