use warzone_sentinel::json::Json;
use warzone_sentinel::network_guard::{
    buffer_mode_from_profile, buffer_profile, flood_level, has_attack_signal, has_non_game_traffic,
    has_peer_attack_signal, mitigation_summary, read_rqd_reply, rqd_sample_from, shield_args,
    shield_level, should_engage_desync, should_engage_flood, suspicious_peer_ips,
    target_buffer_mode, target_flood_mode, target_in_match_shield, BufferAction, BufferMode,
    FloodAction, FloodMode, GuardRisk, NetworkGuard, SwitchAction,
};
use warzone_sentinel::packets::analyze_packets;
use warzone_sentinel::roles::default_roles;
use warzone_sentinel::signals::Signal;

const SECOND: i64 = 1_000_000;

fn s(t: &str) -> Json {
    Json::Str(t.to_string())
}

fn obj(v: Vec<(&str, Json)>) -> Json {
    Json::Obj(v.into_iter().map(|(k, j)| (k.to_string(), j)).collect())
}

fn signal(name: &str, strength: i64) -> Signal {
    Signal { name: name.to_string(), strength }
}

fn risk(phase: &str) -> GuardRisk {
    GuardRisk {
        phase: phase.to_string(),
        label: String::new(),
        signals: vec![],
        suspicious: vec![],
        reputation_gate: false,
        game_kick: false,
    }
}

fn sample(bytes: u64, packets: u64, window: u64) -> Json {
    obj(vec![(
        "sample",
        obj(vec![
            ("bytesIn", Json::UInt(bytes)),
            ("packets", Json::UInt(packets)),
            ("windowSec", Json::UInt(window)),
        ]),
    )])
}

fn wan(ms: u64) -> Json {
    obj(vec![("wan", obj(vec![("latencyMs", Json::UInt(ms))]))])
}

#[test]
fn a_queue_is_shielded_with_tight_buffers() {
    let mut g = NetworkGuard::new();
    let now = 1_000 * SECOND;
    let p = g.evaluate(&risk("matchmaking"), &obj(vec![]), now);
    assert!(p.gaming && !p.paused && !p.kick_spike && !p.in_match);
    assert!(p.target_buffer == BufferMode::Desync);
    assert!(p.target_flood == FloodMode::Shield);
    let a = g.buffer_action(&p);
    assert!(a == BufferAction::Apply(BufferMode::Desync));
    assert!(g.buffer_done(&p, a, true));
    let f = g.flood_action(&p);
    assert!(f == FloodAction::Apply(FloodMode::Shield));
    g.flood_done(&p, f, true);
    assert!(g.moca_action(&p) == SwitchAction::Apply);
    g.moca_done(&p, SwitchAction::Apply, true);
    assert!(g.upload_action(&p) == SwitchAction::Apply);
    g.upload_done(&p, SwitchAction::Apply, true, Some(500 * SECOND));
    let p = g.evaluate(&risk("matchmaking"), &obj(vec![]), now + 90 * SECOND);
    assert!(g.buffer_action(&p) == BufferAction::Keep);
    assert!(g.flood_action(&p) == FloodAction::Keep);
    assert!(g.moca_action(&p) == SwitchAction::Keep);
    let p = g.evaluate(&risk("matchmaking"), &obj(vec![]), now + 91 * SECOND);
    assert!(g.buffer_action(&p) == BufferAction::Apply(BufferMode::Desync));
    assert!(!g.buffer_done(&p, BufferAction::Apply(BufferMode::Kick), true));
    let p = g.evaluate(&risk("idle"), &obj(vec![]), now + 92 * SECOND);
    assert!(g.buffer_action(&p) == BufferAction::Restore { relax_upload: true });
    g.buffer_done(&p, BufferAction::Restore { relax_upload: true }, false);
    assert!(g.moca_action(&p) == SwitchAction::Keep);
    assert!(g.upload_action(&p) == SwitchAction::Keep);
    assert!(g.flood_action(&p) == FloodAction::Relax);
    g.flood_done(&p, FloodAction::Relax, true);
    assert_eq!(g.current_status(now).flood_level, "off");
    assert_eq!(g.current_status(now).mode, "kick");
}

#[test]
fn a_match_has_the_tightest_buffers() {
    let mut g = NetworkGuard::new();
    let p = g.evaluate(&risk("in-match"), &obj(vec![]), SECOND);
    assert!(p.target_buffer == BufferMode::Kick);
    assert!(p.target_flood == target_in_match_shield());
}

#[test]
fn a_swinging_line_tightens_the_queue() {
    let mut g = NetworkGuard::new();
    let mut last = BufferMode::Stable;
    for (i, ms) in [10u64, 50, 10, 50].iter().enumerate() {
        let p = g.evaluate(&risk("matchmaking"), &wan(*ms), i as i64 * SECOND);
        last = p.target_buffer;
    }
    // The sample deviation of 10, 50, 10, 50 is 23.094.
    assert_eq!(g.wan_jitter_ms(), 23_094_011);
    assert!(last == BufferMode::Kick);
}

#[test]
fn spikes_are_seen_in_rates_and_jumps() {
    let spike = |before: Json, after: Json| {
        let mut g = NetworkGuard::new();
        g.evaluate(&risk("idle"), &before, SECOND);
        g.evaluate(&risk("idle"), &after, 2 * SECOND).kick_spike
    };
    let none = obj(vec![]);
    assert!(!spike(none.dup(), sample(31_875_000, 0, 3)));
    assert!(spike(none.dup(), sample(31_875_001, 0, 3)));
    assert!(spike(none.dup(), sample(31_875_376, 0, 3)));
    assert!(spike(sample(2_000_000, 0, 3), sample(12_000_000, 0, 3)));
    assert!(!spike(sample(2_000_000, 0, 3), sample(10_000_000, 0, 3)));
    assert!(spike(none.dup(), sample(8_000_000, 901, 3)));
    assert!(!spike(none, sample(8_000_000, 900, 3)));
    assert!(spike(sample(1, 151, 3), sample(6_000_000, 605, 3)));
}

#[test]
fn outside_of_play_a_spike_or_a_bad_label_tightens_a_little() {
    assert!(target_buffer_mode("CLEAN", true) == BufferMode::Light);
    assert!(target_buffer_mode("POSSIBLE", false) == BufferMode::Light);
    assert!(target_buffer_mode("CLEAN", false) == BufferMode::Stable);
    assert!(should_engage_desync("USER_BAD") && !should_engage_desync(""));
    assert!(should_engage_flood("matchmaking") && !should_engage_flood("in-match"));
    assert!(target_flood_mode("idle") == FloodMode::Off);
}

#[test]
fn stopped_defenses_stay_down_until_the_session_ends() {
    let mut g = NetworkGuard::new();
    let p = g.evaluate(&risk("in-match"), &obj(vec![]), SECOND);
    g.buffer_done(&p, BufferAction::Apply(BufferMode::Kick), true);
    assert!(g.release_and_pause(2 * SECOND) == BufferAction::Restore { relax_upload: false });
    assert!(g.release_now(true, false, 3 * SECOND));
    let st = g.current_status(3 * SECOND);
    assert!(st.paused && !st.engage);
    assert_eq!(st.pause_remaining_sec, 86_399);
    assert_eq!(st.mitigation, "Defenses paused — monitoring only");
    let late = 100_000 * SECOND;
    let p = g.evaluate(&risk("in-match"), &sample(90_000_000, 0, 1), late);
    assert!(p.paused && p.kick_spike);
    assert!(p.target_buffer == BufferMode::Stable && p.target_flood == FloodMode::Off);
    assert!(g.buffer_action(&p) == BufferAction::Keep);
    g.release_if_engaged();
    assert!(!g.current_status(late).paused);
    assert!(!g.release_now(false, false, late));
}

#[test]
fn signals_tell_of_attacks() {
    assert!(has_peer_attack_signal(&vec![signal("suspicious_peer", 250_000)]));
    assert!(!has_peer_attack_signal(&vec![signal("suspicious_peer", 249_999)]));
    assert!(has_attack_signal(&vec![signal("x", 900_000), signal("packet_storm", 350_000)]));
    assert!(!has_attack_signal(&vec![signal("wan_jitter", 900_000)]));
    assert!(has_non_game_traffic(&vec![signal("unknown_inbound", 350_000)], &obj(vec![])));
    let capture = |unknown: u64, game: u64| {
        let metrics = obj(vec![
            ("unknown_inbound_packets", Json::UInt(unknown)),
            ("game_inbound_packets", Json::UInt(game)),
        ]);
        obj(vec![("packetCapture", obj(vec![("metrics", metrics)]))])
    };
    assert!(has_non_game_traffic(&vec![], &capture(10, 9)));
    assert!(!has_non_game_traffic(&vec![], &capture(10, 10)));
    assert!(!has_non_game_traffic(&vec![], &capture(9, 0)));
}

#[test]
fn the_shield_has_a_level_for_each_case() {
    let none = obj(vec![]);
    let mut r = risk("matchmaking");
    assert_eq!(shield_level(&r, &none, false), "console");
    r.signals.push(signal("peer_micro_burst", 400_000));
    assert_eq!(shield_level(&r, &none, false), "console");
    r.suspicious.push("66.42.86.93".to_string());
    assert_eq!(shield_level(&r, &none, false), "peer-strict");
    assert_eq!(shield_args(&r, &none, false), vec!["shield", "peer-strict", "66.42.86.93"]);
    r.phase = "in-match".to_string();
    assert_eq!(shield_level(&r, &none, false), "in-match");
    assert_eq!(shield_level(&risk("idle"), &none, true), "strict");
    assert_eq!(shield_level(&risk("idle"), &none, false), "normal");
    let mut bad = risk("matchmaking");
    bad.reputation_gate = true;
    assert_eq!(shield_level(&bad, &none, false), "peer-strict");
}

#[test]
fn the_upload_is_watched() {
    let mut g = NetworkGuard::new();
    let busy = obj(vec![
        ("sample", obj(vec![("windowSec", Json::UInt(1))])),
        ("traffic", obj(vec![("summary", obj(vec![("xbox_upload_bytes", Json::UInt(100_000_000))]))])),
    ]);
    let up = g.upload_pressure(&busy, None);
    assert_eq!(up.upload_mbps, 800 * SECOND);
    assert_eq!(up.shaped_mbps, 950 * SECOND);
    assert_eq!(up.util_pct, 84_210_527);
    assert_eq!(up.alerts, vec!["Xbox upload 800 Mbps — 84% of shaped 950 Mbps ceiling"]);
    let queues = |saturated: bool, backlog: u64, grade: &str| {
        let e = obj(vec![
            ("saturated", Json::Bool(saturated)),
            ("backlog_bytes", Json::UInt(backlog)),
            ("buffer_grade", s(grade)),
        ]);
        obj(vec![("queues", obj(vec![("egress_upload", e)]))])
    };
    let quiet = obj(vec![]);
    assert!(!g.upload_pressure(&quiet, Some(&queues(false, 65_536, "good"))).pressure);
    let up = g.upload_pressure(&quiet, Some(&queues(false, 65_537, "good")));
    assert_eq!(up.alerts, vec!["Upload queue pressure — backlog 65537B grade good"]);
    assert!(g.upload_pressure(&quiet, Some(&queues(false, 0, "poor"))).pressure);
    let p = g.evaluate(&risk("in-match"), &quiet, 100 * SECOND);
    assert!(g.queues_wanted(&p));
    assert!(g.take_upload_warning(&p));
    assert!(!g.queues_wanted(&p));
    assert!(!g.take_upload_warning(&p));
    assert!(g.rqd_wanted(&p));
    g.rqd_done(&p, "desync");
    assert!(!g.rqd_wanted(&p));
    assert_eq!(g.current_status(0).mode, "desync");
}

#[test]
fn the_choice_by_queues_is_fed_and_read() {
    let q = obj(vec![(
        "queues",
        obj(vec![("egress_upload", obj(vec![("backlog_bytes", Json::UInt(5)), ("saturated", Json::Bool(true))]))]),
    )]);
    let r = rqd_sample_from(&wan(12), Some(&q), 0, 10, true, false);
    assert!(r.desync_hint && r.kick_spike && !r.in_match);
    assert_eq!((r.egress_mbps, r.backlog_bytes, r.wan_jitter_ms), (None, Some(5), Some(12 * SECOND)));
    let r = rqd_sample_from(&obj(vec![]), None, 7, 70 * SECOND, false, true);
    assert!(r.desync_hint);
    assert_eq!((r.egress_mbps, r.backlog_bytes, r.wan_jitter_ms), (Some(7), None, None));
    let ok = read_rqd_reply(&obj(vec![("profile", s("kick")), ("stdout", s("done"))])).ok().unwrap();
    assert_eq!((ok.profile.as_str(), ok.message.as_str()), ("kick", "done"));
    let bare = read_rqd_reply(&obj(vec![])).ok().unwrap();
    assert_eq!((bare.profile.as_str(), bare.message.as_str()), ("gaming", "rqd buffer applied"));
    let err = |v: Vec<(&str, Json)>| read_rqd_reply(&obj(v)).err().unwrap();
    assert_eq!(err(vec![("ok", Json::Bool(false))]), "rqd buffer apply failed");
    assert_eq!(err(vec![("ok", Json::Bool(false)), ("error", s("no"))]), "no");
    assert!(buffer_mode_from_profile("light") == BufferMode::Light);
    assert!(buffer_mode_from_profile("gaming") == BufferMode::Stable);
    assert_eq!(buffer_profile(BufferMode::Stable), "gaming");
    assert_eq!(flood_level(FloodMode::Harden), "harden");
}

#[test]
fn the_status_says_what_is_on() {
    assert_eq!(
        mitigation_summary(BufferMode::Kick, FloodMode::Shield, true, false, true),
        "Active: minimum buffers (3ms CAKE) + MoCA QoS, peer probe shield (VPS/tiny floods), kick spike detected — escalated defense"
    );
    assert_eq!(
        mitigation_summary(BufferMode::Stable, FloodMode::Off, false, false, false),
        "Active: gaming CAKE rtt=8ms (idle baseline)"
    );
    let mut g = NetworkGuard::new();
    let mut r = risk("in-match");
    r.game_kick = true;
    let snap = obj(vec![("connections", obj(vec![("count", Json::UInt(33))]))]);
    let p = g.evaluate(&r, &snap, 5 * SECOND);
    g.flood_done(&p, FloodAction::Apply(FloodMode::Shield), true);
    let up = g.upload_pressure(&snap, None);
    let st = g.status_json(&r, &snap, &p, &up, 5 * SECOND);
    assert_eq!(st.mode, "gaming");
    assert!(st.engage && st.kick_spike && st.monitor_only_in_match);
    assert_eq!(st.kick_source, "game_state");
    assert_eq!(st.kick_spikes_session, 0);
    assert_eq!(st.flood_guard.connections, 33);
    assert_eq!(st.flood_guard.level, "shield");
    assert_eq!(st.mitigation, "In-match: Warzone + Xbox Live allowlist only — all other inbound dropped");
    assert!(st.packet_shield.in_match_mode && st.packet_shield.console_mode);
    assert_eq!(st.packet_shield.tiny_max_bytes, 79);
    assert_eq!(st.moca_qos.dscp, "off");
    assert_eq!(st.upload_assist.description, "Upload boost pending — applies on next poll");
}

#[test]
fn probe_hosts_come_in_order_and_once() {
    let rec = |ip: &str| {
        obj(vec![
            ("dir", s("in")),
            ("remote", s(ip)),
            ("remotePort", Json::UInt(44998)),
            ("proto", s("udp")),
            ("len", Json::UInt(64)),
        ])
    };
    let mut recs = vec![];
    for _ in 0..8 {
        recs.push(rec("66.42.86.93"));
        recs.push(rec("45.76.1.2"));
        recs.push(rec("203.0.113.9"));
    }
    let snap = obj(vec![(
        "packetCapture",
        obj(vec![("stats", obj(vec![("total", Json::UInt(24))])), ("records", Json::Arr(recs))]),
    )]);
    let a = analyze_packets(&default_roles(), &snap, "matchmaking", 0);
    assert_eq!(suspicious_peer_ips(&a), vec!["45.76.1.2", "66.42.86.93"]);
    let idle = analyze_packets(&default_roles(), &snap, "idle", 0);
    assert!(suspicious_peer_ips(&idle).is_empty());
}
