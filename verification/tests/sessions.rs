use warzone_sentinel::dashboard::trim_snapshot;
use warzone_sentinel::json::Json;
use warzone_sentinel::peer_tracker::{session_name, valid_session_hex, PeerTracker};
use warzone_sentinel::roles::default_roles;
use warzone_sentinel::session_export::{
    attachment_name, delimited_escape, export_as, export_session, fmt_ts, format_named,
    formats_json, normalize_format, tagged_peers, ExportTexts,
};
use warzone_sentinel::session_files::{holds_document, FoundSession, SnapshotFile};

const SECOND: i64 = 1_000_000;

fn s(t: &str) -> Json {
    Json::Str(t.to_string())
}

fn obj(v: Vec<(&str, Json)>) -> Json {
    Json::Obj(v.into_iter().map(|(k, j)| (k.to_string(), j)).collect())
}

fn text(j: &Json, key: &str) -> String {
    j.get(key).and_then(|v| v.as_str().map(String::from)).unwrap_or_default()
}

fn peer(ip: &str, same: u64, total: u64, size: u64) -> Json {
    obj(vec![
        ("ip", s(ip)),
        ("role", s("p2p-mesh")),
        ("identical_count", Json::UInt(same)),
        ("identical_size", Json::UInt(size)),
        ("packet_size_min", Json::UInt(size)),
        ("packet_size_max", Json::UInt(size)),
        ("total_packets", Json::UInt(total)),
    ])
}

#[test]
fn session_names_are_sixteen_digits() {
    assert_eq!(session_name(0), "0000000000000000");
    assert_eq!(session_name(0x17a3_00ff_0000_beef), "17a300ff0000beef");
    assert_ne!(session_name(1), session_name(2));
    assert!(valid_session_hex(&session_name(u64::MAX)));
    assert!(valid_session_hex("ABCDEFabcdef0123"));
    assert!(!valid_session_hex("abc"));
    assert!(!valid_session_hex("17a300ff0000beeg"));
    assert!(!valid_session_hex("../../etc/passwd"));
}

#[test]
fn a_session_begins_with_a_lobby() {
    let mut t = PeerTracker::new();
    let none = t.ensure_session("idle", SECOND, 7);
    assert!(!none.created && none.hex.is_empty());
    let begun = t.ensure_session("matchmaking", SECOND, 7);
    assert!(begun.created);
    assert_eq!(begun.hex, "0000000000000007");
    let again = t.ensure_session("in-match", 2 * SECOND, 8);
    assert!(!again.created);
    assert_eq!(again.hex, "0000000000000007");
    assert_eq!(t.set_phase("in-match", 2 * SECOND, 9), None);
    let ended = t.end_session().unwrap();
    assert_eq!((ended.hex.as_str(), ended.phase.as_str()), ("0000000000000007", "in-match"));
    assert!(t.end_session().is_none());
    assert_eq!(t.set_phase("in-match", 2 * SECOND, 9), Some("0000000000000009".to_string()));
    let (old, new) = t.start_fresh_session("idle", SECOND, 1);
    assert!(old.is_some() && !new.created);
}

#[test]
fn polls_add_up_in_the_table() {
    let rules = default_roles();
    let mut t = PeerTracker::new();
    let poll = vec![
        peer("203.0.113.9", 3, 4, 90),
        peer("203.0.113.8", 3, 4, 64),
        obj(vec![("ip", s("20.201.1.1")), ("role", s("xbox-live"))]),
        obj(vec![("role", s("p2p-mesh"))]),
    ];
    assert!(t.ingest_identical_peers(&rules, "idle", &poll, SECOND, 1).is_none());
    let got = t.ingest_identical_peers(&rules, "matchmaking", &poll, SECOND, 1).unwrap();
    assert!(got.created);
    let more = vec![peer("203.0.113.9", 7, 10, 64)];
    t.ingest_identical_peers(&rules, "matchmaking", &more, 5 * SECOND, 2);
    let r = t.to_json();
    assert_eq!(r.peer_count, 2);
    assert_eq!(r.session_hex, Some("0000000000000001".to_string()));
    let first = &r.peers[0];
    assert_eq!(first.row.ip, "203.0.113.9");
    assert_eq!((first.row.identical_count, first.row.identical_size), (7, 64));
    assert_eq!((first.row.packet_size_min, first.row.packet_size_max), (64, 90));
    assert_eq!((first.row.total_packets, first.row.poll_hits), (14, 2));
    assert_eq!((first.row.first_seen, first.row.last_seen), (SECOND, 5 * SECOND));
    assert!(first.row.suspicious && !first.row.vps_probe && !first.fixed_size);
    assert!(!r.peers[1].row.suspicious);
    assert_eq!(t.set_phase("idle", SECOND, 3), None);
    assert_eq!(t.to_json().peer_count, 0);
    assert!(t.to_json().session_hex.is_none());
    assert!(t.to_json().stored_as.is_some());
}

#[test]
fn probe_traffic_from_a_provider_makes_a_probe_host() {
    let mut t = PeerTracker::new();
    let poll = vec![peer("66.42.86.93", 8, 10, 64)];
    t.ingest_identical_peers(&default_roles(), "in-match", &poll, SECOND, 1);
    let r = t.to_json();
    assert_eq!(r.peers[0].row.role, "vps-probe");
    assert_eq!(r.peers[0].row.label, "Vultr VPS");
    assert!(r.peers[0].fixed_size && r.peers[0].row.suspicious);
}

#[test]
fn rows_stand_by_run_then_packets_then_address() {
    let mut t = PeerTracker::new();
    let poll = vec![
        peer("203.0.113.7", 2, 5, 9),
        peer("203.0.113.10", 2, 5, 9),
        peer("203.0.113.3", 2, 9, 9),
        peer("203.0.113.4", 5, 1, 9),
    ];
    t.ingest_identical_peers(&default_roles(), "matchmaking", &poll, SECOND, 1);
    let ips: Vec<String> = t.lines("matchmaking").into_iter().map(|l| l.row.ip).collect();
    assert_eq!(ips, vec!["203.0.113.4", "203.0.113.3", "203.0.113.10", "203.0.113.7"]);
}

#[test]
fn a_cleared_table_is_kept_as_a_snapshot() {
    let mut t = PeerTracker::new();
    assert!(t.clear_table(5).is_none());
    t.ingest_identical_peers(&default_roles(), "matchmaking", &vec![peer("203.0.113.7", 1, 1, 9)], SECOND, 1);
    let c = t.clear_table(1_700_000_000).unwrap();
    assert_eq!(c.snapshot, "clear-1-1700000000.json");
    assert_eq!(c.message, "Saved 1 peer(s) to snapshot, table cleared");
    assert_eq!((c.rows.len(), c.clear_count), (1, 1));
    assert_eq!(t.clear_table(6).unwrap().snapshot, "clear-2-6.json");
    let m = t.session_meta("ab", "in-match", Some(3));
    assert_eq!((m.started_at, m.clear_count, m.ended_at), (SECOND, 2, Some(3)));
    assert_eq!(m.snapshot_files, vec!["clear-1-1700000000.json", "clear-2-6.json"]);
}

#[test]
fn past_sessions_are_listed_newest_first() {
    let found = |hex: &str, started: Option<u64>, peers: Option<Json>| FoundSession {
        hex: hex.to_string(),
        meta: started.map(|n| obj(vec![("session_hex", s(hex)), ("started_at", Json::UInt(n))])),
        peers,
        snapshots: 2,
    };
    let table = obj(vec![("peers", Json::Arr(vec![Json::Null, Json::Null]))]);
    let list = PeerTracker::list_sessions(&vec![
        found("0000000000000001", Some(10), None),
        found("not-a-session", Some(99), None),
        found("0000000000000002", Some(30), Some(table)),
        found("0000000000000003", None, None),
    ]);
    let names: Vec<String> = list.iter().map(|j| text(j, "session_hex")).collect();
    assert_eq!(names, vec!["0000000000000002", "0000000000000001", "0000000000000003"]);
    assert_eq!(list[0].get("peer_count").and_then(|v| v.as_u64()), Some(2));
    assert_eq!(list[1].get("snapshot_count").and_then(|v| v.as_u64()), Some(2));
    assert!(list[1].get("peer_count").is_none() && list[2].get("snapshot_count").is_none());
}

#[test]
fn a_session_is_read_back() {
    let hex = "00000000000000aa";
    let meta = || Ok(obj(vec![("phase", s("ended"))]));
    let err = |h: &str, dir: bool, m: Result<Json, String>, sn: Result<Vec<SnapshotFile>, String>| {
        PeerTracker::read_session(h, dir, m, None, sn).err().unwrap()
    };
    assert_eq!(err("x", true, meta(), Ok(vec![])), "invalid session_hex");
    assert_eq!(err(hex, false, meta(), Ok(vec![])), "session not found");
    assert_eq!(err(hex, true, Err("m".to_string()), Err("n".to_string())), "m");
    assert_eq!(err(hex, true, meta(), Err("n".to_string())), "n");
    let file = |name: &str, doc: Json| SnapshotFile { name: name.to_string(), doc };
    let snaps = vec![
        file("final.json", obj(vec![])),
        file("x.json", obj(vec![("filename", s("a.json"))])),
        file("clear-1.json", Json::Null),
    ];
    let peers = obj(vec![("peers", Json::Arr(vec![Json::Null]))]);
    let d = PeerTracker::read_session(hex, true, meta(), Some(peers), Ok(snaps)).ok().unwrap();
    assert_eq!(d.peer_count, 1);
    let names: Vec<String> = d.snapshots.iter().map(|j| text(j, "filename")).collect();
    assert_eq!(names, vec!["a.json", "clear-1.json", "final.json"]);
    assert!(holds_document("a.json") && !holds_document("a.json.tmp"));
    assert_eq!(PeerTracker::export_path("a.json", true), Some("snapshots/a.json".to_string()));
    assert_eq!(PeerTracker::export_path("a.json", false), Some("a.json".to_string()));
    assert_eq!(PeerTracker::export_path("a.txt", true), None);
}

fn texts() -> ExportTexts {
    ExportTexts { bundle: None, lines: vec![], nested: vec![] }
}

fn detail() -> Json {
    obj(vec![
        ("meta", obj(vec![
            ("phase", s("in-match")),
            ("started_at", Json::UInt(90_061)),
            ("clear_count", Json::UInt(2)),
        ])),
        ("snapshot_count", Json::UInt(3)),
        ("peers", Json::Arr(vec![obj(vec![
            ("ip", s("1.2.3.4")),
            ("label", s("A \"b\", c")),
            ("role", s("p2p-mesh")),
            ("identical_count", Json::UInt(7)),
            ("identical_size", Json::Int(-1)),
            ("packet_size_min", Json::UInt(64)),
            ("packet_size_max", Json::UInt(64)),
            ("suspicious", Json::Bool(true)),
            ("vps_probe", Json::Arr(vec![])),
            ("first_seen", Json::Real { micro: 1_500_000, text: "1.5".to_string() }),
            ("last_seen", Json::Null),
        ])])),
    ])
}

#[test]
fn formats_have_many_names() {
    assert_eq!(formats_json().len(), 6);
    assert_eq!(formats_json()[4].mime, "application/x-ndjson; charset=utf-8");
    for (raw, want) in [("", "json"), (" CSV ", "csv"), ("Tab", "tsv"), ("log", "txt"), ("JsonL", "ndjson"), ("markdown", "md"), ("XML", "xml")] {
        assert_eq!(normalize_format(raw), want);
    }
    assert_eq!(format_named("jsonlines"), "ndjson");
    assert_eq!(format_named("CSV"), "CSV");
    assert_eq!(attachment_name("ab", "csv"), "warzone-session-ab.csv");
}

#[test]
fn a_format_that_was_named_names_itself() {
    for raw in ["", " \t\n", " CSV ", "TAB", "Log", "JSONLines", "MarkDown", " XML", "X y", "É"] {
        let once = normalize_format(raw);
        assert_eq!(normalize_format(&once), once);
        assert_eq!(normalize_format(raw.trim()), once);
    }
    assert_eq!(normalize_format(" \t\n"), "json");
    assert_eq!(normalize_format(" X Y "), "x y");
    assert_eq!(normalize_format("MAR\u{212a}DOWN"), "md");
}

#[test]
fn cells_are_quoted_where_they_must_be() {
    assert_eq!(delimited_escape("a b\tc", ','), "a b\tc");
    assert_eq!(delimited_escape("a b\tc", '\t'), "\"a b\tc\"");
    assert_eq!(delimited_escape("a,b", ','), "\"a,b\"");
    assert_eq!(delimited_escape("\"", ','), "\"\"\"\"");
    assert_eq!(delimited_escape("a\r", ','), "\"a\r\"");
    assert_eq!(delimited_escape("\n", ','), "\"\n\"");
    assert_eq!(delimited_escape("", ','), "");
    let read = |e: &str| {
        if e.len() >= 2 && e.starts_with('"') {
            e[1..e.len() - 1].replace("\"\"", "\"")
        } else {
            e.to_string()
        }
    };
    for cell in ["x", "\"x", "x\"\"y", "a,\"b\"\n", "\"\"\""] {
        assert_eq!(read(&delimited_escape(cell, ',')), cell);
    }
}

#[test]
fn a_table_is_exported_with_quoted_cells() {
    let mut t = texts();
    t.nested = vec![(0..14).map(|c| format!("<{c}>")).collect()];
    let e = export_session("ab", &detail(), &t, "csv").ok().unwrap();
    assert_eq!((e.ext, e.mime), ("csv", "text/csv; charset=utf-8"));
    assert_eq!(
        e.body,
        "ip,label,role,identical_count,identical_size,packet_size_min,packet_size_max,total_packets,\
         tiny_packets,poll_hits,suspicious,vps_probe,first_seen,last_seen\n\
         1.2.3.4,\"A \"\"b\"\", c\",p2p-mesh,7,-1,64,64,,,,true,<11>,1.5,\n"
    );
    let tsv = export_session("ab", &detail(), &texts(), "TSV").ok().unwrap();
    assert!(tsv.body.contains("1.2.3.4\t\"A \"\"b\"\", c\"\tp2p-mesh\t7"));
}

#[test]
fn a_report_is_exported_as_text() {
    let e = export_session("ab", &detail(), &texts(), "txt").ok().unwrap();
    let lines: Vec<&str> = e.body.lines().collect();
    assert_eq!(lines[0], "Warzone Lobby Sentinel — session export");
    assert_eq!(lines[3], "Session:     ab");
    assert_eq!(lines[4], "Phase:       in-match");
    assert_eq!(lines[5], "Started:     1d 01:01:01 UTC (unix 90061)");
    assert_eq!(lines[6], "Peer count:  1");
    assert_eq!(lines[7], "Snapshots:   3");
    assert_eq!(lines[8], "Table clears:2");
    assert_eq!(
        lines[12],
        "IP               Label / role                 Identical   Peak Size spread Total in  Tiny  Polls"
    );
    assert_eq!(
        lines[13],
        "1.2.3.4          A \"b\", c · p2p-mesh                  7     -1  64 (fixed)                      "
    );
    assert_eq!(fmt_ts(0), "—");
    let long = obj(vec![("peers", Json::Arr(vec![obj(vec![("label", s(&"x".repeat(40)))])]))]);
    let cut = export_session("ab", &long, &texts(), "txt").ok().unwrap();
    assert!(cut.body.contains(&format!("{}… ", "x".repeat(27))));
}

#[test]
fn a_report_is_exported_as_markdown() {
    let e = export_as("ab", &detail(), &texts(), "md").ok().unwrap();
    assert!(e.body.starts_with("# Warzone session export\n\n- **Session:** `ab`\n- **Phase:** in-match\n"));
    assert!(e.body.ends_with("| 1.2.3.4 | A \"b\", c | p2p-mesh | 7 | -1 | 64 |  |  |  |  |\n"));
}

#[test]
fn an_export_needs_a_bundle_or_a_known_format() {
    let err = |t: &ExportTexts, f: &str| export_session("ab", &detail(), t, f).err().unwrap();
    assert_eq!(err(&texts(), ""), "json export requires bundle");
    assert_eq!(err(&texts(), "pdf"), "unsupported format 'pdf' — use json, csv, tsv, txt, ndjson, or md");
    let mut t = texts();
    t.bundle = Some(Err("broken".to_string()));
    assert_eq!(err(&t, "json"), "broken");
    t.bundle = Some(Ok("{}".to_string()));
    assert_eq!(export_session("ab", &detail(), &t, "json").ok().unwrap().body, "{}");
}

#[test]
fn each_peer_is_tagged_with_its_session() {
    let rows = tagged_peers("ab", &detail());
    assert_eq!(rows.len(), 1);
    assert_eq!(text(&rows[0], "session_hex"), "ab");
    let mut t = texts();
    t.lines = vec![Some("{1}".to_string()), None, Some("{2}".to_string())];
    assert_eq!(export_session("ab", &detail(), &t, "ndjson").ok().unwrap().body, "{1}\n{2}\n");
}

#[test]
fn the_dashboard_shows_the_head_of_each_list() {
    let many = |n: usize| Json::Arr((0..n as u64).map(Json::UInt).collect());
    let snap = obj(vec![
        ("xbox", obj(vec![("online", Json::Bool(true))])),
        ("secret", s("x")),
        ("connections", obj(vec![("count", Json::UInt(60)), ("items", many(60))])),
        ("recent_flows", many(40)),
        ("topFlows", many(5)),
    ]);
    let t = trim_snapshot(&snap);
    assert!(t.get("secret").is_none());
    assert_eq!(t.get_in("connections", "count").and_then(|v| v.as_u64()), Some(60));
    assert_eq!(t.get_in("connections", "items").and_then(|v| v.as_array()).map(|a| a.len()), Some(48));
    assert_eq!(t.get("recentFlows").and_then(|v| v.as_array()).map(|a| a.len()), Some(32));
    assert_eq!(t.get("topFlows").and_then(|v| v.as_array()).map(|a| a.len()), Some(5));
    assert_eq!(t.get("dnsDestinations").and_then(|v| v.as_array()).map(|a| a.len()), Some(0));
    assert!(matches!(t.get("wan"), Some(Json::Null)));
}
