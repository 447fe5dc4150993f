use warzone_sentinel::firewalla::{
    envelope, goes_packed, is_healthy, load_token, read_token, script_document, script_output,
    FirewallaClient, Request,
};
use warzone_sentinel::json::Json;

fn s(t: &str) -> Json {
    Json::Str(t.to_string())
}

fn obj(v: Vec<(&str, Json)>) -> Json {
    Json::Obj(v.into_iter().map(|(k, j)| (k.to_string(), j)).collect())
}

fn texts(v: &[&str]) -> Vec<String> {
    v.iter().map(|t| t.to_string()).collect()
}

fn client() -> FirewallaClient {
    FirewallaClient::new("http://fw:8090/", "tok".to_string(), "203.0.113.11".to_string())
}

fn field(r: &Request, key: &str) -> Option<String> {
    r.body.as_ref().unwrap().get(key).and_then(|v| v.as_str().map(String::from))
}

fn list(r: &Request, key: &str) -> Vec<String> {
    let v = r.body.as_ref().unwrap().get(key).unwrap().as_array().unwrap();
    v.iter().map(|j| j.as_str().unwrap().to_string()).collect()
}

#[test]
fn the_client_knows_its_way() {
    let c = client();
    assert_eq!(c.base, "http://fw:8090");
    assert_eq!(c.url("/api/health"), "http://fw:8090/api/health");
    assert_eq!(c.authorization(), "Bearer tok");
    assert_eq!(c.xbox_ip(), "203.0.113.11");
}

#[test]
fn a_file_holds_a_token() {
    assert_eq!(read_token("# c\n\n  abc  \n"), Some("abc".to_string()));
    assert_eq!(read_token("X=1\nFIREWALLA_API_TOKEN=\"t\"\r\n"), Some("t".to_string()));
    assert_eq!(read_token("ARRAY_FW_API_TOKEN=  \nlast"), Some("last".to_string()));
    assert_eq!(read_token("WZ_ARRAY_FW_API_TOKEN=''"), Some("''".to_string()));
    assert_eq!(read_token("OTHER=1"), None);
    assert_eq!(read_token(""), None);
}

#[test]
fn settings_come_before_files() {
    let none: Vec<Option<String>> = vec![None, Some("  ".to_string())];
    let set = vec![None, Some(" a ".to_string())];
    let files = vec![None, Some("K=1".to_string()), Some("b".to_string())];
    assert_eq!(load_token(&set, &files), Ok("a".to_string()));
    assert_eq!(load_token(&none, &files), Ok("b".to_string()));
    assert_eq!(
        load_token(&none, &none),
        Err("array-firewall API token not configured".to_string())
    );
}

#[test]
fn a_query_holds_what_is_asked_for() {
    let c = client();
    let r = c.query_connections(Some("ab"), Some(""), None, Some("a&b=c"), true, 25, 5);
    assert!(r.body.is_none());
    assert_eq!(
        r.path,
        "/api/v1/gaming/connections?limit=25&offset=5&session_hex=ab&policy=a%26b%3Dc&offenders=1"
    );
    assert_eq!(
        c.query_connections(None, None, None, None, false, 1, 0).path,
        "/api/v1/gaming/connections?limit=1&offset=0"
    );
    assert_eq!(
        c.connection_offenders(2, 50).path,
        "/api/v1/gaming/connections/offenders?min_sessions=2&limit=50"
    );
    assert_eq!(
        c.list_connection_sessions(40).path,
        "/api/v1/gaming/connections/sessions?limit=40"
    );
}

#[test]
fn peers_are_blocked_with_a_reason_and_a_time() {
    let c = client();
    let r = c.block_peers(&texts(&["1.2.3.4", "5.6.7.8"]), "why", Some(86_400));
    assert_eq!(r.path, "/api/v1/gaming/peers/block");
    assert_eq!(list(&r, "ips"), texts(&["1.2.3.4", "5.6.7.8"]));
    assert_eq!(field(&r, "reason"), Some("why".to_string()));
    assert_eq!(r.body.as_ref().unwrap().get("ttl_sec").and_then(|v| v.as_u64()), Some(86_400));
    assert!(c.block_peers(&vec![], "", None).body.unwrap().get("ttl_sec").is_none());
    assert_eq!(c.block_subnets_from_ips(&vec![], "x").path, "/api/v1/subnets/block");
    assert_eq!(c.remove_peers(&vec![]).path, "/api/v1/gaming/peers/remove");
}

#[test]
fn scripts_get_their_arguments() {
    let r = client().fetch_packet_capture();
    assert_eq!(r.path, "/api/v1/run");
    assert_eq!(field(&r, "script"), Some("gaming-snapshot.sh".to_string()));
    assert_eq!(list(&r, "args"), texts(&["203.0.113.11", "--deep-packets"]));
    assert_eq!(list(&client().fetch_snapshot(), "args"), texts(&["203.0.113.11"]));
}

#[test]
fn bodies_say_what_is_known() {
    let c = client();
    let m = c.mitigate_session(obj(vec![("phase", s("in-match"))]), true);
    assert_eq!(m.body.as_ref().unwrap().get("kick_spike").and_then(|v| v.as_bool()), Some(true));
    assert_eq!(field(&m, "phase"), Some("in-match".to_string()));
    assert!(matches!(c.mitigate_session(Json::Null, true).body, Some(Json::Null)));
    let a = c.connections_action(&texts(&["1.1.1.1"]), "block", Some("ff"));
    assert_eq!(field(&a, "session_hex"), Some("ff".to_string()));
    let b = c.connections_action(&texts(&["1.1.1.1"]), "block", Some(""));
    assert!(b.body.unwrap().get("session_hex").is_none());
    assert!(c.asvi_scan(None, 3).body.unwrap().get("session_hex").is_none());
    let p = c.apply_rqd_buffer_profile(Json::UInt(1));
    assert_eq!(p.body.unwrap().get("apply").and_then(|v| v.as_bool()), Some(true));
    assert!(c.rqd_buffer_recommendation(Json::UInt(1)).body.unwrap().get("apply").is_none());
    assert_eq!(field(&c.sync_shield_fast("console", &vec![]), "level"), Some("console".to_string()));
}

#[test]
fn large_bodies_go_packed() {
    let c = client();
    assert!(goes_packed(2048, 2048));
    assert!(!goes_packed(2047, 2048));
    let r = c.wire_compress_bytes(&b"hello".to_vec());
    assert_eq!(r.path, "/api/v1/folding/wire/compress");
    assert_eq!(field(&r, "payload_b64"), Some("aGVsbG8=".to_string()));
    assert_eq!(field(&c.wire_compress_bytes(&vec![]), "payload_b64"), Some(String::new()));
    assert_eq!(field(&c.wire_compress_bytes(&vec![0xff, 0xfe]), "payload_b64"), Some("//4=".to_string()));
    assert_eq!(field(&c.wire_compress_bytes(&vec![251, 255, 191]), "payload_b64"), Some("+/+/".to_string()));
    assert!(envelope(&obj(vec![("ok", Json::Bool(false))])).is_none());
    let e = envelope(&obj(vec![("ok", Json::Bool(true)), ("orig_size", Json::UInt(9))])).unwrap();
    assert_eq!(e.get("_wire").and_then(|v| v.as_bool()), Some(true));
    assert_eq!(e.get("encoding").and_then(|v| v.as_str().map(String::from)), Some("gzip+blsb".to_string()));
    assert_eq!(e.get("orig_size").and_then(|v| v.as_u64()), Some(9));
    assert!(matches!(e.get("ratio"), Some(Json::Null)));
}

#[test]
fn replies_are_read() {
    assert!(is_healthy(Some(&obj(vec![("ok", Json::Bool(true))]))));
    assert!(!is_healthy(Some(&obj(vec![]))));
    assert!(!is_healthy(None));
    let ok = obj(vec![("stdout", s(" out \n"))]);
    assert_eq!(script_output(&ok), Ok("out".to_string()));
    let bad = obj(vec![("ok", Json::Bool(false)), ("stderr", s("e2")), ("error", s("e1"))]);
    assert_eq!(script_output(&bad), Err("e1".to_string()));
    assert_eq!(script_document(&bad, "x.sh"), Err("e2".to_string()));
    assert_eq!(script_document(&ok, "x.sh"), Err("script failed".to_string()));
    let empty = obj(vec![("ok", Json::Bool(true)), ("stdout", s("  "))]);
    assert_eq!(script_document(&empty, "x.sh"), Err("empty output from x.sh".to_string()));
    let doc = obj(vec![("ok", Json::Bool(true)), ("stdout", s(" {} "))]);
    assert_eq!(script_document(&doc, "x.sh"), Ok(" {} ".to_string()));
}
