use warzone_sentinel::json::Json;
use warzone_sentinel::notify::{
    alert_status, auth_code_in, base_address, coalesce_key, code_form, configured_topic,
    console_message,
    exchanged_store, extract_auth_code, header_safe, identity_of, is_enabled, message_authorization,
    message_url, push_title, refresh_form, renewed_store, required_text, session_push, store_with_user,
    subscribe_url, topic, topic_from, truncate_utf8, xbox_authorize_url, xbox_configured, AlertGate,
};

const SECOND: i64 = 1_000_000;

fn s(t: &str) -> Json {
    Json::Str(t.to_string())
}

fn obj(v: Vec<(&str, Json)>) -> Json {
    Json::Obj(v.into_iter().map(|(k, j)| (k.to_string(), j)).collect())
}

fn texts(v: &[&str]) -> Vec<String> {
    v.iter().map(|t| t.to_string()).collect()
}

fn field(j: &Json, key: &str) -> Option<String> {
    j.get(key).and_then(|v| v.as_str().map(String::from))
}

#[test]
fn settings_switch_alerts_off() {
    assert!(is_enabled(None));
    assert!(is_enabled(Some("1")));
    assert!(is_enabled(Some("No")));
    assert!(!is_enabled(Some("0")));
    assert!(!is_enabled(Some("false")));
    assert!(!is_enabled(Some("no")));
}

#[test]
fn an_address_loses_its_last_slashes() {
    assert_eq!(base_address("https://ntfy.sh//"), "https://ntfy.sh");
    assert_eq!(base_address("/a/b"), "/a/b");
    assert_eq!(base_address("//"), "");
}

#[test]
fn the_topic_comes_from_setting_or_configuration() {
    let config = obj(vec![("topic", s("kept"))]);
    assert_eq!(configured_topic(Some("  mine "), Some(&config)), Some("mine".to_string()));
    assert_eq!(configured_topic(Some("   "), Some(&config)), Some("kept".to_string()));
    assert_eq!(configured_topic(None, Some(&obj(vec![]))), None);
    let t = topic(None, Some(&config));
    assert_eq!(t.text, "kept");
    assert!(!t.generated);
}

#[test]
fn a_topic_is_made_up_where_none_is_set() {
    assert_eq!(topic_from(0xbeef), "warzone-sentinel-beef");
    assert_eq!(topic_from(0), "warzone-sentinel-0");
    assert_eq!(topic_from(u32::MAX), "warzone-sentinel-ffffffff");
    let made: Vec<String> = (0..4)
        .map(|_| {
            let t = topic(None, None);
            assert!(t.generated);
            let digits = t.text.strip_prefix("warzone-sentinel-").unwrap().to_string();
            assert!(digits.len() <= 8 && digits.chars().all(|c| c.is_ascii_hexdigit()));
            digits
        })
        .collect();
    assert!(made.iter().any(|d| d != &made[0]));
    assert_eq!(subscribe_url("https://ntfy.sh", "x"), "https://ntfy.sh/x");
}

#[test]
fn the_status_names_the_address_only_while_push_is_on() {
    let on = alert_status(true, "u".to_string(), false);
    assert!(on.phone_push && !on.xbox_live);
    assert_eq!(on.phone_subscribe_url, Some("u".to_string()));
    assert_eq!(alert_status(false, "u".to_string(), true).phone_subscribe_url, None);
}

#[test]
fn headers_hold_ascii_only() {
    assert_eq!(header_safe("Warzone — A–B é!"), "Warzone - A-B !");
    let long = "x".repeat(250);
    assert_eq!(push_title(&long).len(), 200);
    assert_eq!(push_title("short"), "short");
}

#[test]
fn alerts_are_told_apart_by_band() {
    assert_eq!(coalesce_key("in-match", 750_000, "HIGH"), "in-match:high:HIGH");
    assert_eq!(coalesce_key("in-match", 749_999, "HIGH"), "in-match:med:HIGH");
    assert_eq!(coalesce_key("idle", 449_999, "LOW"), "idle:low:LOW");
}

#[test]
fn the_same_alert_is_held_back_for_two_minutes() {
    let mut g = AlertGate::new();
    let t0 = 1_000 * SECOND;
    assert!(!g.holds_back("k", false, t0));
    assert!(!g.sent("k", false, false, t0));
    assert!(!g.holds_back("k", false, t0));
    assert!(g.sent("k", true, false, t0));
    assert!(g.holds_back("k", false, t0 + 120 * SECOND - 1));
    assert!(!g.holds_back("k", true, t0));
    assert!(!g.holds_back("other", false, t0));
    assert!(!g.holds_back("k", false, t0 + 120 * SECOND));
}

#[test]
fn the_console_has_a_cooldown() {
    let mut g = AlertGate::new();
    let t0 = 500 * SECOND;
    assert!(g.xbox_due(false, t0, 120 * SECOND));
    g.xbox_sent(t0);
    assert!(!g.xbox_due(false, t0 + 119 * SECOND, 120 * SECOND));
    assert!(g.xbox_due(true, t0, 120 * SECOND));
    assert!(g.xbox_due(false, t0 + 120 * SECOND, 120 * SECOND));
}

#[test]
fn a_push_says_the_verdict_and_its_reasons() {
    let lobby = obj(vec![
        ("label", s("LIKELY")),
        ("confidence", Json::UInt(83)),
        ("reasons", Json::Arr(vec![s("a"), Json::Null, s("b"), s("c")])),
    ]);
    let p = session_push(&lobby, &texts(&["x"]), "Leave");
    assert_eq!(p.title, "Warzone — CHEATER LOBBY");
    assert_eq!(p.body, "Yes — likely cheater lobby (83% confidence)\na\nb\nLeave");
    let q = session_push(&obj(vec![]), &texts(&["1", "2", "3", "4"]), "Stay");
    assert_eq!(q.title, "Warzone — CLEAN LOBBY");
    assert_eq!(q.body, "No — telemetry looks like a normal lobby\n1\n2\n3\nStay");
}

#[test]
fn texts_are_cut_at_characters() {
    assert_eq!(truncate_utf8("hello", 5), "hello");
    assert_eq!(truncate_utf8("hello!", 5), "he...");
    assert_eq!(truncate_utf8("aé—b", 6), "aé...");
    assert_eq!(truncate_utf8("é—𝄞", 9), "é—𝄞");
    assert_eq!(truncate_utf8("é—𝄞", 8), "é—...");
    assert_eq!(truncate_utf8("abcd", 2), "...");
}

#[test]
fn a_message_to_the_console_fits() {
    let m = console_message("HIGH", 75_400_000, "in-match", "Warzone", "Leave", &texts(&["a"]));
    assert_eq!(m, "Warzone Sentinel — HIGH\nLeave\nIntegrity 75% · in-match · Warzone\na");
    let long = texts(&["—".repeat(200).as_str()]);
    let cut = console_message("HIGH", 0, "idle", "Warzone", "Leave", &long);
    assert!(cut.len() <= 256 && cut.len() > 250);
    assert!(cut.ends_with("..."));
}

#[test]
fn the_sign_in_address_is_encoded() {
    assert_eq!(
        xbox_authorize_url("id 1", "https://a.b/c?d=e&f", "x.y z~é"),
        "https://login.live.com/oauth20_authorize.srf?client_id=id%201&response_type=code\
         &redirect_uri=https%3A%2F%2Fa.b%2Fc%3Fd%3De%26f&scope=x.y%20z~%C3%A9&state=wzsentinel"
    );
}

#[test]
fn tokens_are_asked_for_by_forms() {
    let pairs = |v: Vec<(&str, &str)>| -> Vec<(String, String)> {
        v.into_iter().map(|(k, x)| (k.to_string(), x.to_string())).collect()
    };
    assert_eq!(
        code_form("id 1", "M.R&1", "https://a.b/c"),
        pairs(vec![
            ("client_id", "id 1"),
            ("grant_type", "authorization_code"),
            ("code", "M.R&1"),
            ("redirect_uri", "https://a.b/c"),
        ])
    );
    assert_eq!(
        refresh_form("id", "a=b", "x"),
        pairs(vec![
            ("client_id", "id"),
            ("grant_type", "refresh_token"),
            ("refresh_token", "a=b"),
            ("redirect_uri", "x"),
        ])
    );
}

#[test]
fn a_code_is_found_in_the_redirect() {
    let ok = |u: &str| extract_auth_code(u).unwrap();
    assert_eq!(ok(" https://a.b/c?x=1&code=M%20R.1 "), "M R.1");
    assert_eq!(ok("https://a.b/c#state=1&code=F.2"), "F.2");
    assert_eq!(ok("https://a.b/c?code=Q#code=F"), "Q");
    assert_eq!(
        extract_auth_code("https://a.b/c?x=1"),
        Err("No authorization code in redirect URL".to_string())
    );
    assert_eq!(extract_auth_code("nonsense"), Err("relative URL without a base".to_string()));
}

#[test]
fn the_first_code_of_a_query_counts() {
    let pairs = vec![
        ("a".to_string(), "0".to_string()),
        ("code".to_string(), "1".to_string()),
        ("code".to_string(), "2".to_string()),
    ];
    assert_eq!(auth_code_in(Ok(pairs), "u#code=3"), Ok("1".to_string()));
    assert_eq!(auth_code_in(Ok(vec![]), "u#x&code=3#code=4"), Ok("3".to_string()));
    assert_eq!(auth_code_in(Err("bad".to_string()), "u#code=3"), Err("bad".to_string()));
}

#[test]
fn tokens_are_stored_and_renewed() {
    let resp = obj(vec![("refresh_token", s("r")), ("access_token", s("a"))]);
    let store = exchanged_store(&resp, Json::UInt(7)).unwrap();
    assert_eq!(field(&store, "refresh_token"), Some("r".to_string()));
    assert!(xbox_configured(Some(&store)));
    assert!(!xbox_configured(None));
    assert!(matches!(exchanged_store(&obj(vec![]), Json::Null), Err(e) if e == "no refresh_token"));
    let next = renewed_store(store, &obj(vec![("access_token", s("b"))]), Json::UInt(9));
    assert_eq!(field(&next, "refresh_token"), Some("r".to_string()));
    assert_eq!(field(&next, "access_token"), Some("b".to_string()));
    let known = store_with_user(&next, "42").unwrap();
    assert_eq!(field(&known, "xuid"), Some("42".to_string()));
    assert!(store_with_user(&known, "43").is_none());
    assert_eq!(required_text(&next, "Token", "no user token"), Err("no user token".to_string()));
}

#[test]
fn an_authorization_says_who_the_user_is() {
    let xsts = |claim: Json| {
        obj(vec![("DisplayClaims", obj(vec![("xui", Json::Arr(vec![claim]))]))])
    };
    let id = identity_of(&xsts(obj(vec![("uhs", s("h")), ("xid", s("1"))]))).unwrap();
    assert_eq!((id.uhs.as_str(), id.xuid.as_str()), ("h", "1"));
    let id = identity_of(&xsts(obj(vec![("uhs", s("h")), ("xuid", s("2"))]))).unwrap();
    assert_eq!(id.xuid, "2");
    let err = |j: Json| identity_of(&j).err().unwrap();
    assert_eq!(err(obj(vec![])), "no xui claims");
    assert_eq!(err(xsts(obj(vec![]))), "no uhs");
    assert_eq!(err(xsts(obj(vec![("uhs", s("h"))]))), "no xuid");
    assert_eq!(message_authorization("h", "t"), "XBL3.0 x=h;t");
    assert!(message_url("5").ends_with("/users/xuid(5)"));
}
