use warzone_sentinel::counts::Tally;
use warzone_sentinel::enrich::{
    classify_cidr, classify_endpoint, classify_endpoint_with_port, classify_host,
    classify_inbound_endpoint, confirm_player_peer_from_probe_signals, enrich_snapshot, extract_ip,
    inbound_display_label, infer_phase, ip_in_cidr, is_infrastructure, is_private_ip, parse_ipv4,
    phase_code, resolve_inbound_peer_role, role_index, rules_from, should_drop_inbound,
    should_drop_inbound_role, should_show_in_peer_table,
};
use warzone_sentinel::json::Json;
use warzone_sentinel::roles::default_roles;

fn s(t: &str) -> Json {
    Json::Str(t.to_string())
}

fn obj(v: Vec<(&str, Json)>) -> Json {
    Json::Obj(v.into_iter().map(|(k, j)| (k.to_string(), j)).collect())
}

#[test]
fn demonware_ip_is_warzone_game() {
    assert_eq!(classify_endpoint(&default_roles(), "185.34.106.103:3074", ""), "warzone-game");
}

#[test]
fn akamai_ip_is_game_assets() {
    assert_eq!(classify_endpoint(&default_roles(), "23.213.26.152:80", ""), "game-assets");
}

#[test]
fn azure_ip_is_xbox_live() {
    assert_eq!(classify_endpoint(&default_roles(), "20.201.200.56:443", ""), "xbox-live");
}

#[test]
fn azure_on_p2p_port_inbound_stays_xbox_live_not_player() {
    assert_eq!(
        classify_inbound_endpoint(&default_roles(), "20.201.200.56:3074", "", Some(3074), "udp"),
        "xbox-live"
    );
}

#[test]
fn unknown_on_high_port_is_p2p_mesh_not_player() {
    assert_eq!(
        classify_inbound_endpoint(&default_roles(), "203.0.113.51:44998", "", Some(44998), "udp"),
        "p2p-mesh"
    );
}

#[test]
fn idle_home_xbox_live_is_background_not_matchmaking() {
    let mut roles = Tally::new();
    roles.add_n("xbox-live", 8);
    assert_eq!(infer_phase(&roles, true, 45, "unknown"), "background");
}

#[test]
fn xbox_live_inbound_label_not_player_peer() {
    assert_eq!(inbound_display_label("20.201.200.49", "", "xbox-live"), "Xbox Live");
}

#[test]
fn demonware_on_p2p_port_stays_warzone_not_player() {
    assert_eq!(
        classify_inbound_endpoint(&default_roles(), "185.34.106.103:3074", "", Some(3074), "udp"),
        "warzone-game"
    );
}

#[test]
fn vultr_on_high_port_is_p2p_mesh_without_probe_proof() {
    assert_eq!(
        classify_inbound_endpoint(&default_roles(), "66.42.86.93:44998", "", Some(44998), "udp"),
        "p2p-mesh"
    );
}

#[test]
fn vultr_with_probe_signals_becomes_vps_probe() {
    assert_eq!(
        resolve_inbound_peer_role(
            &default_roles(),
            "66.42.86.93",
            "66.42.86.93.vultrusercontent.com",
            "p2p-mesh",
            8,
            0,
            10,
            64,
            64
        ),
        "vps-probe"
    );
}

#[test]
fn unknown_on_game_port_is_dedicated_server() {
    assert_eq!(
        classify_inbound_endpoint(&default_roles(), "203.0.113.51:3074", "", Some(3074), "udp"),
        "dedicated-server"
    );
}

#[test]
fn probe_signals_confirm_player_peer() {
    assert!(confirm_player_peer_from_probe_signals(8, 0, 10, 64, 64));
    assert!(!confirm_player_peer_from_probe_signals(2, 1, 3, 64, 128));
}

#[test]
fn akamai_23_66_is_game_assets() {
    assert_eq!(classify_endpoint(&default_roles(), "23.66.101.238:443", ""), "game-assets");
}

#[test]
fn msft_4_x_is_xbox_live() {
    assert_eq!(classify_endpoint(&default_roles(), "4.155.94.229:443", ""), "xbox-live");
}

#[test]
fn gateway_is_lan_not_unknown() {
    assert_eq!(classify_endpoint(&default_roles(), "192.0.2.1:52322", ""), "lan-gateway");
}

#[test]
fn vultr_udp_high_port_is_p2p_mesh() {
    assert_eq!(
        classify_endpoint_with_port(&default_roles(), "66.42.86.93:44998", "", Some(44998), "udp"),
        "p2p-mesh"
    );
}

#[test]
fn host_names_are_matched_in_lower_case() {
    assert_eq!(classify_host(&default_roles(), "US-East.DEMONWARE.net"), "warzone-game");
    assert_eq!(classify_host(&default_roles(), "example.org"), "unknown");
}

#[test]
fn addresses_are_taken_apart() {
    assert_eq!(extract_ip("1.2.3.4:80"), "1.2.3.4");
    assert_eq!(extract_ip("1.2.3.4"), "1.2.3.4");
    assert_eq!(parse_ipv4("1.2.3.4"), Some(0x0102_0304));
    assert_eq!(parse_ipv4("1.2.3"), None);
    assert_eq!(parse_ipv4("1.2.3.256"), None);
    assert!(ip_in_cidr("185.34.107.255", "185.34.104.0/22"));
    assert!(!ip_in_cidr("185.34.108.0", "185.34.104.0/22"));
    assert!(is_private_ip("192.168.1.1"));
    assert!(!is_private_ip("8.8.8.8"));
    assert_eq!(classify_cidr(&default_roles(), "20.201.0.1"), Some("xbox-live".to_string()));
    assert_eq!(classify_cidr(&default_roles(), "20.202.0.1"), None);
}

#[test]
fn a_probe_host_needs_proof_and_a_provider() {
    let rules = default_roles();
    let role = |ip: &str, base: &str, same: u32| {
        resolve_inbound_peer_role(&rules, ip, "", base, same, 0, 10, 64, 64)
    };
    assert_eq!(role("66.42.86.93", "p2p-mesh", 5), "p2p-mesh");
    assert_eq!(role("203.0.113.51", "p2p-mesh", 8), "p2p-mesh");
    assert_eq!(role("66.42.86.93", "vps-probe", 5), "p2p-mesh");
    assert_eq!(role("66.42.86.93", "xbox-live", 8), "xbox-live");
}

#[test]
fn a_match_lets_only_allowed_roles_through() {
    assert!(!should_drop_inbound_role("warzone-game", "in-match"));
    assert!(should_drop_inbound_role("game-assets", "in-match"));
    assert!(!should_drop_inbound_role("game-assets", "matchmaking"));
    assert!(should_drop_inbound_role("p2p-mesh", "idle"));
    assert!(should_drop_inbound("warzone-game", Some(44998), "udp", "idle"));
    assert!(!should_drop_inbound("warzone-game", Some(443), "tcp", "in-match"));
}

#[test]
fn the_table_shows_no_infrastructure() {
    assert!(is_infrastructure("telemetry"));
    assert!(!should_show_in_peer_table("telemetry", "matchmaking"));
    assert!(should_show_in_peer_table("vps-probe", "in-match"));
    assert!(should_show_in_peer_table("unknown", "matchmaking"));
    assert!(!should_show_in_peer_table("unknown", "in-match"));
}

#[test]
fn roles_and_phases_have_numbers() {
    assert_eq!(phase_code("matchmaking"), 2);
    assert_eq!(phase_code("in-match"), 3);
    assert_ne!(role_index("warzone-game"), role_index("xbox-live"));
}

#[test]
fn rules_are_read_from_a_document() {
    let doc = obj(vec![(
        "rules",
        Json::Arr(vec![
            obj(vec![
                ("id", s("matchmaking")),
                ("match", Json::Arr(vec![s("PlayFab"), Json::Null])),
                ("cidrs", Json::Arr(vec![s("198.51.100.0/24")])),
            ]),
            obj(vec![("id", s("left-out"))]),
        ]),
    )]);
    let rules = rules_from(&doc);
    assert_eq!(rules.len(), 1);
    assert_eq!(rules[0].id, "matchmaking");
    assert_eq!(rules[0].match_patterns, vec!["playfab".to_string()]);
    assert_eq!(classify_host(&rules, "eu.playfab.com"), "matchmaking");
    assert_eq!(classify_endpoint(&rules, "198.51.100.7:1", ""), "matchmaking");
}

#[test]
fn a_snapshot_is_enriched() {
    let snap = obj(vec![
        ("xbox", obj(vec![("online", Json::Bool(true))])),
        ("connections", obj(vec![("count", Json::UInt(45))])),
    ]);
    let out = enrich_snapshot(&default_roles(), snap);
    let phase = out.get_in("_enriched", "phase").and_then(|v| v.as_str().map(String::from));
    assert!(phase.is_some());
}
