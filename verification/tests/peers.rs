use bifrost_gate::peers::{
    all_peer_statuses, configured_peer_names, down_status, peer_names_from_managed, peer_status_from_output,
};
use bifrost_gate::peers::{
    build_peer_status_response, filter_rules_for_peer, is_sa_active_state,
    parse_active_for_seconds, parse_child_sa_line, parse_compact_duration_seconds,
    parse_counter_value, parse_ike_header_line, parse_peer_runtime_statuses,
};
use bifrost_gate::types::{ChildRuntimeStatus, FirewallRulesSnapshot, PeerRuntimeStatus};

#[test]
fn parse_child_sa_legacy_format_sets_phase2_installed() {
    let output = [
        "peer-mock: #1, ESTABLISHED, IKEv2, local_i remote_r\n",
        "  local  'local-mock-id' @ 192.0.2.10[4500]\n",
        "  remote 'remote-mock-id' @ 198.51.100.20[4500]\n",
        "  peer-mock{1}: INSTALLED, TUNNEL, reqid 1, ESP:AES_CBC-256/HMAC_SHA2_256_128\n",
        "    installed 21s ago, rekeying in 2522s, expires in 3579s\n",
        "    in  c58297e7,      0 bytes,     0 packets\n",
        "    out c081bcb2,      0 bytes,     0 packets\n",
    ]
    .concat();

    let peers = parse_peer_runtime_statuses(&output);
    let peer = peers
        .into_iter()
        .find(|p| p.peer_name == "peer-mock" && !p.child_sas.is_empty())
        .expect("peer esperado con child sa");

    let response = build_peer_status_response(peer, &FirewallRulesSnapshot::default());
    assert_eq!(response.phase2.state, "INSTALLED");
    assert!(response.phase2.active);
}

#[test]
fn parse_child_sa_modern_format_sets_phase2_installed() {
    let output = [
        "peer-mock: #1, ESTABLISHED, IKEv2, local_i remote_r\n",
        "  local  'local-mock-id' @ 192.0.2.10[4500]\n",
        "  remote 'remote-mock-id' @ 198.51.100.20[4500]\n",
        "  peer-mock: #3, reqid 1, INSTALLED, TUNNEL-in-UDP, ESP:AES_CBC-256/HMAC_SHA2_256_128\n",
        "    installed 1215s ago, rekeying in 1755s, expires in 2385s\n",
        "    in  ccb5f1ef,  60352 bytes,   196 packets,     9s ago\n",
        "    out cf529813,  25312 bytes,   316 packets,     9s ago\n",
    ]
    .concat();

    let peers = parse_peer_runtime_statuses(&output);
    let peer = peers
        .into_iter()
        .find(|p| p.peer_name == "peer-mock" && !p.child_sas.is_empty())
        .expect("peer esperado con child sa");

    let response = build_peer_status_response(peer, &FirewallRulesSnapshot::default());
    assert_eq!(response.phase2.state, "INSTALLED");
    assert!(response.phase2.active);
}

#[test]
fn header_line_splits_name_and_state() {
    assert_eq!(
        parse_ike_header_line("peer-mock: #1, ESTABLISHED, IKEv2"),
        ("peer-mock".to_string(), "ESTABLISHED".to_string())
    );
    assert_eq!(parse_ike_header_line("lonely"), ("lonely".to_string(), "UNKNOWN".to_string()));
}

#[test]
fn child_lines_of_other_peers_are_ignored() {
    assert!(parse_child_sa_line("other{1}: INSTALLED, TUNNEL", "peer").is_none());
    assert!(parse_child_sa_line("peer: #3, INSTALLED", "peer").is_none());
    let c = parse_child_sa_line("peer: #3, reqid 1, REKEYING, TUNNEL", "peer").unwrap();
    assert_eq!(c.state, "REKEYING");
    assert!(!c.active);
    assert_eq!(c.name, "peer");
}

#[test]
fn durations_and_counters() {
    assert_eq!(parse_compact_duration_seconds("21s"), Some(21));
    assert_eq!(parse_compact_duration_seconds("2H"), Some(7200));
    assert_eq!(parse_compact_duration_seconds("3d"), Some(259200));
    assert_eq!(parse_compact_duration_seconds("5x"), None);
    assert_eq!(parse_compact_duration_seconds("s"), None);
    assert_eq!(parse_compact_duration_seconds("99999999999999999999s"), None);
    assert_eq!(parse_compact_duration_seconds("18446744073709551615d"), Some(u64::MAX));
    assert_eq!(parse_active_for_seconds("installed 1215s ago, rekeying in 1755s"), Some(1215));
    assert_eq!(parse_active_for_seconds("established 5 minutes ago"), Some(300));
    assert_eq!(parse_active_for_seconds("nothing here"), None);
    assert_eq!(parse_counter_value("in  ccb5f1ef,  60352 bytes,   196 packets_i,  9s ago", "packets_i"), 196);
    assert_eq!(parse_counter_value("no counters", "packets_i"), 0);
}

#[test]
fn active_states() {
    assert!(is_sa_active_state("ESTABLISHED"));
    assert!(is_sa_active_state("INSTALLED"));
    assert!(is_sa_active_state("REKEYED"));
    assert!(!is_sa_active_state("CONNECTING"));
}

#[test]
fn phase2_sums_children_and_keeps_longest_duration() {
    let child = |state: &str, active: bool, secs: Option<u64>, pin: u64| ChildRuntimeStatus {
        name: "p{1}".to_string(),
        state: state.to_string(),
        active,
        active_for_seconds: secs,
        packets_in: pin,
        packets_out: 1,
    };
    let runtime = PeerRuntimeStatus {
        peer_name: "Peer".to_string(),
        phase1_state: "ESTABLISHED".to_string(),
        phase1_active: true,
        phase1_active_for_seconds: Some(10),
        phase1_packets_in: 5,
        phase1_packets_out: 6,
        child_sas: vec![
            child("REKEYING", false, Some(5), u64::MAX),
            child("INSTALLED", true, Some(9), 3),
            child("DELETING", false, None, 0),
        ],
    };
    let snapshot = FirewallRulesSnapshot {
        firewall: vec!["rule for PEER".to_string(), "other".to_string()],
        filter: vec![],
        nat: vec!["-A peer".to_string()],
    };
    let r = build_peer_status_response(runtime, &snapshot);
    assert_eq!(r.phase1.packets_in, 5);
    assert_eq!(r.phase2.state, "INSTALLED");
    assert!(r.phase2.active);
    assert_eq!(r.phase2.packets_in, u64::MAX);
    assert_eq!(r.phase2.packets_out, 3);
    assert_eq!(r.phase2.active_for_seconds, Some(9));
    assert_eq!(r.child_sas.len(), 3);
    assert_eq!(r.firewall_rules.firewall, vec!["rule for PEER".to_string()]);
    assert_eq!(r.firewall_rules.nat, vec!["-A peer".to_string()]);
    assert!(r.firewall_rules.filter.is_empty());
}

#[test]
fn phase2_down_takes_first_child_state() {
    let runtime = PeerRuntimeStatus {
        peer_name: "x".to_string(),
        phase1_state: "CONNECTING".to_string(),
        phase1_active: false,
        phase1_active_for_seconds: None,
        phase1_packets_in: 0,
        phase1_packets_out: 0,
        child_sas: vec![],
    };
    let r = build_peer_status_response(runtime, &FirewallRulesSnapshot::default());
    assert_eq!(r.phase2.state, "DOWN");
    assert!(!r.phase2.active);
    let rules = filter_rules_for_peer(&FirewallRulesSnapshot::default(), "x");
    assert!(rules.firewall.is_empty());
}

#[test]
fn status_of_one_peer() {
    let down = peer_status_from_output("p", Some(1), "", "IKE_SA p NOT FOUND").unwrap();
    assert_eq!(down.phase1_state, "DOWN");
    assert!(!down.phase1_active);
    assert_eq!(peer_status_from_output("p", Some(1), "", "").unwrap_err(), "swanctl --list-sas --ike p fallo sin detalle");
    assert_eq!(peer_status_from_output("p", None, "x", "boom").unwrap_err(), "boom");
    let out = "p: #1, ESTABLISHED, IKEv2, a b\n  local 'x' @ 1.1.1.1[4500]\n";
    let st = peer_status_from_output("p", Some(0), out, "").unwrap();
    assert_eq!(st.phase1_state, "ESTABLISHED");
    assert!(st.phase1_active);
    let other = peer_status_from_output("q", Some(0), out, "").unwrap();
    assert_eq!(other.peer_name, "q");
    assert_eq!(other.phase1_state, down_status("q").phase1_state);
}

#[test]
fn names_of_configured_peers() {
    let out = "zeta: IKEv2, no reauthentication\n  local: %any\nalpha: IKEv1\n  remote: 1.2.3.4\nzeta: IKEv2\n\t tab: x\n: nameless\n";
    assert_eq!(configured_peer_names(out), vec!["alpha", "zeta"]);
    let managed = vec!["b".to_string(), "secret-x".to_string(), "a".to_string(), "b".to_string()];
    assert_eq!(peer_names_from_managed(&managed), vec!["a", "b"]);
}

#[test]
fn every_peer_sorted_by_name() {
    let mut b = down_status("b");
    b.phase1_state = "ESTABLISHED".to_string();
    let mut b2 = down_status("b");
    b2.phase1_state = "CONNECTING".to_string();
    let parsed = vec![b, down_status("d"), b2];
    let configured = vec!["c".to_string(), "b".to_string(), "a".to_string(), "c".to_string()];
    let all = all_peer_statuses(parsed, &configured);
    let names: Vec<&str> = all.iter().map(|p| p.peer_name.as_str()).collect();
    assert_eq!(names, vec!["a", "b", "b", "c", "d"]);
    assert_eq!(all[1].phase1_state, "ESTABLISHED");
    assert_eq!(all[2].phase1_state, "CONNECTING");
}
