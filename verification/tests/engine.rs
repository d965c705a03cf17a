use bifrost_gate::engine::force_mock_from;
use bifrost_gate::engine::topology_from_swanctl;
use bifrost_gate::engine::{
    build_topology_from_strongswan, detect_status_changes, extract_remote_ip,
    generate_mock_topology, map_ike_state_to_status, parse_active_sas,
    parse_configured_connections, sanitize_id, ActiveSa, ConnInfo,
};
use bifrost_gate::models::{BifrostTopology, NodeType, VpnEdge, VpnStatus};

#[test]
fn test_alert_on_status_drop() {
    let node_a = "A".to_string();
    let node_b = "B".to_string();

    let old_topo = BifrostTopology {
        nodes: vec![],
        edges: vec![VpnEdge { from_node: node_a.clone(), to_node: node_b.clone(), status: VpnStatus::Up }],
    };

    let new_topo = BifrostTopology {
        nodes: vec![],
        edges: vec![VpnEdge { from_node: node_a, to_node: node_b, status: VpnStatus::Down }],
    };

    let alerts = detect_status_changes(&old_topo, &new_topo);
    assert_eq!(alerts.len(), 1);
    assert!(alerts[0].contains("perdido"));
}

#[test]
fn test_parse_active_sas_and_remote_ip() {
    let input = "connA: #1, ESTABLISHED, IKEv2, 1234abcd\n  local  'gw' @ 10.0.0.1[4500]\n  remote 'peer' @ 203.0.113.10[4500]\n";
    let parsed = parse_active_sas(input);
    assert_eq!(parsed.len(), 1);
    assert_eq!(parsed[0].name, "connA");
    assert_eq!(parsed[0].state, "ESTABLISHED");
    assert_eq!(parsed[0].remote_addr.as_deref(), Some("203.0.113.10"));
}

#[test]
fn test_parse_configured_connections() {
    let input = "connA: IKEv2\n  local:  10.0.0.1\n  remote: 203.0.113.10\nconnB:\n  remote: 198.51.100.5\n";
    let parsed = parse_configured_connections(input);
    assert_eq!(parsed.len(), 2);
    assert_eq!(parsed[0].name, "connA");
    assert_eq!(parsed[0].remote_hint.as_deref(), Some("203.0.113.10"));
    assert_eq!(parsed[1].name, "connB");
    assert_eq!(parsed[1].remote_hint.as_deref(), Some("198.51.100.5"));
}

#[test]
fn alert_text_names_both_ends() {
    let old_topo = BifrostTopology {
        nodes: vec![],
        edges: vec![VpnEdge { from_node: "gw".to_string(), to_node: "peer-x".to_string(), status: VpnStatus::Up }],
    };
    let new_topo = BifrostTopology {
        nodes: vec![],
        edges: vec![VpnEdge { from_node: "gw".to_string(), to_node: "peer-x".to_string(), status: VpnStatus::Down }],
    };
    let alerts = detect_status_changes(&old_topo, &new_topo);
    assert_eq!(alerts, vec!["ALERTA CRÍTICA: La conexión de 'gw' a 'peer-x' se ha perdido.".to_string()]);
}

#[test]
fn no_alert_for_other_transitions() {
    let mk = |s: VpnStatus| BifrostTopology {
        nodes: vec![],
        edges: vec![VpnEdge { from_node: "a".to_string(), to_node: "b".to_string(), status: s }],
    };
    assert!(detect_status_changes(&mk(VpnStatus::Connecting), &mk(VpnStatus::Down)).is_empty());
    assert!(detect_status_changes(&mk(VpnStatus::Up), &mk(VpnStatus::Connecting)).is_empty());
    assert!(detect_status_changes(&mk(VpnStatus::Up), &mk(VpnStatus::Up)).is_empty());
    let empty = BifrostTopology { nodes: vec![], edges: vec![] };
    assert!(detect_status_changes(&empty, &mk(VpnStatus::Down)).is_empty());
}

#[test]
fn comparing_a_topology_with_itself_raises_nothing() {
    let t = generate_mock_topology();
    assert!(detect_status_changes(&t, &t).is_empty());
}

#[test]
fn ike_states_map_to_status() {
    assert_eq!(map_ike_state_to_status("ESTABLISHED"), VpnStatus::Up);
    assert_eq!(map_ike_state_to_status("INSTALLED"), VpnStatus::Up);
    assert_eq!(map_ike_state_to_status("REKEYED"), VpnStatus::Up);
    assert_eq!(map_ike_state_to_status("CONNECTING"), VpnStatus::Connecting);
    assert_eq!(map_ike_state_to_status("CONNECTING_CHILD"), VpnStatus::Connecting);
    assert_eq!(map_ike_state_to_status("REKEYING"), VpnStatus::Connecting);
    assert_eq!(map_ike_state_to_status("DELETING"), VpnStatus::Down);
    assert_eq!(map_ike_state_to_status("established"), VpnStatus::Down);
}

#[test]
fn ids_keep_only_ascii_alphanumerics() {
    assert_eq!(sanitize_id("site A/b_2"), "site-A-b-2");
    assert_eq!(sanitize_id("méx"), "m-x");
    assert_eq!(sanitize_id(""), "");
}

#[test]
fn remote_ip_extraction() {
    assert_eq!(extract_remote_ip("remote 'peer' @ 203.0.113.10[4500]").as_deref(), Some("203.0.113.10"));
    assert_eq!(extract_remote_ip("remote 'peer' @ 198.51.100.1").as_deref(), Some("198.51.100.1"));
    assert_eq!(extract_remote_ip("remote 'peer' @ [4500]"), None);
    assert_eq!(extract_remote_ip("remote 'peer' 1.2.3.4"), None);
}

#[test]
fn sa_header_without_state_is_unknown() {
    let parsed = parse_active_sas("connX: #7\n");
    assert_eq!(parsed.len(), 1);
    assert_eq!(parsed[0].state, "UNKNOWN");
    assert_eq!(parsed[0].remote_addr, None);
}

#[test]
fn topology_from_strongswan() {
    let configured = vec![
        ConnInfo { name: "connA".to_string(), remote_hint: Some("203.0.113.10".to_string()) },
        ConnInfo { name: "conn B".to_string(), remote_hint: None },
    ];
    let active = vec![
        ActiveSa { name: "connA".to_string(), state: "ESTABLISHED".to_string(), remote_addr: Some("203.0.113.99".to_string()) },
        ActiveSa { name: "extra".to_string(), state: "CONNECTING".to_string(), remote_addr: None },
    ];
    let t = build_topology_from_strongswan(configured, active);
    assert_eq!(t.nodes.len(), 4);
    assert_eq!(t.edges.len(), 3);
    assert_eq!(t.nodes[0].id, "gateway-root");
    assert_eq!(t.nodes[0].node_type, NodeType::Gateway);
    assert_eq!(t.nodes[1].id, "peer-connA");
    assert_eq!(t.nodes[1].address.as_deref(), Some("203.0.113.99"));
    assert_eq!(t.nodes[2].id, "peer-conn-B");
    assert_eq!(t.nodes[2].address, None);
    assert_eq!(t.nodes[3].name, "extra");
    assert_eq!(t.edges[0].status, VpnStatus::Up);
    assert_eq!(t.edges[1].status, VpnStatus::Down);
    assert_eq!(t.edges[2].status, VpnStatus::Connecting);
    assert_eq!(t.edges[2].from_node, "gateway-root");
    assert_eq!(t.edges[2].to_node, "peer-extra");
}

#[test]
fn mock_topology_shape() {
    let t = generate_mock_topology();
    assert_eq!(t.nodes.len(), 3);
    assert_eq!(t.edges.len(), 2);
    assert_eq!(t.edges[1].status, VpnStatus::Connecting);
}

#[test]
fn forcing_the_mock_topology() {
    assert!(force_mock_from(Some(" TRUE ")));
    assert!(force_mock_from(Some("1")));
    assert!(force_mock_from(Some("on")));
    assert!(!force_mock_from(Some("no")));
    assert!(!force_mock_from(None));
}

#[test]
fn topology_from_swanctl_output() {
    let conns = "connA: IKEv2\n  remote: 203.0.113.10\n";
    let sas = "connA: #1, ESTABLISHED, IKEv2, x\n  remote 'p' @ 203.0.113.10[4500]\n";
    let t = topology_from_swanctl(conns, sas);
    assert_eq!(t.nodes.len(), 2);
    assert_eq!(t.edges.len(), 1);
    assert_eq!(t.edges[0].from_node, t.nodes[0].id);
    assert_eq!(t.edges[0].to_node, t.nodes[1].id);
    assert_eq!(t.edges[0].status, VpnStatus::Up);
}
