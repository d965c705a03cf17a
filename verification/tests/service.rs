use bifrost_gate::access::{bootstrap_key_is_weak, docs_forbidden_body, docs_request_allowed};
use bifrost_gate::access::{
    api_key_gate, api_key_refusal_body, docs_credentials, docs_refusal_body, find_api_key, health_message,
    health_status, verdict_after_lookup, worker_is_alive, AccessVerdict, ApiKeyGate, DocsRefusal,
};
use bifrost_gate::commands::{finish_command, truncate_to_bytes, ExecConfig, ExecError};
use bifrost_gate::control::{
    peer_action_name, peer_control_start, peer_control_step, peer_reply_message, strongswan_unit_candidates,
    systemctl_reply, unit_is_loaded, unit_missing_reply, CommandOutcome, PeerAction, PeerStage, SystemctlOutcome,
};
use bifrost_gate::i18n::{
    lookup_language, message_from_lookup, normalize_language_tag, resolve_requested_language, CODE_INTERNAL_ERROR,
    CODE_OK, CODE_PEER_CHILD_FAILED, CODE_PEER_IKE_FAILED, CODE_PEER_NAME_REQUIRED, CODE_PEER_PHASE_INVALID,
};
use bifrost_gate::store::{credentials_match, db_path_from, hash_password};

fn run_args(a: &PeerAction) -> (u64, Vec<String>) {
    match a {
        PeerAction::Run(r) => {
            assert_eq!(r.timeout_secs, 20);
            (r.pause_ms, r.args.clone())
        }
        PeerAction::Reply(_) => panic!("expected a run"),
    }
}

fn reply(a: &PeerAction) -> (u16, i64, bool, Option<String>) {
    match a {
        PeerAction::Reply(r) => (r.status, r.code, r.success, r.detail.clone()),
        PeerAction::Run(_) => panic!("expected a reply"),
    }
}

#[test]
fn language_tags() {
    assert_eq!(normalize_language_tag("es-GT,es;q=0.9"), "es");
    assert_eq!(normalize_language_tag("  FR "), "fr");
    assert_eq!(normalize_language_tag(""), "en");
    assert_eq!(normalize_language_tag(",es"), "en");
    assert_eq!(normalize_language_tag("pt;q=1"), "pt");
    assert_eq!(resolve_requested_language(None, Some("de-DE")), "de");
    assert_eq!(resolve_requested_language(Some("pt"), Some("de")), "pt");
    assert_eq!(resolve_requested_language(None, None), "en");
    assert_eq!(lookup_language(None), "en");
    assert_eq!(message_from_lookup(None), "General Error");
    assert_eq!(message_from_lookup(Some("Hola".to_string())), "Hola");
}

#[test]
fn normalizing_twice_changes_nothing() {
    for tag in ["es-GT,es;q=0.9", "  FR ", "", "x y-z"] {
        let once = normalize_language_tag(tag);
        assert_eq!(normalize_language_tag(&once), once);
    }
}

#[test]
fn output_truncation() {
    assert_eq!(truncate_to_bytes("hello", 3), "hel…[truncado]");
    assert_eq!(truncate_to_bytes("héllo", 2), "h…[truncado]");
    assert_eq!(truncate_to_bytes("abc", 3), "abc");
    assert_eq!(truncate_to_bytes("", 0), "");
    let cfg = ExecConfig::default();
    assert_eq!(cfg.default_timeout_secs, 15);
    assert_eq!(cfg.max_output_bytes, 65536);
}

#[test]
fn finished_runs() {
    let small = ExecConfig { default_timeout_secs: 1, max_output_bytes: 4 };
    match finish_command(&small, "swanctl", Some(0), "  ok  ", "") {
        Err(ExecError::OutputTooLarge { program }) => assert_eq!(program, "swanctl"),
        other => panic!("unexpected {:?}", other),
    }
    let out = finish_command(&ExecConfig::default(), "swanctl", Some(1), " out \n", "\terr ").unwrap();
    assert_eq!(out.status_code, Some(1));
    assert_eq!(out.stdout, "out");
    assert_eq!(out.stderr, "err");
}

#[test]
fn peer_up_runs_ike_then_child() {
    let (ctl, a) = peer_control_start("  p1 ", true, None);
    assert_eq!(ctl.peer_name, "p1");
    assert_eq!(ctl.stage, PeerStage::Ike);
    assert_eq!(run_args(&a), (0, vec!["--initiate".to_string(), "--ike".to_string(), "p1".to_string()]));
    let (ctl, a) = peer_control_step(&ctl, CommandOutcome::Exited { status_code: Some(0), stderr: String::new() });
    assert_eq!(ctl.stage, PeerStage::Child);
    assert_eq!(run_args(&a), (500, vec!["--initiate".to_string(), "--child".to_string(), "p1".to_string()]));
    let (ctl, a) = peer_control_step(&ctl, CommandOutcome::Exited { status_code: Some(0), stderr: String::new() });
    assert_eq!(ctl.stage, PeerStage::Finished);
    assert_eq!(reply(&a), (200, CODE_OK, true, None));
    assert_eq!(peer_action_name(true), "up");
}

#[test]
fn peer_requests_refused_or_failing() {
    let (_, a) = peer_control_start("   ", true, None);
    assert_eq!(reply(&a), (400, CODE_PEER_NAME_REQUIRED, false, None));
    let (_, a) = peer_control_start("p", false, Some(3));
    assert_eq!(reply(&a), (400, CODE_PEER_PHASE_INVALID, false, None));
    let (ctl, a) = peer_control_start("p", true, Some(1));
    assert_eq!(run_args(&a).1[1], "--ike");
    let (_, a) = peer_control_step(&ctl, CommandOutcome::Exited { status_code: Some(0), stderr: String::new() });
    assert_eq!(reply(&a), (200, CODE_OK, true, None));
    let (ctl, _) = peer_control_start("p", true, None);
    let (_, a) = peer_control_step(&ctl, CommandOutcome::Exited { status_code: Some(2), stderr: "boom".to_string() });
    assert_eq!(reply(&a), (400, CODE_PEER_IKE_FAILED, false, Some("boom".to_string())));
    let (_, a) = peer_control_step(&ctl, CommandOutcome::Failed { error: "Timeout".to_string() });
    assert_eq!(reply(&a), (500, CODE_INTERNAL_ERROR, false, Some("Timeout".to_string())));
}

#[test]
fn peer_down_terminates() {
    let (ctl, a) = peer_control_start("p", false, Some(2));
    assert_eq!(ctl.stage, PeerStage::Down);
    assert_eq!(run_args(&a).1, vec!["--terminate", "--child", "p"]);
    let (_, a) = peer_control_step(&ctl, CommandOutcome::Exited { status_code: None, stderr: String::new() });
    assert_eq!(reply(&a), (400, CODE_PEER_CHILD_FAILED, false, None));
    let (ctl, a) = peer_control_start("p", false, None);
    assert_eq!(run_args(&a).1, vec!["--terminate", "--ike", "p"]);
    let (_, a) = peer_control_step(&ctl, CommandOutcome::Exited { status_code: Some(0), stderr: String::new() });
    assert_eq!(reply(&a), (200, CODE_OK, true, None));
    assert_eq!(peer_reply_message("Base", &Some("x".to_string())), "Base: x");
    assert_eq!(peer_reply_message("Base", &None), "Base");
    assert_eq!(peer_action_name(false), "down");
}

#[test]
fn strongswan_service_control() {
    assert_eq!(strongswan_unit_candidates(), vec!["strongswan", "strongswan-starter", "charon-systemd"]);
    assert!(unit_is_loaded(true, "loaded\n"));
    assert!(!unit_is_loaded(true, " not-found "));
    assert!(!unit_is_loaded(true, "  "));
    assert!(!unit_is_loaded(false, "loaded"));
    let (st, r) = unit_missing_reply("start", None);
    assert_eq!(st, 400);
    assert_eq!(r.service_name, "strongswan");
    assert_eq!(r.message, "No se encontro unidad systemd de StrongSwan (strongswan, strongswan-starter o charon-systemd)");
    let (st, r) = unit_missing_reply("start", Some("io"));
    assert_eq!((st, r.message.as_str()), (500, "Error detectando unidad de StrongSwan: io"));
    let (st, r) = systemctl_reply("restart", "strongswan", SystemctlOutcome::Ran { success: true, stderr: String::new() });
    assert_eq!((st, r.success, r.message.as_str()), (200, true, "Servicio 'strongswan' restart exitosamente"));
    let (st, r) = systemctl_reply("stop", "charon-systemd", SystemctlOutcome::Ran { success: false, stderr: "  \n".to_string() });
    assert_eq!((st, r.message.as_str()), (400, "systemctl devolvio error al ejecutar 'stop charon-systemd'"));
    let (_, r) = systemctl_reply("stop", "u", SystemctlOutcome::Ran { success: false, stderr: " denied ".to_string() });
    assert_eq!(r.message, "denied");
    let (st, r) = systemctl_reply("stop", "u", SystemctlOutcome::Failed { error: "e".to_string() });
    assert_eq!((st, r.message.as_str()), (500, "No se pudo ejecutar systemctl: e"));
}

#[test]
fn heartbeat_health() {
    assert!(!worker_is_alive(0, 100));
    assert!(worker_is_alive(90, 100));
    assert!(!worker_is_alive(60, 100));
    assert!(worker_is_alive(110, 100));
    assert_eq!(health_status(true, true, true), 1);
    assert_eq!(health_status(true, true, false), 2);
    assert_eq!(health_status(false, true, true), 3);
    assert_eq!(health_status(true, false, false), 3);
    assert_eq!(health_message(1), "OK: servicios disponibles");
    assert_eq!(health_message(2), "WARN: algun servicio no responde");
    assert_eq!(health_message(3), "CRITICAL: sin conexion con servicios mayores");
}

#[test]
fn api_keys() {
    let headers = vec![
        ("accept".to_string(), Some("x".to_string())),
        ("X-API-KEY".to_string(), None),
        ("x-api-key".to_string(), Some("k1".to_string())),
        ("x-api-key".to_string(), Some("k2".to_string())),
    ];
    assert_eq!(find_api_key(&headers, "X-Api-Key"), Some("k1".to_string()));
    assert_eq!(find_api_key(&headers, "authorization"), None);
    assert_eq!(api_key_gate(false, None), ApiKeyGate::Proceed);
    assert_eq!(api_key_gate(true, None), ApiKeyGate::MissingKey);
    assert_eq!(api_key_gate(true, Some("k".to_string())), ApiKeyGate::Verify("k".to_string()));
    assert_eq!(verdict_after_lookup(Some(true)), AccessVerdict::Proceed);
    assert_eq!(verdict_after_lookup(Some(false)), AccessVerdict::Unauthorized);
    assert_eq!(verdict_after_lookup(None), AccessVerdict::InternalError);
    assert_eq!(
        api_key_refusal_body(AccessVerdict::Unauthorized),
        "{\"error\":\"unauthorized\",\"message\":\"Missing or invalid API key\"}"
    );
    assert_eq!(docs_refusal_body(AccessVerdict::InternalError), "{\"error\":\"internal_error\",\"message\":\"Docs auth failed\"}");
}

#[test]
fn basic_credentials() {
    assert_eq!(docs_credentials("Basic dXNlcjpwYXNz"), Ok(("user".to_string(), "pass".to_string())));
    assert_eq!(docs_credentials("basic   dXNlcjpwOmFzcw==  "), Ok(("user".to_string(), "p:ass".to_string())));
    assert_eq!(docs_credentials(""), Err(DocsRefusal::MissingScheme));
    assert_eq!(docs_credentials("Bearer abc"), Err(DocsRefusal::InvalidScheme));
    assert_eq!(docs_credentials("Basic    "), Err(DocsRefusal::EmptyPayload));
    assert_eq!(docs_credentials("Basic ***"), Err(DocsRefusal::InvalidEncoding));
    assert_eq!(docs_credentials("Basic dXNlcg=="), Err(DocsRefusal::InvalidPayload));
    assert_eq!(DocsRefusal::InvalidScheme.reason(), "Invalid auth scheme for docs");
}

#[test]
fn password_digests_and_database_path() {
    let h = hash_password("abc");
    assert_eq!(h, "ba7816bf8f01cfea414140de5dae2223b00361a396177a9cb410ff61f20015ad");
    assert!(credentials_match(Some(h.as_str()), "abc"));
    assert!(!credentials_match(Some(h.as_str()), "abd"));
    assert!(!credentials_match(None, "abc"));
    assert_eq!(db_path_from(Some("  /tmp/x.db "), Some("/srv/b.db"), true), "/tmp/x.db");
    assert_eq!(db_path_from(None, Some("/srv/b.db"), true), "/srv/b.db");
    assert_eq!(db_path_from(Some("  "), Some("/srv/b.db"), false), "/srv/b.db");
    assert_eq!(db_path_from(None, None, true), "/var/lib/bifrost/bifrost.db");
    assert_eq!(db_path_from(Some("  "), None, false), "bifrost.db");
}

#[test]
fn weak_bootstrap_keys() {
    assert!(bootstrap_key_is_weak("  "));
    assert!(bootstrap_key_is_weak("CHANGEME"));
    assert!(bootstrap_key_is_weak("short-key"));
    assert!(bootstrap_key_is_weak(" 12345678901234567890123 "));
    assert!(!bootstrap_key_is_weak("123456789012345678901234"));
    assert!(!bootstrap_key_is_weak("ééééééééééééé"));
}

#[test]
fn view_users_only_read_the_catalogue() {
    assert!(docs_request_allowed("GET", "/api/response_codes", false));
    assert!(docs_request_allowed("GET", "/api/response_codes/pdf", false));
    assert!(!docs_request_allowed("POST", "/api/response_codes", false));
    assert!(!docs_request_allowed("PUT", "/api/response_codes/30000", false));
    assert!(!docs_request_allowed("DELETE", "/api/response_codes/30000/lang/es", false));
    assert!(docs_request_allowed("POST", "/api/response_codes", true));
    assert!(docs_request_allowed("DELETE", "/api/response_codes/30000/lang/es", true));
    assert!(docs_request_allowed("GET", "/metrics", false));
    assert!(docs_request_allowed("POST", "/api/response_codesx", false));
    assert!(docs_forbidden_body().contains("forbidden"));
}
