use bifrost_gate::connections::{
    apply_certificate_to_connection_config, attach_certificate_file, attach_possible,
    build_connection_conf, build_secret_conf, connection_file_path, render_connection_body_from_json,
    sanitize_connection_name, upsert_connection_section_values, upsert_possible,
};
use bifrost_gate::json::JsonValue;
use bifrost_gate::types::{ConnectionCertificateAttachRequest, SecretType};

fn s(v: &str) -> JsonValue {
    JsonValue::String(v.to_string())
}

fn obj(entries: Vec<(&str, JsonValue)>) -> JsonValue {
    JsonValue::Object(entries.into_iter().map(|(k, v)| (k.to_string(), v)).collect())
}

fn attach(cert: &str, local_id: Option<&str>, ca: Option<&str>, remote_auth: Option<bool>) -> ConnectionCertificateAttachRequest {
    ConnectionCertificateAttachRequest {
        certificate_name: cert.to_string(),
        local_id: local_id.map(|v| v.to_string()),
        remote_ca_name: ca.map(|v| v.to_string()),
        set_remote_auth_pubkey: remote_auth,
    }
}

#[test]
fn renders_nested_objects_lists_and_scalars() {
    let config = obj(vec![
        ("local", obj(vec![("auth", s("pubkey"))])),
        ("remote_addrs", JsonValue::Array(vec![s("1.2.3.4"), s("5.6.7.8")])),
        ("version", JsonValue::Number("2".to_string())),
        ("mobike", JsonValue::Bool(false)),
    ]);
    let body = render_connection_body_from_json(&config).unwrap();
    assert_eq!(body, "local {\n  auth = pubkey\n}\nremote_addrs = 1.2.3.4, 5.6.7.8\nversion = 2\nmobike = false");
}

#[test]
fn empty_object_renders_nothing() {
    assert_eq!(render_connection_body_from_json(&obj(vec![])).unwrap(), "");
}

#[test]
fn rendering_refuses_what_swanctl_cannot_hold() {
    assert_eq!(render_connection_body_from_json(&s("x")).unwrap_err(), "config debe ser un objeto JSON");
    assert_eq!(
        render_connection_body_from_json(&obj(vec![("  ", s("x"))])).unwrap_err(),
        "config contiene una clave vacía"
    );
    assert_eq!(
        render_connection_body_from_json(&obj(vec![("proposals", JsonValue::Array(vec![]))])).unwrap_err(),
        "config.proposals no puede ser una lista vacía"
    );
    assert_eq!(
        render_connection_body_from_json(&obj(vec![("a", JsonValue::Array(vec![s("x"), JsonValue::Null]))])).unwrap_err(),
        "config.a solo permite strings, numeros o booleanos en listas"
    );
    assert_eq!(
        render_connection_body_from_json(&obj(vec![("ok", s("1")), ("child", obj(vec![("x", JsonValue::Null)]))])).unwrap_err(),
        "config.x no puede ser null"
    );
}

#[test]
fn attaching_rewrites_both_sections() {
    let body = "local {\n  auth = psk\n  id = old\n}\nremote {\n  auth = psk\n}";
    let p = attach("client1", Some(" me@x "), Some("rootca"), None);
    assert!(attach_possible(body, &p));
    let out = apply_certificate_to_connection_config(body, &p).unwrap();
    assert_eq!(
        out,
        "local {\n  auth = pubkey\n  certs = x509/bifrost-user-client1.crt\n  id = me@x\n}\nremote {\n  auth = pubkey\n  cacerts = x509ca/bifrost-ca-rootca.crt\n}"
    );
}

#[test]
fn attaching_to_an_empty_body_appends_the_local_section() {
    let p = attach("c", None, None, Some(false));
    let out = apply_certificate_to_connection_config("", &p).unwrap();
    assert_eq!(out, "local {\n  auth = pubkey\n  certs = x509/bifrost-user-c.crt\n}");
}

#[test]
fn attaching_refuses_bad_names_and_blank_ids() {
    assert_eq!(
        apply_certificate_to_connection_config("", &attach("bad name!", None, None, None)).unwrap_err(),
        "certificate_name inválido"
    );
    assert_eq!(
        apply_certificate_to_connection_config("", &attach("c", Some("   "), None, None)).unwrap_err(),
        "local_id no puede ser vacío"
    );
    assert_eq!(
        apply_certificate_to_connection_config("", &attach("c", None, Some("x y"), None)).unwrap_err(),
        "remote_ca_name inválido"
    );
}

#[test]
fn unclosed_section_cannot_be_upserted() {
    assert!(!upsert_possible("local {\n  auth = psk", "local"));
    assert!(upsert_possible("local {\n}", "local"));
    let values = vec![("auth".to_string(), "pubkey".to_string())];
    assert_eq!(upsert_connection_section_values("a = 1", "local", &values), "a = 1\n\nlocal {\n  auth = pubkey\n}");
}

#[test]
fn attaching_to_a_connection_file_rewrites_its_body() {
    let content = build_connection_conf("conn1", "local {\n  auth = psk\n}");
    let p = attach("u1", None, None, Some(false));
    let out = attach_certificate_file("conn1", &content, &p).unwrap();
    assert_eq!(
        out,
        "connections {\n  conn1 {\n    local {\n      auth = pubkey\n      certs = x509/bifrost-user-u1.crt\n    }\n      }\n  }\n}\n"
    );
}

#[test]
fn files_of_connections_and_secrets() {
    assert_eq!(connection_file_path("c1"), "/etc/swanctl/conf.d/bifrost-c1.conf");
    assert_eq!(sanitize_connection_name("  vpn-1.a_b "), Some("vpn-1.a_b".to_string()));
    assert_eq!(sanitize_connection_name("a/b"), None);
    let lines = vec!["secret = s".to_string(), "id = a".to_string()];
    assert_eq!(
        build_secret_conf("alice", SecretType::Eap, &lines),
        "secrets {\n  eap-alice {\n    secret = s\n    id = a\n  }\n}\n"
    );
}
