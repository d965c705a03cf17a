use bifrost_gate::json::JsonValue;
use bifrost_gate::secrets::{
    extract_ids, extract_required_string, parse_secret_config_for_response, render_scalar_value,
    validate_and_render_secret_config,
};
use bifrost_gate::types::SecretType;

fn s(v: &str) -> JsonValue {
    JsonValue::String(v.to_string())
}

fn entries(e: Vec<(&str, JsonValue)>) -> Vec<(String, JsonValue)> {
    e.into_iter().map(|(k, v)| (k.to_string(), v)).collect()
}

fn obj(e: Vec<(&str, JsonValue)>) -> JsonValue {
    JsonValue::Object(entries(e))
}

#[test]
fn shared_secret_with_several_ids() {
    let config = obj(vec![("ids", JsonValue::Array(vec![s("a"), s("b"), s("c")])), ("secret", s("s3cr3t-pw"))]);
    let lines = validate_and_render_secret_config(SecretType::Eap, &config).unwrap();
    assert_eq!(lines, vec!["secret = s3cr3t-pw", "id = a", "id2 = b", "id3 = c"]);
}

#[test]
fn id_takes_precedence_over_ids() {
    let config = obj(vec![("id", s("x")), ("ids", JsonValue::Array(vec![s("a")])), ("secret", s("long enough"))]);
    let lines = validate_and_render_secret_config(SecretType::Ike, &config).unwrap();
    assert_eq!(lines, vec!["secret = long enough", "id = x"]);
}

#[test]
fn shared_secret_refusals() {
    let t = SecretType::Xauth;
    assert_eq!(validate_and_render_secret_config(t, &s("x")).unwrap_err(), "config debe ser un objeto JSON");
    assert_eq!(
        validate_and_render_secret_config(t, &obj(vec![("foo", s("1"))])).unwrap_err(),
        "config.foo no es válido para este tipo de secret"
    );
    assert_eq!(validate_and_render_secret_config(t, &obj(vec![])).unwrap_err(), "config.secret es requerido");
    assert_eq!(
        validate_and_render_secret_config(t, &obj(vec![("secret", JsonValue::Bool(true))])).unwrap_err(),
        "config.secret debe ser string"
    );
    assert_eq!(
        validate_and_render_secret_config(t, &obj(vec![("secret", s("  "))])).unwrap_err(),
        "config.secret no puede estar vacío"
    );
    assert_eq!(
        validate_and_render_secret_config(t, &obj(vec![("secret", s(" 1234567 "))])).unwrap_err(),
        "config.secret debe tener al menos 8 caracteres"
    );
    assert_eq!(
        validate_and_render_secret_config(t, &obj(vec![("secret", s("ñandú!!"))])).unwrap_err(),
        "config.id (string) o config.ids (lista de strings) es requerido para el tipo 'xauth'"
    );
    assert_eq!(
        validate_and_render_secret_config(SecretType::Ppk, &obj(vec![("secret", s("12345678"))])).unwrap_err(),
        "config.id (string) o config.ids (lista de strings) es requerido para el tipo 'ppk'"
    );
    assert_eq!(
        validate_and_render_secret_config(t, &obj(vec![("id", s(" ")), ("secret", s("password"))])).unwrap_err(),
        "config.id no puede estar vacío"
    );
    assert_eq!(
        validate_and_render_secret_config(t, &obj(vec![("id", JsonValue::Null), ("secret", s("password"))])).unwrap_err(),
        "config.id debe ser string"
    );
    assert_eq!(
        validate_and_render_secret_config(t, &obj(vec![("ids", JsonValue::Array(vec![])), ("secret", s("password"))])).unwrap_err(),
        "config.ids no puede ser vacío"
    );
    assert_eq!(
        validate_and_render_secret_config(t, &obj(vec![("ids", JsonValue::Array(vec![s("a"), s(" ")])), ("secret", s("password"))]))
            .unwrap_err(),
        "config.ids[1] no puede estar vacío"
    );
    assert_eq!(
        validate_and_render_secret_config(t, &obj(vec![("ids", JsonValue::Array(vec![JsonValue::Bool(true)])), ("secret", s("password"))]))
            .unwrap_err(),
        "config.ids[0] debe ser string"
    );
    assert_eq!(
        validate_and_render_secret_config(t, &obj(vec![("ids", s("a")), ("secret", s("password"))])).unwrap_err(),
        "config.ids debe ser lista de strings"
    );
}

#[test]
fn key_files_need_file_and_secret() {
    let ok = obj(vec![("file", s("k.pem")), ("secret", s("pw"))]);
    assert_eq!(validate_and_render_secret_config(SecretType::Rsa, &ok).unwrap(), vec!["file = k.pem", "secret = pw"]);
    assert_eq!(
        validate_and_render_secret_config(SecretType::Pkcs12, &obj(vec![("secret", s("pw"))])).unwrap_err(),
        "config.file es requerido"
    );
    assert_eq!(
        validate_and_render_secret_config(SecretType::Ecdsa, &obj(vec![("file", s(" ")), ("secret", s(""))])).unwrap_err(),
        "config.file no puede estar vacío"
    );
}

#[test]
fn tokens_take_optional_scalars() {
    let config = obj(vec![
        ("handle", s("h")),
        ("pin", s("1234")),
        ("slot", JsonValue::Number("1".to_string())),
    ]);
    assert_eq!(
        validate_and_render_secret_config(SecretType::Token, &config).unwrap(),
        vec!["handle = h", "slot = 1", "pin = 1234"]
    );
    let bad = obj(vec![("handle", s("h")), ("slot", JsonValue::Null)]);
    assert_eq!(
        validate_and_render_secret_config(SecretType::Token, &bad).unwrap_err(),
        "config.slot debe ser string, número o booleano"
    );
}

#[test]
fn scalar_and_string_helpers() {
    assert_eq!(render_scalar_value(&JsonValue::Bool(true), "f").unwrap(), "true");
    assert_eq!(render_scalar_value(&JsonValue::Array(vec![]), "f").unwrap_err(), "f debe ser string, número o booleano");
    let e = entries(vec![("k", s("v"))]);
    assert_eq!(extract_required_string(&e, "k").unwrap(), "v");
    assert_eq!(extract_ids(&entries(vec![])).unwrap(), Vec::<String>::new());
}

#[test]
fn written_secret_reads_back_redacted() {
    let content = "secrets {\n  eap-alice {\n    secret = s3\n    id = a\n    id2 = b\n    pin = 9\n  }\n}\n";
    let (t, v) = parse_secret_config_for_response(content).unwrap();
    assert!(matches!(t, SecretType::Eap));
    match v {
        JsonValue::Object(es) => {
            assert_eq!(es.len(), 3);
            assert_eq!(es[0].0, "secret");
            assert!(matches!(&es[0].1, JsonValue::String(x) if x == "***redacted***"));
            assert_eq!(es[1].0, "pin");
            assert_eq!(es[2].0, "ids");
            match &es[2].1 {
                JsonValue::Array(items) => {
                    assert_eq!(items.len(), 2);
                    assert!(matches!(&items[1], JsonValue::String(x) if x == "b"));
                }
                _ => panic!("ids should be a list"),
            }
        }
        _ => panic!("config should be an object"),
    }
}

#[test]
fn unreadable_secret_files() {
    assert_eq!(parse_secret_config_for_response("nothing").unwrap_err(), "No se encontró sección de secret");
    assert_eq!(parse_secret_config_for_response("secrets {\n  alice {\n  }\n}").unwrap_err(), "No se pudo identificar tipo de secret");
    assert_eq!(parse_secret_config_for_response("bogus-alice {\n}").unwrap_err(), "Tipo de secret desconocido: 'bogus'");
}

#[test]
fn a_single_identity_reads_back_as_id() {
    let content = "secrets {\n  ike-bob {\n    secret = hunter22\n    id = bob@example.org\n  }\n}\n";
    let (t, v) = parse_secret_config_for_response(content).unwrap();
    assert!(matches!(t, SecretType::Ike));
    let expected = obj(vec![("secret", s("***redacted***")), ("id", s("bob@example.org"))]);
    assert_eq!(format!("{:?}", v), format!("{:?}", expected));
}

#[test]
fn identity_keys_are_id_and_id_with_a_number() {
    // `id+5` is an identity (u32 parsing takes a leading '+'); `idx` and `id-1` are not
    let content = "secrets {\n  eap-c {\n    idx = 1\n    id+5 = a\n    id-1 = 2\n    id7 = b\n  }\n}\n";
    let (_, v) = parse_secret_config_for_response(content).unwrap();
    let expected = obj(vec![
        ("idx", s("1")),
        ("id-1", s("2")),
        ("ids", JsonValue::Array(vec![s("a"), s("b")])),
    ]);
    assert_eq!(format!("{:?}", v), format!("{:?}", expected));
    // a number past u32 does not make an identity
    let content = "secrets {\n  eap-c {\n    id4294967296 = z\n  }\n}\n";
    let (_, v) = parse_secret_config_for_response(content).unwrap();
    assert_eq!(format!("{:?}", v), format!("{:?}", obj(vec![("id4294967296", s("z"))])));
}

#[test]
fn a_repeated_setting_keeps_its_place_and_its_last_value() {
    let content = "secrets {\n  token-t {\n    handle = 1\n    slot = 2\n    handle = 3\n    pin = 4\n    pin = 5\n  }\n}\n";
    let (_, v) = parse_secret_config_for_response(content).unwrap();
    let expected = obj(vec![("handle", s("3")), ("slot", s("2")), ("pin", s("***redacted***"))]);
    assert_eq!(format!("{:?}", v), format!("{:?}", expected));
}

#[test]
fn shared_secrets_count_bytes_for_their_length() {
    let ok = obj(vec![("id", s("a")), ("secret", s("ñandú!!"))]);
    assert_eq!(validate_and_render_secret_config(SecretType::Ntlm, &ok).unwrap(), vec!["secret = ñandú!!", "id = a"]);
    // the secret is written as given, surrounding blanks included, once its trimmed form is long enough
    let ok = obj(vec![("id", s("a")), ("secret", s(" 12345678 "))]);
    assert_eq!(validate_and_render_secret_config(SecretType::Ntlm, &ok).unwrap(), vec!["secret =  12345678 ", "id = a"]);
}

#[test]
fn a_written_shared_secret_reads_back_with_its_identities() {
    let config = obj(vec![("ids", JsonValue::Array(vec![s(" alice "), s("bob")])), ("secret", s("s3cr3t-pw"))]);
    let lines = validate_and_render_secret_config(SecretType::Eap, &config).unwrap();
    let text = bifrost_gate::connections::build_secret_conf("vpn", SecretType::Eap, &lines);
    let (t, v) = parse_secret_config_for_response(&text).unwrap();
    assert!(matches!(t, SecretType::Eap));
    let expected = obj(vec![("secret", s("***redacted***")), ("ids", JsonValue::Array(vec![s("alice"), s("bob")]))]);
    assert_eq!(format!("{:?}", v), format!("{:?}", expected));
    let single = obj(vec![("id", s("carol")), ("secret", s("s3cr3t-pw"))]);
    let lines = validate_and_render_secret_config(SecretType::Ike, &single).unwrap();
    let text = bifrost_gate::connections::build_secret_conf("vpn", SecretType::Ike, &lines);
    let (_, v) = parse_secret_config_for_response(&text).unwrap();
    assert_eq!(format!("{:?}", v), format!("{:?}", obj(vec![("secret", s("***redacted***")), ("id", s("carol"))])));
}
