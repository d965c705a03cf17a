use bifrost_gate::connections::{
    build_connection_conf, build_secret_conf, connection_file_path, extract_connection_body, secret_file_path,
    upsert_connection_section_values,
};
use bifrost_gate::json::JsonValue;
use bifrost_gate::listing::managed_names;
use bifrost_gate::logging::{error_log_file_path, log_file_path, LogLevel};
use bifrost_gate::secrets::parse_secret_config_for_response;
use bifrost_gate::types::SecretType;

fn file_name(path: &str) -> String {
    path.rsplit('/').next().unwrap().to_string()
}

#[test]
fn written_files_are_listed_under_their_names() {
    let files = vec![file_name(&connection_file_path("office")), file_name(&secret_file_path("vpn.key"))];
    assert_eq!(managed_names(&files, "bifrost-secret-", ".conf"), vec!["vpn.key"]);
    assert_eq!(managed_names(&files[..1].to_vec(), "bifrost-", ".conf"), vec!["office"]);
}

#[test]
fn names_that_repeat_the_prefix_or_suffix_are_listed_shorter() {
    let files = vec![file_name(&connection_file_path("bifrost-x")), file_name(&connection_file_path("y.conf"))];
    assert_eq!(managed_names(&files, "bifrost-", ".conf"), vec!["x", "y"]);
}

#[test]
fn secrets_read_back_are_redacted() {
    let lines = vec!["secret = s3cr3t".to_string(), "id = alice".to_string(), "pin = 1234".to_string()];
    let text = build_secret_conf("vpn", SecretType::Eap, &lines);
    let (t, shown) = parse_secret_config_for_response(&text).unwrap();
    assert_eq!(t, SecretType::Eap);
    match shown {
        JsonValue::Object(es) => {
            for (k, v) in es.iter() {
                if k == "secret" || k == "pin" {
                    assert!(matches!(v, JsonValue::String(s) if s == "***redacted***"));
                }
            }
            assert!(es.iter().any(|(k, v)| k == "id" && matches!(v, JsonValue::String(s) if s == "alice")));
            assert!(!es.iter().any(|(k, _)| k == "ids"));
            assert!(!format!("{:?}", es).contains("s3cr3t"));
            assert!(!format!("{:?}", es).contains("1234"));
        }
        other => panic!("not an object: {:?}", other),
    }
}

#[test]
fn test_log_level_creation() {
    assert_eq!(LogLevel::from_u8(1), LogLevel::Info);
    // the files a logger of the context "test" writes to when no path is given
    assert_eq!(log_file_path("test", None, None), "/var/log/bifrost.log");
    assert_eq!(error_log_file_path("test", None), None);
}

#[test]
fn test_log_level_error() {
    assert_eq!(LogLevel::from_u8(3), LogLevel::Error);
}

#[test]
fn test_log_level_off() {
    assert_eq!(LogLevel::from_u8(0), LogLevel::Off);
}

#[test]
fn a_written_connection_reads_back_with_its_closing_brace() {
    let conf = build_connection_conf("office", "remote_addrs = 10.0.0.1\nversion = 2");
    assert_eq!(
        conf,
        "connections {\n  office {\n    remote_addrs = 10.0.0.1\n    version = 2\n  }\n}\n"
    );
    assert_eq!(
        extract_connection_body("office", &conf),
        Some("remote_addrs = 10.0.0.1\nversion = 2\n  }".to_string())
    );
}

#[test]
fn an_empty_connection_reads_back_as_the_brace() {
    let conf = build_connection_conf("office", "");
    assert_eq!(extract_connection_body("office", &conf), Some("}".to_string()));
}

#[test]
fn a_name_ending_the_word_connections_is_found_in_the_first_line() {
    let conf = build_connection_conf("s", "a = 1");
    assert_eq!(extract_connection_body("s", &conf), Some("s {\na = 1\n  }".to_string()));
}

#[test]
fn a_missing_section_reads_back_nothing() {
    assert_eq!(extract_connection_body("office", "connections {\n}\n"), None);
    assert_eq!(extract_connection_body("office", "office { no close"), None);
}

#[test]
fn secret_settings_read_back_in_order_with_trimmed_values() {
    let lines = vec!["handle = 01".to_string(), "slot =  4 ".to_string(), "module = opensc\r".to_string()];
    let text = build_secret_conf("card", SecretType::Token, &lines);
    let (t, shown) = parse_secret_config_for_response(&text).unwrap();
    assert_eq!(t, SecretType::Token);
    let expected = JsonValue::Object(vec![
        ("handle".to_string(), JsonValue::String("01".to_string())),
        ("slot".to_string(), JsonValue::String("4".to_string())),
        ("module".to_string(), JsonValue::String("opensc".to_string())),
    ]);
    assert_eq!(format!("{:?}", shown), format!("{:?}", expected));
}

#[test]
fn secret_identities_read_back_as_a_list() {
    let lines = vec!["secret = s".to_string(), "id = alice".to_string(), "id2 = bob ".to_string()];
    let text = build_secret_conf("vpn", SecretType::Ike, &lines);
    let (_, shown) = parse_secret_config_for_response(&text).unwrap();
    let expected = JsonValue::Object(vec![
        ("secret".to_string(), JsonValue::String("***redacted***".to_string())),
        (
            "ids".to_string(),
            JsonValue::Array(vec![JsonValue::String("alice".to_string()), JsonValue::String("bob".to_string())]),
        ),
    ]);
    assert_eq!(format!("{:?}", shown), format!("{:?}", expected));
}

fn pairs(v: &[(&str, &str)]) -> Vec<(String, String)> {
    v.iter().map(|(k, x)| (k.to_string(), x.to_string())).collect()
}

#[test]
fn editing_a_section_twice_is_editing_it_once() {
    let values = pairs(&[("certs", "new.pem"), ("id", "me")]);
    let body = "local {\n  auth = psk\n  certs = old.pem\n}\nremote {\n  auth = psk\n}";
    let once = upsert_connection_section_values(body, "local", &values);
    assert_eq!(once, "local {\n  certs = new.pem\n  id = me\n  auth = psk\n}\nremote {\n  auth = psk\n}");
    assert_eq!(upsert_connection_section_values(&once, "local", &values), once);
    // a section that is not there is appended, and found again the second time
    let body = "remote {\n  auth = pubkey\n}";
    let once = upsert_connection_section_values(body, "local", &values);
    assert_eq!(once, "remote {\n  auth = pubkey\n}\n\nlocal {\n  certs = new.pem\n  id = me\n}");
    assert_eq!(upsert_connection_section_values(&once, "local", &values), once);
}

#[test]
fn a_text_ending_with_an_empty_line_loses_it_on_the_second_edit() {
    let values = pairs(&[("k", "v")]);
    let once = upsert_connection_section_values("a {\n}\n\n", "a", &values);
    assert_eq!(once, "a {\n  k = v\n}\n");
    assert_eq!(upsert_connection_section_values(&once, "a", &values), "a {\n  k = v\n}");
}

#[test]
fn an_untrimmed_section_name_is_not_found_again() {
    let once = upsert_connection_section_values("", " a", &Vec::new());
    assert_eq!(once, " a {\n}");
    assert_eq!(upsert_connection_section_values(&once, " a", &Vec::new()), " a {\n}\n\n a {\n}");
}

#[test]
fn a_line_left_ending_in_a_carriage_return_loses_it_on_the_second_edit() {
    let values = pairs(&[("k", "v")]);
    let once = upsert_connection_section_values("x\r\r\n", "a", &values);
    assert_eq!(once, "x\r\n\na {\n  k = v\n}");
    assert_eq!(upsert_connection_section_values(&once, "a", &values), "x\n\na {\n  k = v\n}");
}

#[test]
fn a_replaced_line_that_opened_a_brace_moves_the_section_end() {
    let values = pairs(&[("k", "v")]);
    let body = "a {\n k = {\n x = 1\n }\n}";
    let once = upsert_connection_section_values(body, "a", &values);
    assert_eq!(once, "a {\n  k = v\n x = 1\n }\n}");
    assert_eq!(upsert_connection_section_values(&once, "a", &values), "a {\n  k = v\n x = 1\n}\n}");
}
