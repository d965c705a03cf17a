use bifrost_gate::auth::JwtClaims;
use bifrost_gate::connections::{brace_delta, find_top_level_section_range};
use bifrost_gate::settings::{AuthSettings, LoggingSettings};

fn claims(scopes: &[&str]) -> JwtClaims {
    JwtClaims { sub: "client".to_string(), scopes: scopes.iter().map(|s| s.to_string()).collect(), exp: 0 }
}

fn logging(journal: Option<bool>, capacity: Option<usize>, rotate: Option<u64>) -> LoggingSettings {
    LoggingSettings {
        service_level: 1,
        worker_level: 1,
        use_journalctl: journal,
        service_access_log: None,
        service_error_log: None,
        worker_log: None,
        channel_capacity: capacity,
        rotate_size_mb: rotate,
    }
}

#[test]
fn scopes_grant_what_they_name_or_everything_with_the_wildcard() {
    assert!(claims(&["read", "write"]).has_scope("write"));
    assert!(!claims(&["read"]).has_scope("write"));
    assert!(claims(&["*"]).has_scope("anything"));
    assert!(!claims(&[]).has_scope("read"));
    assert!(!claims(&["Read"]).has_scope("read"));
}

#[test]
fn brace_delta_counts_opening_minus_closing() {
    assert_eq!(brace_delta("conn {"), 1);
    assert_eq!(brace_delta("}"), -1);
    assert_eq!(brace_delta("a { b } c {"), 1);
    assert_eq!(brace_delta("no braces"), 0);
    assert_eq!(brace_delta("}}"), -2);
}

#[test]
fn top_level_sections_are_found_with_their_end_and_indent() {
    let lines: Vec<String> = vec![
        "connections {",
        "  office {",
        "    local {",
        "    }",
        "  }",
        "}",
        "secrets {",
        "}",
    ]
    .into_iter()
    .map(|l| l.to_string())
    .collect();
    assert_eq!(find_top_level_section_range(&lines, "connections {"), Some((0, 5, String::new())));
    assert_eq!(find_top_level_section_range(&lines, "secrets {"), Some((6, 7, String::new())));
    // A nested section is not at the top level.
    assert_eq!(find_top_level_section_range(&lines, "office {"), None);
    assert_eq!(find_top_level_section_range(&lines, "missing {"), None);
}

#[test]
fn an_indented_top_level_section_keeps_its_indent() {
    let lines: Vec<String> = vec!["  pools {", "    a = 1", "  }"].into_iter().map(|l| l.to_string()).collect();
    assert_eq!(find_top_level_section_range(&lines, "pools {"), Some((0, 2, "  ".to_string())));
}

#[test]
fn an_unclosed_section_ends_where_it_starts() {
    let lines: Vec<String> = vec!["conn {", "  a = 1"].into_iter().map(|l| l.to_string()).collect();
    assert_eq!(find_top_level_section_range(&lines, "conn {"), Some((0, 0, String::new())));
}

#[test]
fn auth_settings_fall_back_to_their_defaults() {
    let bare = AuthSettings { enabled: true, header_name: None, bootstrap_user: None, bootstrap_api_key: None };
    assert_eq!(bare.api_key_header(), "x-api-key");
    assert_eq!(bare.bootstrap_user_name(), "admin");
    let set = AuthSettings {
        enabled: true,
        header_name: Some("x-token".to_string()),
        bootstrap_user: Some("ops".to_string()),
        bootstrap_api_key: None,
    };
    assert_eq!(set.api_key_header(), "x-token");
    assert_eq!(set.bootstrap_user_name(), "ops");
}

#[test]
fn logging_settings_fall_back_to_their_defaults() {
    let bare = logging(None, None, None);
    assert!(bare.journal_enabled());
    assert_eq!(bare.queue_capacity(), 1000);
    assert_eq!(bare.rotate_size_bytes(), 10 * 1024 * 1024);
    let set = logging(Some(false), Some(64), Some(3));
    assert!(!set.journal_enabled());
    assert_eq!(set.queue_capacity(), 64);
    assert_eq!(set.rotate_size_bytes(), 3 * 1024 * 1024);
}
