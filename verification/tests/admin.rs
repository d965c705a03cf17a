use bifrost_gate::cli::{is_write, join_args, parse_code, parse_command, wants_version, write_report, CtlCommand};
use bifrost_gate::json::JsonValue;
use bifrost_gate::listing::{managed_location, managed_names, ManagedKind};
use bifrost_gate::logging::{
    api_error_message, api_request_message, error_log_file_path, format_log_line, goes_to_error_file,
    journal_priority, log_file_path, needs_rotation, queued_log_destination, rotated_name, worker_message,
    LogLevel, TracingWriter,
};
use bifrost_gate::resources::{
    attach_done, attach_io_failed, attach_missing_reply, attach_names, attach_refused, attach_remote_ca,
    connection_config_of, deleted_reply, existence_refusal, listing_failed_reply, missing_file_reply,
    prepare_connection_upsert, reload_outcome, reload_spawn_error, saved_reply,
    secret_upsert_start, unreadable_secret_reply, write_failed_reply, AttachMissing, Resource, SecretAction,
};
use bifrost_gate::types::SecretType;

fn args(words: &[&str]) -> Vec<String> {
    words.iter().map(|w| w.to_string()).collect()
}

#[test]
fn ctl_commands() {
    assert!(matches!(parse_command(&args(&["bifrostctl"])), CtlCommand::Usage));
    assert!(matches!(parse_command(&args(&["bifrostctl", "version"])), CtlCommand::Version));
    match parse_command(&args(&["bifrostctl", "apikey", "create", "  bob "])) {
        CtlCommand::ApiKeyCreate { user_name } => assert_eq!(user_name, "bob"),
        other => panic!("{:?}", other),
    }
    match parse_command(&args(&["bifrostctl", "apikey", "disable", " k1 "])) {
        CtlCommand::ApiKeySetActive { api_key, active } => {
            assert_eq!(api_key, "k1");
            assert!(!active);
        }
        other => panic!("{:?}", other),
    }
    match parse_command(&args(&["bifrostctl", "response", "add", "30000", "Auth", "API", "Key", "Required"])) {
        CtlCommand::ResponseAdd { code, kind, message_en } => {
            assert_eq!(code, 30000);
            assert_eq!(kind, "Auth");
            assert_eq!(message_en, "API Key Required");
        }
        other => panic!("{:?}", other),
    }
    match parse_command(&args(&["bifrostctl", "response", "set-lang", "30000", " ES ", "API", "Key", "requerida"])) {
        CtlCommand::ResponseSetLang { code, lang, message } => {
            assert_eq!((code, lang.as_str(), message.as_str()), (30000, "es", "API Key requerida"));
        }
        other => panic!("{:?}", other),
    }
    match parse_command(&args(&["bifrostctl", "response", "list", "es"])) {
        CtlCommand::ResponseList { lang } => assert_eq!(lang, Some("es".to_string())),
        other => panic!("{:?}", other),
    }
    match parse_command(&args(&["bifrostctl", "docs-user", "grant-responses-manage", "ana"])) {
        CtlCommand::DocsUserSetManage { username, manage } => {
            assert_eq!(username, "ana");
            assert!(manage);
        }
        other => panic!("{:?}", other),
    }
}

fn invalid(words: &[&str]) -> String {
    match parse_command(&args(words)) {
        CtlCommand::Invalid { message } => message,
        other => panic!("{:?}", other),
    }
}

fn unknown(words: &[&str]) -> String {
    match parse_command(&args(words)) {
        CtlCommand::Unknown { message } => message,
        other => panic!("{:?}", other),
    }
}

#[test]
fn ctl_refusals() {
    assert_eq!(invalid(&["b", "apikey", "create"]), "Falta user_name. Uso: bifrostctl apikey create <user_name>");
    assert_eq!(invalid(&["b", "apikey", "create", "  "]), "user_name no puede estar vacio");
    assert_eq!(invalid(&["b", "apikey", "enable"]), "Falta api_key. Uso: bifrostctl apikey enable <api_key>");
    assert_eq!(invalid(&["b", "docs-user", "create", "a"]), "Uso: bifrostctl docs-user create <username> <password>");
    assert_eq!(invalid(&["b", "docs-user", "passwd", "a", " "]), "username y new_password no pueden estar vacíos");
    assert_eq!(invalid(&["b", "docs-user", "delete"]), "Uso: bifrostctl docs-user delete <username>");
    assert_eq!(invalid(&["b", "response", "add", "abc", "t", "m"]), "code inválido: 'abc'");
    assert_eq!(invalid(&["b", "response", "add", "1", " ", "m"]), "type y message_en son requeridos");
    assert_eq!(
        invalid(&["b", "response", "set-lang", "1", "EN", "m"]),
        "lang debe ser distinto de 'en' para traducciones (usa set-en para inglés)"
    );
    assert_eq!(invalid(&["b", "response", "del-lang", "1", " "]), "lang debe ser distinto de 'en'");
    assert_eq!(invalid(&["b", "response", "set-en", "1", " "]), "message_en no puede estar vacío");
    assert_eq!(unknown(&["b", "foo"]), "Comando desconocido 'foo'.");
    assert_eq!(unknown(&["b", "apikey", "help"]), "Subcomando apikey desconocido 'help'.");
    assert!(matches!(parse_command(&args(&["b", "docs-user", "-h"])), CtlCommand::Usage));
    assert!(matches!(parse_command(&args(&["b", "response"])), CtlCommand::Usage));
}

#[test]
fn ctl_helpers() {
    assert!(wants_version(&args(&["b", "apikey", "-V"])));
    assert!(!wants_version(&args(&["b", "version"])));
    assert_eq!(parse_code(" 42 "), Some(42));
    assert_eq!(parse_code("-7"), Some(-7));
    assert_eq!(parse_code("4x"), None);
    assert_eq!(join_args(&args(&["a", "b", "c"]), 1), "b c");
    assert_eq!(join_args(&args(&["a"]), 1), "");
}

#[test]
fn log_levels() {
    assert_eq!(LogLevel::from_u8(0), LogLevel::Off);
    assert_eq!(LogLevel::from_u8(1), LogLevel::Info);
    assert_eq!(LogLevel::from_u8(3), LogLevel::Error);
    assert_eq!(LogLevel::from_u8(2), LogLevel::Off);
    assert!(LogLevel::Error.logs_info());
    assert!(LogLevel::Info.logs_info());
    assert!(!LogLevel::Info.logs_errors());
    assert!(LogLevel::Error.logs_errors());
    assert!(!LogLevel::Off.logs_info());
    assert_eq!(LogLevel::Error.rank(), 3);
}

#[test]
fn log_lines_and_destinations() {
    assert_eq!(format_log_line("t", "INFO", "service", "id", "th", "m"), "[t] [INFO] [service] [id] [th] m");
    assert_eq!(api_request_message("GET", "/x", 200, 15), "API_REQUEST: GET /x | Status: 200 | Duration: 15ms");
    assert_eq!(api_error_message("GET", "/x", 401, "no"), "API_ERROR: GET /x | Status: 401 | Error: no");
    assert_eq!(worker_message("w1", "ok", false), "WORKER[w1]: ok");
    assert_eq!(worker_message("w1", "bad", true), "WORKER_ERROR[w1]: bad");
    assert_eq!(log_file_path("service", None, None), "/var/log/bifrost-service-access.log");
    assert_eq!(log_file_path("worker", None, Some("/w.log")), "/w.log");
    assert_eq!(log_file_path("test", Some("/a"), Some("/w")), "/var/log/bifrost.log");
    assert_eq!(error_log_file_path("service", None), Some("/var/log/bifrost-service-error.log".to_string()));
    assert_eq!(error_log_file_path("worker", Some("/e")), None);
    assert!(goes_to_error_file("EXCEPTION", "service"));
    assert!(!goes_to_error_file("ERROR", "worker"));
    assert_eq!(journal_priority("INFO"), "6");
    assert_eq!(journal_priority("ERROR"), "3");
    assert_eq!(journal_priority("EXCEPTION"), "2");
    assert_eq!(journal_priority("DEBUG"), "6");
    assert_eq!(queued_log_destination("[t] [ERROR] [service] x", Some("a"), Some("e"), Some("w")), Some("e".to_string()));
    assert_eq!(queued_log_destination("[t] [INFO] [service] x", Some("a"), Some("e"), Some("w")), Some("a".to_string()));
    assert_eq!(queued_log_destination("[t] [INFO] [worker] x", Some("a"), Some("e"), Some("w")), Some("w".to_string()));
    assert_eq!(queued_log_destination("[auto] x", None, Some("e"), Some("w")), Some("w".to_string()));
    assert_eq!(queued_log_destination("[auto] x", None, None, None), None);
    assert!(needs_rotation(11, 10));
    assert!(!needs_rotation(10, 10));
    assert_eq!(rotated_name("/var/log/a.log", "20240101"), "/var/log/a.log.20240101");
    let w = TracingWriter::new();
    assert_eq!(w.messages("a\n  \n b \n"), vec!["[service] [TRACE] a", "[service] [TRACE] b"]);
}

#[test]
fn connection_writes() {
    let config = JsonValue::Object(vec![("version".to_string(), JsonValue::Number("2".to_string()))]);
    let w = prepare_connection_upsert(" conn1 ", &config, false).unwrap();
    assert_eq!(w.name, "conn1");
    assert_eq!(w.path, "/etc/swanctl/conf.d/bifrost-conn1.conf");
    assert_eq!(w.text, "connections {\n  conn1 {\n    version = 2\n  }\n}\n");
    let r = prepare_connection_upsert("bad name", &config, true).unwrap_err();
    assert_eq!((r.status, r.name.as_str(), r.action.as_str(), r.message.as_str()), (400, "bad name", "update", "connection_name inválido"));
    let r = prepare_connection_upsert("c", &JsonValue::Object(vec![]), false).unwrap_err();
    assert_eq!((r.status, r.message.as_str()), (400, "config es requerido"));
    let r = prepare_connection_upsert("c", &JsonValue::Null, false).unwrap_err();
    assert_eq!(r.message, "config debe ser un objeto JSON");
}

#[test]
fn secret_writes() {
    let config = JsonValue::Object(vec![
        ("id".to_string(), JsonValue::String("a".to_string())),
        ("secret".to_string(), JsonValue::String("correct horse".to_string())),
    ]);
    let (ctl, action) = secret_upsert_start("alice", SecretType::Eap, &config, false);
    assert_eq!(ctl.path, "/etc/swanctl/conf.d/bifrost-secret-alice.conf");
    assert_eq!(ctl.text, "secrets {\n  eap-alice {\n    secret = correct horse\n    id = a\n  }\n}\n");
    assert!(matches!(action, SecretAction::CheckExists(p) if p == ctl.path));
    let refused = |name: &str, t: SecretType, c: &JsonValue| match secret_upsert_start(name, t, c, true).1 {
        SecretAction::Reply(r) => r,
        other => panic!("{:?}", other),
    };
    let r = refused("alice", SecretType::Token, &config);
    assert_eq!((r.status, r.name.as_str(), r.message.as_str()), (400, "alice", "config.id no es válido para este tipo de secret"));
    let r = refused("", SecretType::Token, &config);
    assert_eq!(r.message, "secret_name inválido: solo se permiten letras, dígitos, '-', '_' y '.'");
    let short = JsonValue::Object(vec![
        ("id".to_string(), JsonValue::String("a".to_string())),
        ("secret".to_string(), JsonValue::String("s".to_string())),
    ]);
    let r = refused("alice", SecretType::Eap, &short);
    assert_eq!((r.status, r.message.as_str()), (400, "config.secret debe tener al menos 8 caracteres"));
}

#[test]
fn crud_outcomes() {
    let r = existence_refusal(Resource::Connection, "c", false, true).unwrap();
    assert_eq!((r.status, r.action.as_str(), r.message.as_str()), (409, "create", "La conexión ya existe"));
    let r = existence_refusal(Resource::Secret, "s", true, false).unwrap();
    assert_eq!((r.status, r.message.as_str()), (404, "El secret no existe"));
    assert!(existence_refusal(Resource::Secret, "s", true, true).is_none());
    let r = saved_reply(Resource::Connection, "c", false, None);
    assert_eq!((r.status, r.success, r.message.as_str()), (201, true, "Conexión guardada y recargada"));
    let r = saved_reply(Resource::Secret, "s", true, Some("x"));
    assert_eq!((r.status, r.success, r.message.as_str()), (400, false, "Falló load-creds (se revirtió el cambio): x"));
    let r = deleted_reply(Resource::Secret, "s", Some("y"));
    assert_eq!((r.status, r.action.as_str(), r.message.as_str()), (400, "delete", "Falló load-creds (se revirtió el cambio): y"));
    let r = write_failed_reply("s", true, true, "denied");
    assert_eq!((r.status, r.message.as_str()), (500, "Error asegurando permisos del archivo: denied"));
    let r = missing_file_reply(Resource::Connection, "c", false, None);
    assert_eq!((r.status, r.action.as_str(), r.message.as_str()), (404, "read", "Conexión no encontrada"));
    let r = missing_file_reply(Resource::Secret, "s", true, Some("io"));
    assert_eq!((r.status, r.message.as_str()), (500, "Error eliminando secret: io"));
    let r = deleted_reply(Resource::Connection, "c", Some("x"));
    assert_eq!((r.status, r.message.as_str()), (400, "Conexión eliminada pero falló reload: x"));
    assert_eq!(connection_config_of("c", "no section here"), "no section here");
}

#[test]
fn managed_file_names() {
    let files = args(&["bifrost-b.conf", "bifrost-secret-s.conf", "other.conf", "bifrost-a.conf", "bifrost-x.txt"]);
    assert_eq!(managed_names(&files, "bifrost-", ".conf"), vec!["a", "b", "secret-s"]);
    assert_eq!(managed_names(&files, "bifrost-secret-", ".conf"), vec!["s"]);
    let (dir, prefix, suffix) = managed_location(ManagedKind::UserCertificate);
    assert_eq!((dir, prefix, suffix), ("/etc/swanctl/x509", "bifrost-user-", ".crt"));
}

#[test]
fn ctl_write_reports() {
    let create = CtlCommand::ApiKeyCreate { user_name: "ana".to_string() };
    assert!(is_write(&create));
    assert!(!is_write(&CtlCommand::ApiKeyList));
    assert_eq!(write_report(&create, None, 1, "bfg_x"), (false, "API key creada para 'ana': bfg_x".to_string()));
    assert_eq!(write_report(&create, Some("locked"), 0, ""), (true, "Error creando API key: locked".to_string()));
    let disable = CtlCommand::ApiKeySetActive { api_key: "k".to_string(), active: false };
    assert_eq!(write_report(&disable, None, 0, ""), (true, "No se encontro la API key indicada.".to_string()));
    assert_eq!(write_report(&disable, None, 1, ""), (false, "API key deshabilitada.".to_string()));
    let grant = CtlCommand::DocsUserSetManage { username: "bo".to_string(), manage: true };
    assert_eq!(
        write_report(&grant, None, 1, ""),
        (false, "Permiso de administración de response codes concedido a 'bo'.".to_string())
    );
    let del = CtlCommand::ResponseDelete { code: -5 };
    assert_eq!(write_report(&del, None, 0, ""), (true, "No existe el code -5.".to_string()));
    assert_eq!(write_report(&del, Some("x"), 0, ""), (true, "Error eliminando code -5: x".to_string()));
    let lang = CtlCommand::ResponseDelLang { code: 7, lang: "es".to_string() };
    assert_eq!(write_report(&lang, None, 0, ""), (true, "No existe traducción es para code 7.".to_string()));
    assert_eq!(write_report(&lang, None, 2, ""), (false, "Traducción es eliminada para code 7.".to_string()));
    let add = CtlCommand::ResponseAdd { code: 40000, kind: "Peer".to_string(), message_en: "m".to_string() };
    assert_eq!(write_report(&add, None, 0, ""), (false, "Código 40000 guardado/actualizado.".to_string()));
}

#[test]
fn reloads_and_listings() {
    assert_eq!(reload_outcome(false, true, &Vec::new()), Ok(()));
    assert_eq!(reload_outcome(false, false, &b" \n".to_vec()), Err("swanctl --load-conns falló sin detalle".to_string()));
    assert_eq!(reload_outcome(true, false, &b"no creds\n".to_vec()), Err("no creds".to_string()));
    assert_eq!(reload_spawn_error(true, "missing"), "No se pudo ejecutar swanctl --load-creds: missing");
    let r = listing_failed_reply(Resource::Secret, "denied");
    assert_eq!((r.status, r.name.as_str(), r.action.as_str()), (500, "", "list"));
    assert_eq!(r.message, "Error listando secrets: denied");
    assert_eq!(unreadable_secret_reply("s").message, "Archivo de secret inválido");
}

#[test]
fn attaching_certificates() {
    let r = attach_names("bad name", "alice").unwrap_err();
    assert_eq!((r.status, r.action.as_str(), r.message.as_str()), (400, "attach-certificate", "connection_name inválido"));
    let r = attach_names("office", "a b").unwrap_err();
    assert_eq!((r.name.as_str(), r.message.as_str()), ("office", "certificate_name inválido"));
    assert_eq!(attach_names("office", "alice").unwrap(), ("office".to_string(), "alice".to_string()));
    assert_eq!(attach_remote_ca("office", None).unwrap(), None);
    assert_eq!(attach_remote_ca("office", Some("root")).unwrap(), Some("root".to_string()));
    assert_eq!(attach_remote_ca("office", Some("r t")).unwrap_err().message, "remote_ca_name inválido");
    assert_eq!(attach_missing_reply("office", AttachMissing::RemoteCa).message, "La CA remota especificada no existe");
    assert_eq!(attach_missing_reply("office", AttachMissing::Connection).status, 404);
    assert_eq!(attach_io_failed("office", true, "ro").message, "Error escribiendo conexión: ro");
    assert_eq!(attach_refused("office", "local_id no puede ser vacío".to_string()).status, 400);
    assert_eq!(attach_done("office", None).message, "Certificado aplicado a la conexión");
    assert_eq!(attach_done("office", Some("e")).message, "Conexión actualizada pero falló reload: e");
}
