use std::collections::HashSet;

use bifrost_gate::certificates::{
    ca_params, ca_upsert_start, cert_delete_start, cert_step, user_params, CertAction, CertCtl, CertEvent, CertReply,
    CertStage,
};
use bifrost_gate::json::JsonValue;
use bifrost_gate::resources::{
    attach_start, attach_step, connection_delete_start, connection_step, connection_upsert_start, AttachAction,
    AttachEvent, AttachStage, ConnAction, ConnEvent, ConnStage, CrudReply,
};
use bifrost_gate::types::{CertificateKind, ConnectionCertificateAttachRequest};

/// What the files look like, and how the work asked for turns out.
#[derive(Default)]
struct World {
    files: HashSet<String>,
    contents: Vec<(String, String)>,
    write_error: Option<String>,
    reload_error: Option<String>,
    done: Vec<String>,
}

impl World {
    fn with(files: &[&str]) -> World {
        World { files: files.iter().map(|f| f.to_string()).collect(), ..World::default() }
    }

    fn conn(&mut self, start: (bifrost_gate::resources::ConnCtl, ConnAction)) -> CrudReply {
        let (mut ctl, mut action) = start;
        loop {
            let event = match action {
                ConnAction::Reply(r) => {
                    assert_eq!(ctl.stage, ConnStage::Done);
                    return r;
                }
                ConnAction::CheckExists(p) => ConnEvent::Exists(self.files.contains(&p)),
                ConnAction::Write { path, text } => {
                    self.done.push(format!("write {}", path));
                    self.contents.push((path.clone(), text));
                    ConnEvent::Written(self.write_error.clone())
                }
                ConnAction::Remove(p) => {
                    if self.files.remove(&p) {
                        self.done.push(format!("remove {}", p));
                        ConnEvent::Removed
                    } else {
                        ConnEvent::Missing
                    }
                }
                ConnAction::ReloadConns => {
                    self.done.push("reload".to_string());
                    ConnEvent::Reloaded(self.reload_error.clone())
                }
            };
            let (c, a) = connection_step(&ctl, event);
            ctl = c;
            action = a;
        }
    }

    fn cert(&mut self, start: (CertCtl, CertAction)) -> CertReply {
        let (mut ctl, mut action) = start;
        loop {
            let event = match action {
                CertAction::Reply(r) => {
                    assert_eq!(ctl.stage, CertStage::Done);
                    return r;
                }
                CertAction::CheckExists(p) => CertEvent::Exists(self.files.contains(&p)),
                CertAction::PrepareDirectories => {
                    self.done.push("dirs".to_string());
                    CertEvent::Prepared(None)
                }
                CertAction::CheckCa { cert_path, key_path } => {
                    CertEvent::CaFound(self.files.contains(&cert_path) && self.files.contains(&key_path))
                }
                CertAction::Generate { cert_path, key_path } => {
                    self.done.push(format!("generate {} {}", cert_path, key_path));
                    CertEvent::Generated(self.write_error.clone())
                }
                CertAction::Remove { cert_path, key_path } => {
                    self.files.remove(&cert_path);
                    self.files.remove(&key_path);
                    self.done.push(format!("remove {}", cert_path));
                    CertEvent::Removed(None)
                }
                CertAction::ReloadCreds => {
                    self.done.push("reload".to_string());
                    CertEvent::Reloaded(self.reload_error.clone())
                }
            };
            let (c, a) = cert_step(&ctl, event);
            ctl = c;
            action = a;
        }
    }

    fn attach(&mut self, raw: &str, p: &ConnectionCertificateAttachRequest) -> CrudReply {
        let (mut ctl, mut action) = attach_start(raw, p);
        loop {
            let event = match action {
                AttachAction::Reply(r) => {
                    assert_eq!(ctl.stage, AttachStage::Done);
                    return r;
                }
                AttachAction::CheckExists(path) => AttachEvent::Exists(self.files.contains(&path)),
                AttachAction::Read(path) => {
                    AttachEvent::Read(Ok(self.contents.iter().find(|(p, _)| *p == path).map(|(_, t)| t.clone())))
                }
                AttachAction::Write { path, text } => {
                    self.done.push(format!("write {}", path));
                    self.contents.push((path, text));
                    AttachEvent::Written(self.write_error.clone())
                }
                AttachAction::ReloadConns => {
                    self.done.push("reload".to_string());
                    AttachEvent::Reloaded(self.reload_error.clone())
                }
            };
            let (c, a) = attach_step(&ctl, event, p);
            ctl = c;
            action = a;
        }
    }
}

fn config() -> JsonValue {
    JsonValue::Object(vec![("version".to_string(), JsonValue::Number("2".to_string()))])
}

const CONN: &str = "/etc/swanctl/conf.d/bifrost-office.conf";

#[test]
fn connection_writes_go_through_their_checks_in_order() {
    let mut w = World::default();
    let r = w.conn(connection_upsert_start("office", &config(), false));
    assert_eq!((r.status, r.name.as_str(), r.action.as_str(), r.message.as_str()), (201, "office", "create", "Conexión guardada y recargada"));
    assert_eq!(w.done, vec![format!("write {}", CONN), "reload".to_string()]);
    let mut w = World::with(&[CONN]);
    let r = w.conn(connection_upsert_start("office", &config(), false));
    assert_eq!((r.status, r.message.as_str()), (409, "La conexión ya existe"));
    let r = w.conn(connection_upsert_start("home", &config(), true));
    assert_eq!((r.status, r.action.as_str(), r.message.as_str()), (404, "update", "La conexión no existe"));
    let r = w.conn(connection_upsert_start("bad name", &config(), true));
    assert_eq!((r.status, r.name.as_str(), r.message.as_str()), (400, "bad name", "connection_name inválido"));
    let r = w.conn(connection_upsert_start("office", &JsonValue::Object(vec![]), true));
    assert_eq!((r.status, r.message.as_str()), (400, "config es requerido"));
    assert!(w.done.is_empty());
}

#[test]
fn connection_write_and_reload_failures() {
    let mut w = World::with(&[CONN]);
    w.write_error = Some("disk full".to_string());
    let r = w.conn(connection_upsert_start("office", &config(), true));
    assert_eq!((r.status, r.message.as_str()), (500, "Error escribiendo archivo: disk full"));
    assert_eq!(w.done.len(), 1);
    let mut w = World::with(&[CONN]);
    w.reload_error = Some("bad conf".to_string());
    let r = w.conn(connection_upsert_start("office", &config(), true));
    assert_eq!((r.status, r.action.as_str(), r.message.as_str()), (400, "update", "Conexión guardada pero falló reload: bad conf"));
}

#[test]
fn connection_deletes() {
    let mut w = World::with(&[CONN]);
    let r = w.conn(connection_delete_start(" office "));
    assert_eq!((r.status, r.name.as_str(), r.message.as_str()), (200, "office", "Conexión eliminada y recargada"));
    let r = w.conn(connection_delete_start("office"));
    assert_eq!((r.status, r.action.as_str(), r.message.as_str()), (404, "delete", "Conexión no encontrada"));
    let ctl = connection_delete_start("office").0;
    match connection_step(&ctl, ConnEvent::RemoveFailed("busy".to_string())).1 {
        ConnAction::Reply(r) => assert_eq!((r.status, r.message.as_str()), (500, "Error eliminando conexión: busy")),
        other => panic!("{:?}", other),
    }
    let mut w = World::with(&[CONN]);
    w.reload_error = Some("x".to_string());
    let r = w.conn(connection_delete_start("office"));
    assert_eq!((r.status, r.message.as_str()), (400, "Conexión eliminada pero falló reload: x"));
    assert!(w.files.is_empty());
}

const ROOT_CRT: &str = "/etc/swanctl/x509ca/bifrost-ca-root.crt";
const ROOT_KEY: &str = "/etc/swanctl/private/bifrost-ca-root.key";

#[test]
fn making_a_ca() {
    let mut w = World::default();
    let p = ca_params("Root CA".to_string(), None, None, None, None);
    let r = w.cert(ca_upsert_start("root", &p, false));
    assert_eq!((r.status, r.body.kind, r.body.action.as_str()), (201, CertificateKind::Ca, "create"));
    assert_eq!(r.body.message, "CA generada y credenciales recargadas");
    assert_eq!(w.done, vec!["dirs".to_string(), format!("generate {} {}", ROOT_CRT, ROOT_KEY), "reload".to_string()]);
    let blank = ca_params(" ".to_string(), None, None, None, None);
    let r = w.cert(ca_upsert_start("root", &blank, false));
    assert_eq!((r.status, r.body.message.as_str()), (400, "common_name es requerido"));
    let mut w = World::with(&[ROOT_CRT]);
    let r = w.cert(ca_upsert_start("root", &p, false));
    assert_eq!((r.status, r.body.message.as_str()), (409, "La CA ya existe"));
    w.write_error = Some("openssl: bad".to_string());
    let r = w.cert(ca_upsert_start("root", &p, true));
    assert_eq!((r.status, r.body.message.as_str()), (400, "No se pudo generar la CA: openssl: bad"));
}

#[test]
fn making_a_user_certificate_needs_its_ca() {
    let p = user_params("root".to_string(), "alice@example.org".to_string(), None, None, None);
    let mut w = World::with(&[ROOT_CRT]);
    let r = w.cert(bifrost_gate::certificates::user_upsert_start("alice", &p, false));
    assert_eq!((r.status, r.body.kind, r.body.message.as_str()), (404, CertificateKind::User, "La CA especificada no existe o está incompleta"));
    assert_eq!(w.done, vec!["dirs".to_string()]);
    let mut w = World::with(&[ROOT_CRT, ROOT_KEY]);
    w.reload_error = Some("down".to_string());
    let r = w.cert(bifrost_gate::certificates::user_upsert_start("alice", &p, false));
    assert_eq!((r.status, r.body.message.as_str()), (400, "Certificado de usuario generado pero falló load-creds: down"));
    assert_eq!(
        w.done[1],
        "generate /etc/swanctl/x509/bifrost-user-alice.crt /etc/swanctl/private/bifrost-user-alice.key"
    );
}

#[test]
fn removing_certificates() {
    let mut w = World::with(&[ROOT_CRT, ROOT_KEY]);
    let r = w.cert(cert_delete_start("root", CertificateKind::Ca));
    assert_eq!((r.status, r.body.action.as_str(), r.body.message.as_str()), (200, "delete", "Certificado eliminado y credenciales recargadas"));
    assert!(w.files.is_empty());
    let r = w.cert(cert_delete_start("root", CertificateKind::Ca));
    assert_eq!((r.status, r.body.message.as_str()), (404, "Certificado no encontrado"));
    let r = w.cert(cert_delete_start("a b", CertificateKind::User));
    assert_eq!((r.status, r.body.name.as_str(), r.body.message.as_str()), (400, "a b", "name inválido"));
}

fn attach(cert: &str, ca: Option<&str>) -> ConnectionCertificateAttachRequest {
    ConnectionCertificateAttachRequest {
        certificate_name: cert.to_string(),
        local_id: None,
        remote_ca_name: ca.map(|v| v.to_string()),
        set_remote_auth_pubkey: None,
    }
}

const ALICE_CRT: &str = "/etc/swanctl/x509/bifrost-user-alice.crt";

#[test]
fn attaching_goes_through_its_checks_in_order() {
    let mut w = World::default();
    let r = w.attach("office", &attach("alice", Some("r o o t")));
    assert_eq!((r.status, r.action.as_str(), r.message.as_str()), (404, "attach-certificate", "El certificado de usuario no existe"));
    let mut w = World::with(&[ALICE_CRT]);
    let r = w.attach("office", &attach("alice", Some("r o o t")));
    assert_eq!((r.status, r.message.as_str()), (400, "remote_ca_name inválido"));
    let r = w.attach("office", &attach("alice", Some("root")));
    assert_eq!((r.status, r.message.as_str()), (404, "La CA remota especificada no existe"));
    let r = w.attach("office", &attach("alice", None));
    assert_eq!((r.status, r.message.as_str()), (404, "La conexión no existe"));
    assert!(w.done.is_empty());
}

#[test]
fn attaching_rewrites_and_reloads_the_connection() {
    let mut w = World::with(&[ALICE_CRT, ROOT_CRT]);
    w.contents.push((CONN.to_string(), "connections {\n  office {\n    local {\n      auth = psk\n    }\n  }\n}\n".to_string()));
    let r = w.attach("office", &attach("alice", Some("root")));
    assert_eq!((r.status, r.name.as_str(), r.message.as_str()), (200, "office", "Certificado aplicado a la conexión"));
    assert_eq!(w.done, vec![format!("write {}", CONN), "reload".to_string()]);
    let written = &w.contents.last().unwrap().1;
    assert!(written.contains("certs = x509/bifrost-user-alice.crt"));
    assert!(written.contains("cacerts = x509ca/bifrost-ca-root.crt"));
}
