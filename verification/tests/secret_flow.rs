use std::collections::HashMap;

use bifrost_gate::json::JsonValue;
use bifrost_gate::resources::{
    secret_delete_start, secret_lock_failed, secret_step, secret_upsert_start, CrudReply, SecretAction, SecretCtl, SecretEvent, SecretStage,
};
use bifrost_gate::types::SecretType;

/// A directory of files and a reload that fails with `reload_error` when given.
struct Disk {
    files: HashMap<String, String>,
    reload_error: Option<String>,
    write_error: Option<String>,
    reloads: usize,
}

impl Disk {
    fn new() -> Disk {
        Disk { files: HashMap::new(), reload_error: None, write_error: None, reloads: 0 }
    }

    fn perform(&mut self, action: &SecretAction) -> SecretEvent {
        match action {
            SecretAction::CheckExists(p) => SecretEvent::Exists(self.files.contains_key(p)),
            SecretAction::WriteKeeping { path, text } => match &self.write_error {
                Some(e) => SecretEvent::Written(Err(e.clone())),
                None => SecretEvent::Written(Ok(self.files.insert(path.clone(), text.clone()))),
            },
            SecretAction::ReadCurrent(p) => SecretEvent::Read(Ok(self.files.get(p).cloned())),
            SecretAction::Remove(p) => {
                self.files.remove(p);
                SecretEvent::Removed(None)
            }
            SecretAction::ReloadCreds => {
                self.reloads += 1;
                SecretEvent::Reloaded(self.reload_error.clone())
            }
            SecretAction::Restore { path, previous } => {
                match previous {
                    Some(t) => {
                        self.files.insert(path.clone(), t.clone());
                    }
                    None => {
                        self.files.remove(path);
                    }
                }
                SecretEvent::Restored
            }
            SecretAction::Reply(_) => unreachable!(),
        }
    }

    fn run(&mut self, start: (SecretCtl, SecretAction)) -> CrudReply {
        let (mut ctl, mut action) = start;
        loop {
            if let SecretAction::Reply(r) = action {
                assert_eq!(ctl.stage, SecretStage::Done);
                return r;
            }
            let event = self.perform(&action);
            let (c, a) = secret_step(&ctl, event);
            ctl = c;
            action = a;
        }
    }
}

fn config(secret: &str) -> JsonValue {
    JsonValue::Object(vec![
        ("id".to_string(), JsonValue::String("alice@example.org".to_string())),
        ("secret".to_string(), JsonValue::String(secret.to_string())),
    ])
}

const PATH: &str = "/etc/swanctl/conf.d/bifrost-secret-alice.conf";

#[test]
fn creating_then_updating_a_secret() {
    let mut disk = Disk::new();
    let r = disk.run(secret_upsert_start(" alice ", SecretType::Eap, &config("first-secret"), false));
    assert_eq!((r.status, r.name.as_str(), r.action.as_str(), r.success), (201, "alice", "create", true));
    assert_eq!(r.message, "Secret guardado y credenciales recargadas");
    assert!(disk.files[PATH].contains("secret = first-secret"));
    let r = disk.run(secret_upsert_start("alice", SecretType::Eap, &config("second-secret"), true));
    assert_eq!((r.status, r.action.as_str(), r.success), (200, "update", true));
    assert!(disk.files[PATH].contains("secret = second-secret"));
    assert_eq!(disk.reloads, 2);
}

#[test]
fn a_create_finds_a_file_and_an_update_finds_none() {
    let mut disk = Disk::new();
    disk.files.insert(PATH.to_string(), "old".to_string());
    let r = disk.run(secret_upsert_start("alice", SecretType::Eap, &config("long-secret"), false));
    assert_eq!((r.status, r.action.as_str(), r.message.as_str()), (409, "create", "El secret ya existe"));
    assert_eq!(disk.files[PATH], "old");
    let mut empty = Disk::new();
    let r = empty.run(secret_upsert_start("alice", SecretType::Eap, &config("long-secret"), true));
    assert_eq!((r.status, r.action.as_str(), r.message.as_str()), (404, "update", "El secret no existe"));
    assert!(empty.files.is_empty());
    assert_eq!(disk.reloads + empty.reloads, 0);
}

#[test]
fn a_failed_reload_puts_the_previous_file_back() {
    let mut disk = Disk::new();
    disk.files.insert(PATH.to_string(), "old content".to_string());
    disk.reload_error = Some("creds refused".to_string());
    let r = disk.run(secret_upsert_start("alice", SecretType::Eap, &config("new-secret-1"), true));
    assert_eq!((r.status, r.name.as_str(), r.action.as_str(), r.success), (400, "alice", "update", false));
    assert_eq!(r.message, "Falló load-creds (se revirtió el cambio): creds refused");
    assert_eq!(disk.files[PATH], "old content");
}

#[test]
fn a_failed_reload_removes_a_new_file() {
    let mut disk = Disk::new();
    disk.reload_error = Some("boom".to_string());
    let r = disk.run(secret_upsert_start("alice", SecretType::Eap, &config("new-secret-1"), false));
    assert_eq!((r.status, r.action.as_str(), r.message.as_str()), (400, "create", "Falló load-creds (se revirtió el cambio): boom"));
    assert!(!disk.files.contains_key(PATH));
}

#[test]
fn refused_requests_touch_nothing() {
    let mut disk = Disk::new();
    let r = disk.run(secret_upsert_start("a/b", SecretType::Eap, &config("long-secret"), false));
    assert_eq!((r.status, r.name.as_str(), r.action.as_str()), (400, "a/b", "create"));
    assert_eq!(r.message, "secret_name inválido: solo se permiten letras, dígitos, '-', '_' y '.'");
    let r = disk.run(secret_upsert_start(" alice ", SecretType::Eap, &config("short"), true));
    assert_eq!((r.status, r.name.as_str(), r.action.as_str()), (400, " alice ", "update"));
    assert_eq!(r.message, "config.secret debe tener al menos 8 caracteres");
    let r = disk.run(secret_delete_start(""));
    assert_eq!((r.status, r.action.as_str()), (400, "delete"));
    assert!(disk.files.is_empty());
    assert_eq!(disk.reloads, 0);
}

#[test]
fn a_failed_write_answers_under_the_name_as_asked() {
    let mut disk = Disk::new();
    disk.write_error = Some("Error escribiendo archivo: read-only".to_string());
    let r = disk.run(secret_upsert_start(" alice ", SecretType::Eap, &config("long-secret"), false));
    assert_eq!((r.status, r.name.as_str(), r.message.as_str()), (400, " alice ", "Error escribiendo archivo: read-only"));
    assert_eq!(disk.reloads, 0);
}

#[test]
fn deleting_a_secret() {
    let mut disk = Disk::new();
    let r = disk.run(secret_delete_start("alice"));
    assert_eq!((r.status, r.name.as_str(), r.message.as_str()), (404, "alice", "Secret no encontrado"));
    disk.files.insert(PATH.to_string(), "kept".to_string());
    let r = disk.run(secret_delete_start("alice"));
    assert_eq!((r.status, r.action.as_str(), r.success), (200, "delete", true));
    assert_eq!(r.message, "Secret eliminado y credenciales recargadas");
    assert!(disk.files.is_empty());
}

#[test]
fn a_failed_reload_after_a_delete_puts_the_file_back() {
    let mut disk = Disk::new();
    disk.files.insert(PATH.to_string(), "kept".to_string());
    disk.reload_error = Some("down".to_string());
    let r = disk.run(secret_delete_start("alice"));
    assert_eq!((r.status, r.action.as_str(), r.message.as_str()), (400, "delete", "Falló load-creds (se revirtió el cambio): down"));
    assert_eq!(disk.files[PATH], "kept");
}

#[test]
fn read_and_remove_errors_of_a_delete() {
    let ctl = secret_delete_start("alice").0;
    let (c, a) = secret_step(&ctl, SecretEvent::Read(Err("denied".to_string())));
    assert_eq!(c.stage, SecretStage::Done);
    match a {
        SecretAction::Reply(r) => assert_eq!((r.status, r.message.as_str()), (400, "Error leyendo secret: denied")),
        other => panic!("{:?}", other),
    }
    let (c, _) = secret_step(&ctl, SecretEvent::Read(Ok(Some("x".to_string()))));
    let (_, a) = secret_step(&c, SecretEvent::Removed(Some("busy".to_string())));
    match a {
        SecretAction::Reply(r) => assert_eq!((r.status, r.message.as_str()), (400, "Error eliminando secret: busy")),
        other => panic!("{:?}", other),
    }
}

#[test]
fn a_lock_that_cannot_be_taken_answers_400() {
    let (ctl, _) = secret_upsert_start(" alice ", SecretType::Eap, &config("long-secret"), true);
    let r = secret_lock_failed(&ctl, "locked".to_string());
    assert_eq!((r.status, r.name.as_str(), r.action.as_str(), r.success, r.message.as_str()), (400, " alice ", "update", false, "locked"));
    let (ctl, _) = secret_delete_start("bob");
    assert_eq!(secret_lock_failed(&ctl, "x".to_string()).action, "delete");
}
