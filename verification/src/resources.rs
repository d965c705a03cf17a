//! The decisions of the API on the connections and secrets kept as swanctl files:
//! what is written for a request, and what each outcome is answered.
//!
//! Reading and writing the files and reloading swanctl are left to the caller,
//! which hands each outcome back.
use vstd::prelude::*;

use crate::connections::{
    attach_certificate_file, attach_ok, attached, ca_cert_path, ca_certificate_cert_path, editable_body,
    user_cert_path, user_certificate_cert_path,
    body_from_json, build_connection_conf, build_secret_conf, connection_body, connection_conf,
    connection_file_path, connection_path, extract_connection_body, render_connection_body_from_json,
    safe_name, sanitize_connection_name, sanitize_secret_name, secret_conf, secret_file_path,
    secret_path, string_views,
};
use crate::json::JsonValue;
use crate::models::{opt_view, owned};
use crate::secrets::{secret_lines, validate_and_render_secret_config};
use crate::access::{lossy_text, utf8_lossy};
use crate::text::{append_str, chars_to_string, str_chars, trim, trim_str};
use crate::types::{ConnectionCertificateAttachRequest, SecretType};

verus! {

/// The kind of file a request is about.
#[derive(Debug, Clone, Copy, PartialEq, Eq, Structural)]
pub enum Resource {
    Connection,
    Secret,
}

/// The answer to a request on a connection or a secret: its HTTP status, the name
/// it is about, the action, whether it succeeded and a message.
#[derive(Debug)]
pub struct CrudReply {
    pub status: u16,
    pub name: String,
    pub action: String,
    pub success: bool,
    pub message: String,
}

pub open spec fn reply_is(r: CrudReply, status: u16, name: Seq<char>, action: Seq<char>, success: bool, message: Seq<char>) -> bool {
    &&& r.status == status
    &&& r.name@ == name
    &&& r.action@ == action
    &&& r.success == success
    &&& r.message@ == message
}

fn crud_reply(status: u16, name: &str, action: &str, success: bool, message: String) -> (r: CrudReply)
    ensures
        reply_is(r, status, name@, action@, success, message@),
{
    CrudReply { status, name: owned(name), action: owned(action), success, message }
}

fn text2(a: &str, b: &str) -> (r: String)
    ensures
        r@ == a@ + b@,
{
    let mut v = str_chars(a);
    append_str(&mut v, b);
    chars_to_string(&v)
}

/// The action of a write: `update` or `create`.
pub open spec fn write_action(update: bool) -> Seq<char> {
    if update {
        "update"@
    } else {
        "create"@
    }
}

pub fn write_action_name(update: bool) -> (r: &'static str)
    ensures
        r@ == write_action(update),
{
    if update {
        "update"
    } else {
        "create"
    }
}

/// The message for a name that is not a safe one.
pub open spec fn invalid_name_text(res: Resource) -> Seq<char> {
    if res == Resource::Connection {
        "connection_name inválido"@
    } else {
        "secret_name inválido: solo se permiten letras, dígitos, '-', '_' y '.'"@
    }
}

pub fn invalid_name_reply(res: Resource, raw_name: &str, action: &str) -> (r: CrudReply)
    ensures
        reply_is(r, 400, raw_name@, action@, false, invalid_name_text(res)),
{
    let m = if res == Resource::Connection {
        owned("connection_name inválido")
    } else {
        owned("secret_name inválido: solo se permiten letras, dígitos, '-', '_' y '.'")
    };
    crud_reply(400, raw_name, action, false, m)
}

/// A file to write: the safe name, the file's path and its text.
#[derive(Debug)]
pub struct PlannedWrite {
    pub name: String,
    pub path: String,
    pub text: String,
}

/// What writing a connection from its JSON configuration comes to: the safe
/// name, then the body; refused (400) for an unsafe name, a configuration that
/// cannot be written, or one that writes nothing.
pub fn prepare_connection_upsert(connection_name: &str, config: &JsonValue, update: bool) -> (r: Result<PlannedWrite, CrudReply>)
    ensures
        match r {
            Err(rep) => match safe_name(connection_name@) {
                None => reply_is(rep, 400, connection_name@, write_action(update), false, "connection_name inválido"@),
                Some(n) => match body_from_json(*config) {
                    Err(m) => reply_is(rep, 400, n, write_action(update), false, m),
                    Ok(b) => trim(b).len() == 0 && reply_is(rep, 400, n, write_action(update), false, "config es requerido"@),
                },
            },
            Ok(w) => match (safe_name(connection_name@), body_from_json(*config)) {
                (Some(n), Ok(b)) => {
                    &&& w.name@ == n
                    &&& trim(b).len() > 0
                    &&& w.path@ == connection_path(n)
                    &&& w.text@ == connection_conf(n, b)
                },
                _ => false,
            },
        },
{
    let action = write_action_name(update);
    let name = match sanitize_connection_name(connection_name) {
        Some(n) => n,
        None => return Err(invalid_name_reply(Resource::Connection, connection_name, action)),
    };
    let body = match render_connection_body_from_json(config) {
        Ok(b) => b,
        Err(m) => return Err(crud_reply(400, name.as_str(), action, false, m)),
    };
    if trim_str(body.as_str()).len() == 0 {
        return Err(crud_reply(400, name.as_str(), action, false, owned("config es requerido")));
    }
    let path = connection_file_path(name.as_str());
    let text = build_connection_conf(name.as_str(), body.as_str());
    Ok(PlannedWrite { name, path, text })
}

/// A create of an existing file is a conflict (409); an update of a missing one is
/// not found (404); otherwise the write goes ahead (`None`).
pub fn existence_refusal(res: Resource, name: &str, update: bool, exists: bool) -> (r: Option<CrudReply>)
    ensures
        match r {
            None => update == exists,
            Some(rep) => {
                &&& update != exists
                &&& !update ==> reply_is(
                    rep,
                    409,
                    name@,
                    "create"@,
                    false,
                    if res == Resource::Connection {
                        "La conexión ya existe"@
                    } else {
                        "El secret ya existe"@
                    },
                )
                &&& update ==> reply_is(
                    rep,
                    404,
                    name@,
                    "update"@,
                    false,
                    if res == Resource::Connection {
                        "La conexión no existe"@
                    } else {
                        "El secret no existe"@
                    },
                )
            },
        },
{
    if !update && exists {
        let m = if res == Resource::Connection {
            owned("La conexión ya existe")
        } else {
            owned("El secret ya existe")
        };
        Some(crud_reply(409, name, "create", false, m))
    } else if update && !exists {
        let m = if res == Resource::Connection {
            owned("La conexión no existe")
        } else {
            owned("El secret no existe")
        };
        Some(crud_reply(404, name, "update", false, m))
    } else {
        None
    }
}

/// The answer when the file could not be written (or, for a secret, made private).
pub fn write_failed_reply(name: &str, update: bool, permissions: bool, error: &str) -> (r: CrudReply)
    ensures
        reply_is(
            r,
            500,
            name@,
            write_action(update),
            false,
            if permissions {
                "Error asegurando permisos del archivo: "@ + error@
            } else {
                "Error escribiendo archivo: "@ + error@
            },
        ),
{
    let m = if permissions {
        text2("Error asegurando permisos del archivo: ", error)
    } else {
        text2("Error escribiendo archivo: ", error)
    };
    crud_reply(500, name, write_action_name(update), false, m)
}

/// The answer once the file is written and swanctl asked to reload: 200 for an
/// update or 201 for a create; 400 when the reload failed with `reload_error` (for
/// a secret, once the file has been put back as it was).
pub fn saved_reply(res: Resource, name: &str, update: bool, reload_error: Option<&str>) -> (r: CrudReply)
    ensures
        match reload_error {
            None => reply_is(
                r,
                if update {
                    200u16
                } else {
                    201u16
                },
                name@,
                write_action(update),
                true,
                if res == Resource::Connection {
                    "Conexión guardada y recargada"@
                } else {
                    "Secret guardado y credenciales recargadas"@
                },
            ),
            Some(e) => reply_is(
                r,
                400,
                name@,
                write_action(update),
                false,
                if res == Resource::Connection {
                    "Conexión guardada pero falló reload: "@ + e@
                } else {
                    reverted_text(e@)
                },
            ),
        },
{
    let action = write_action_name(update);
    match reload_error {
        None => {
            let status: u16 = if update {
                200
            } else {
                201
            };
            let m = if res == Resource::Connection {
                owned("Conexión guardada y recargada")
            } else {
                owned("Secret guardado y credenciales recargadas")
            };
            crud_reply(status, name, action, true, m)
        },
        Some(e) => {
            let m = if res == Resource::Connection {
                text2("Conexión guardada pero falló reload: ", e)
            } else {
                text2("Falló load-creds (se revirtió el cambio): ", e)
            };
            crud_reply(400, name, action, false, m)
        },
    }
}

/// The answer when the file to read or delete could not be: not found (404), or
/// another error (500).
pub fn missing_file_reply(res: Resource, name: &str, delete: bool, error: Option<&str>) -> (r: CrudReply)
    ensures
        match error {
            None => reply_is(
                r,
                404,
                name@,
                if delete {
                    "delete"@
                } else {
                    "read"@
                },
                false,
                if res == Resource::Connection {
                    "Conexión no encontrada"@
                } else {
                    "Secret no encontrado"@
                },
            ),
            Some(e) => reply_is(
                r,
                500,
                name@,
                if delete {
                    "delete"@
                } else {
                    "read"@
                },
                false,
                (if delete {
                    "Error eliminando "@
                } else {
                    "Error leyendo "@
                }) + (if res == Resource::Connection {
                    "conexión: "@
                } else {
                    "secret: "@
                }) + e@,
            ),
        },
{
    let action = if delete {
        "delete"
    } else {
        "read"
    };
    match error {
        None => {
            let m = if res == Resource::Connection {
                owned("Conexión no encontrada")
            } else {
                owned("Secret no encontrado")
            };
            crud_reply(404, name, action, false, m)
        },
        Some(e) => {
            let mut v = if delete {
                str_chars("Error eliminando ")
            } else {
                str_chars("Error leyendo ")
            };
            if res == Resource::Connection {
                append_str(&mut v, "conexión: ");
            } else {
                append_str(&mut v, "secret: ");
            }
            append_str(&mut v, e);
            crud_reply(500, name, action, false, chars_to_string(&v))
        },
    }
}

/// The answer once the file is deleted and swanctl asked to reload: 200, or 400
/// when the reload failed with `reload_error` (for a secret, once the file has been
/// put back).
pub fn deleted_reply(res: Resource, name: &str, reload_error: Option<&str>) -> (r: CrudReply)
    ensures
        match reload_error {
            None => reply_is(
                r,
                200,
                name@,
                "delete"@,
                true,
                if res == Resource::Connection {
                    "Conexión eliminada y recargada"@
                } else {
                    "Secret eliminado y credenciales recargadas"@
                },
            ),
            Some(e) => reply_is(
                r,
                400,
                name@,
                "delete"@,
                false,
                if res == Resource::Connection {
                    "Conexión eliminada pero falló reload: "@ + e@
                } else {
                    reverted_text(e@)
                },
            ),
        },
{
    match reload_error {
        None => {
            let m = if res == Resource::Connection {
                owned("Conexión eliminada y recargada")
            } else {
                owned("Secret eliminado y credenciales recargadas")
            };
            crud_reply(200, name, "delete", true, m)
        },
        Some(e) => {
            let m = if res == Resource::Connection {
                text2("Conexión eliminada pero falló reload: ", e)
            } else {
                text2("Falló load-creds (se revirtió el cambio): ", e)
            };
            crud_reply(400, name, "delete", false, m)
        },
    }
}

/// A secret file that cannot be read back as a configuration.
pub fn unreadable_secret_reply(name: &str) -> (r: CrudReply)
    ensures
        reply_is(r, 500, name@, "read"@, false, "Archivo de secret inválido"@),
{
    crud_reply(500, name, "read", false, owned("Archivo de secret inválido"))
}

/// A listing of the managed files that failed.
pub fn listing_failed_reply(res: Resource, error: &str) -> (r: CrudReply)
    ensures
        reply_is(
            r,
            500,
            Seq::empty(),
            "list"@,
            false,
            (if res == Resource::Connection {
                "Error listando conexiones: "@
            } else {
                "Error listando secrets: "@
            }) + error@,
        ),
{
    let m = if res == Resource::Connection {
        text2("Error listando conexiones: ", error)
    } else {
        text2("Error listando secrets: ", error)
    };
    proof {
        reveal_strlit("");
        assert(""@ =~= Seq::<char>::empty());
    }
    crud_reply(500, "", "list", false, m)
}

/// The option of `swanctl` that reloads the connections, or the credentials.
pub open spec fn reload_option(credentials: bool) -> Seq<char> {
    if credentials {
        "--load-creds"@
    } else {
        "--load-conns"@
    }
}

pub fn reload_option_name(credentials: bool) -> (r: &'static str)
    ensures
        r@ == reload_option(credentials),
{
    if credentials {
        "--load-creds"
    } else {
        "--load-conns"
    }
}

/// How a reload by `swanctl` ended: its standard error read as UTF-8 and trimmed
/// when it failed, or `swanctl <option> falló sin detalle` when that is blank.
pub fn reload_outcome(credentials: bool, success: bool, stderr: &Vec<u8>) -> (r: Result<(), String>)
    ensures
        success <==> r is Ok,
        r matches Err(e) ==> e@ == (if trim(utf8_lossy(stderr@)).len() == 0 {
            "swanctl "@ + reload_option(credentials) + " falló sin detalle"@
        } else {
            trim(utf8_lossy(stderr@))
        }),
{
    if success {
        return Ok(());
    }
    let t = trim_str(lossy_text(stderr).as_str());
    if t.len() == 0 {
        let mut v = str_chars("swanctl ");
        append_str(&mut v, reload_option_name(credentials));
        append_str(&mut v, " falló sin detalle");
        Err(chars_to_string(&v))
    } else {
        Err(chars_to_string(&t))
    }
}

/// The message when `swanctl` cannot be started to reload.
pub fn reload_spawn_error(credentials: bool, error: &str) -> (r: String)
    ensures
        r@ == "No se pudo ejecutar swanctl "@ + reload_option(credentials) + ": "@ + error@,
{
    let mut v = str_chars("No se pudo ejecutar swanctl ");
    append_str(&mut v, reload_option_name(credentials));
    append_str(&mut v, ": ");
    append_str(&mut v, error);
    chars_to_string(&v)
}

// ───────────────────────────── attaching a certificate ─────────────────────────────

fn attach_reply(status: u16, name: &str, success: bool, message: String) -> (r: CrudReply)
    ensures
        reply_is(r, status, name@, "attach-certificate"@, success, message@),
{
    crud_reply(status, name, "attach-certificate", success, message)
}

/// The safe names of the connection and of the certificate to attach, or the
/// refusal (400) of the first that is not safe.
pub fn attach_names(connection_name: &str, certificate_name: &str) -> (r: Result<(String, String), CrudReply>)
    ensures
        match r {
            Ok((c, k)) => safe_name(connection_name@) == Some(c@) && safe_name(certificate_name@) == Some(k@),
            Err(rep) => match safe_name(connection_name@) {
                None => reply_is(rep, 400, connection_name@, "attach-certificate"@, false, "connection_name inválido"@),
                Some(c) => safe_name(certificate_name@) is None && reply_is(
                    rep,
                    400,
                    c,
                    "attach-certificate"@,
                    false,
                    "certificate_name inválido"@,
                ),
            },
        },
{
    let conn = match sanitize_connection_name(connection_name) {
        Some(c) => c,
        None => return Err(attach_reply(400, connection_name, false, owned("connection_name inválido"))),
    };
    match crate::connections::sanitize_certificate_name(certificate_name) {
        Some(k) => Ok((conn, k)),
        None => Err(attach_reply(400, conn.as_str(), false, owned("certificate_name inválido"))),
    }
}

/// The safe name of the remote CA asked for, if one is, or the refusal (400).
pub fn attach_remote_ca(connection: &str, remote_ca_name: Option<&str>) -> (r: Result<Option<String>, CrudReply>)
    ensures
        match remote_ca_name {
            None => r == Ok::<Option<String>, CrudReply>(None),
            Some(ca) => match r {
                Ok(Some(n)) => safe_name(ca@) == Some(n@),
                Ok(None) => false,
                Err(rep) => safe_name(ca@) is None && reply_is(
                    rep,
                    400,
                    connection@,
                    "attach-certificate"@,
                    false,
                    "remote_ca_name inválido"@,
                ),
            },
        },
{
    match remote_ca_name {
        None => Ok(None),
        Some(ca) => match crate::connections::sanitize_certificate_name(ca) {
            Some(n) => Ok(Some(n)),
            None => Err(attach_reply(400, connection, false, owned("remote_ca_name inválido"))),
        },
    }
}

/// A file that an attachment needs and that is missing.
#[derive(Debug, Clone, Copy, PartialEq, Eq, Structural)]
pub enum AttachMissing {
    UserCertificate,
    RemoteCa,
    Connection,
}

pub open spec fn attach_missing_text(m: AttachMissing) -> Seq<char> {
    match m {
        AttachMissing::UserCertificate => "El certificado de usuario no existe"@,
        AttachMissing::RemoteCa => "La CA remota especificada no existe"@,
        AttachMissing::Connection => "La conexión no existe"@,
    }
}

pub fn attach_missing_reply(connection: &str, missing: AttachMissing) -> (r: CrudReply)
    ensures
        reply_is(r, 404, connection@, "attach-certificate"@, false, attach_missing_text(missing)),
{
    let m = match missing {
        AttachMissing::UserCertificate => owned("El certificado de usuario no existe"),
        AttachMissing::RemoteCa => owned("La CA remota especificada no existe"),
        AttachMissing::Connection => owned("La conexión no existe"),
    };
    attach_reply(404, connection, false, m)
}

/// The connection file could not be read (500), or written (500).
pub fn attach_io_failed(connection: &str, writing: bool, error: &str) -> (r: CrudReply)
    ensures
        reply_is(
            r,
            500,
            connection@,
            "attach-certificate"@,
            false,
            (if writing {
                "Error escribiendo conexión: "@
            } else {
                "Error leyendo conexión: "@
            }) + error@,
        ),
{
    let m = if writing {
        text2("Error escribiendo conexión: ", error)
    } else {
        text2("Error leyendo conexión: ", error)
    };
    attach_reply(500, connection, false, m)
}

/// The configuration refused the certificate (400) with `message`.
pub fn attach_refused(connection: &str, message: String) -> (r: CrudReply)
    ensures
        reply_is(r, 400, connection@, "attach-certificate"@, false, message@),
{
    attach_reply(400, connection, false, message)
}

/// The answer once the connection is written, by the outcome of the reload.
pub fn attach_done(connection: &str, reload_error: Option<&str>) -> (r: CrudReply)
    ensures
        match reload_error {
            None => reply_is(r, 200, connection@, "attach-certificate"@, true, "Certificado aplicado a la conexión"@),
            Some(e) => reply_is(
                r,
                400,
                connection@,
                "attach-certificate"@,
                false,
                "Conexión actualizada pero falló reload: "@ + e@,
            ),
        },
{
    match reload_error {
        None => attach_reply(200, connection, true, owned("Certificado aplicado a la conexión")),
        Some(e) => attach_reply(400, connection, false, text2("Conexión actualizada pero falló reload: ", e)),
    }
}

/// The configuration shown of a connection file: the body of its section, or the
/// whole file when that cannot be found.
pub fn connection_config_of(name: &str, content: &str) -> (r: String)
    ensures
        r@ == match connection_body(name@, content@) {
            Some(b) => b,
            None => content@,
        },
{
    match extract_connection_body(name, content) {
        Some(b) => b,
        None => owned(content),
    }
}


// ───────────────────────────── writing and deleting secrets ─────────────────────────────

/// Where a request on a secret stands. Each stage waits for the outcome of the work
/// it asked for; `Done` has answered.
#[derive(Debug, Clone, Copy, PartialEq, Eq, Structural)]
pub enum SecretStage {
    /// Waiting to know whether the file exists.
    Checking,
    /// Waiting for the file to be written, with what it held before.
    Writing,
    /// Waiting for the current content of the file to be read.
    Reading,
    /// Waiting for the file to be removed.
    Removing,
    /// Waiting for the credentials to be reloaded.
    Reloading,
    /// Waiting for the file to be put back as it was.
    Restoring,
    Done,
}

/// A request on a secret under way: the name as asked and as made safe, whether it
/// updates or deletes, the file and the text to write, what the file held before,
/// the error of a failed reload, and the stage.
#[derive(Debug)]
pub struct SecretCtl {
    pub raw_name: String,
    pub name: String,
    pub update: bool,
    pub delete: bool,
    pub path: String,
    pub text: String,
    pub backup: Option<String>,
    pub error: String,
    pub stage: SecretStage,
}

pub type SecretCtlModel = (Seq<char>, Seq<char>, bool, bool, Seq<char>, Seq<char>, Option<Seq<char>>, Seq<char>, SecretStage);

pub open spec fn ctl_model(c: SecretCtl) -> SecretCtlModel {
    (c.raw_name@, c.name@, c.update, c.delete, c.path@, c.text@, opt_view(c.backup), c.error@, c.stage)
}

/// The work asked of the caller, all while it holds the swanctl lock, or the answer.
#[derive(Debug)]
pub enum SecretAction {
    /// Find whether the file exists.
    CheckExists(String),
    /// Write `text` to the file, readable by its owner only, and tell what it held
    /// before (`None` when it did not exist).
    WriteKeeping { path: String, text: String },
    /// Read the file (`None` when it does not exist).
    ReadCurrent(String),
    /// Remove the file.
    Remove(String),
    /// Reload the credentials (`swanctl --load-creds`).
    ReloadCreds,
    /// Put the file back: with the content it held, or removed when it held none.
    Restore { path: String, previous: Option<String> },
    Reply(CrudReply),
}

pub enum SecretActionModel {
    CheckExists(Seq<char>),
    WriteKeeping(Seq<char>, Seq<char>),
    ReadCurrent(Seq<char>),
    Remove(Seq<char>),
    ReloadCreds,
    Restore(Seq<char>, Option<Seq<char>>),
    Reply(u16, Seq<char>, Seq<char>, bool, Seq<char>),
}

impl View for SecretAction {
    type V = SecretActionModel;

    open spec fn view(&self) -> SecretActionModel {
        match self {
            SecretAction::CheckExists(p) => SecretActionModel::CheckExists(p@),
            SecretAction::WriteKeeping { path, text } => SecretActionModel::WriteKeeping(path@, text@),
            SecretAction::ReadCurrent(p) => SecretActionModel::ReadCurrent(p@),
            SecretAction::Remove(p) => SecretActionModel::Remove(p@),
            SecretAction::ReloadCreds => SecretActionModel::ReloadCreds,
            SecretAction::Restore { path, previous } => SecretActionModel::Restore(path@, opt_view(*previous)),
            SecretAction::Reply(r) => SecretActionModel::Reply(r.status, r.name@, r.action@, r.success, r.message@),
        }
    }
}

/// The outcome of the work last asked for.
#[derive(Debug)]
pub enum SecretEvent {
    /// Whether the file exists.
    Exists(bool),
    /// The file was written, and held this before; or why it was not.
    Written(Result<Option<String>, String>),
    /// The file's content (`None`: it does not exist); or why it could not be read.
    Read(Result<Option<String>, String>),
    /// The file was removed (`None`), or why it was not.
    Removed(Option<String>),
    /// The credentials were reloaded (`None`), or why they were not.
    Reloaded(Option<String>),
    /// The file was put back.
    Restored,
}

pub enum SecretEventModel {
    Exists(bool),
    Written(Result<Option<Seq<char>>, Seq<char>>),
    Read(Result<Option<Seq<char>>, Seq<char>>),
    Removed(Option<Seq<char>>),
    Reloaded(Option<Seq<char>>),
    Restored,
}

pub open spec fn kept_view(r: Result<Option<String>, String>) -> Result<Option<Seq<char>>, Seq<char>> {
    match r {
        Ok(o) => Ok(opt_view(o)),
        Err(e) => Err(e@),
    }
}

impl View for SecretEvent {
    type V = SecretEventModel;

    open spec fn view(&self) -> SecretEventModel {
        match self {
            SecretEvent::Exists(b) => SecretEventModel::Exists(*b),
            SecretEvent::Written(r) => SecretEventModel::Written(kept_view(*r)),
            SecretEvent::Read(r) => SecretEventModel::Read(kept_view(*r)),
            SecretEvent::Removed(e) => SecretEventModel::Removed(opt_view(*e)),
            SecretEvent::Reloaded(e) => SecretEventModel::Reloaded(opt_view(*e)),
            SecretEvent::Restored => SecretEventModel::Restored,
        }
    }
}

/// The event that each stage waits for.
pub open spec fn awaits(stage: SecretStage, e: SecretEventModel) -> bool {
    match e {
        SecretEventModel::Exists(_) => stage == SecretStage::Checking,
        SecretEventModel::Written(_) => stage == SecretStage::Writing,
        SecretEventModel::Read(_) => stage == SecretStage::Reading,
        SecretEventModel::Removed(_) => stage == SecretStage::Removing,
        SecretEventModel::Reloaded(_) => stage == SecretStage::Reloading,
        SecretEventModel::Restored => stage == SecretStage::Restoring,
    }
}

/// The work that each stage has asked for: the stage waits for its outcome, and
/// `Done` goes with the answer.
pub open spec fn asks(stage: SecretStage, a: SecretActionModel) -> bool {
    match a {
        SecretActionModel::CheckExists(_) => stage == SecretStage::Checking,
        SecretActionModel::WriteKeeping(_, _) => stage == SecretStage::Writing,
        SecretActionModel::ReadCurrent(_) => stage == SecretStage::Reading,
        SecretActionModel::Remove(_) => stage == SecretStage::Removing,
        SecretActionModel::ReloadCreds => stage == SecretStage::Reloading,
        SecretActionModel::Restore(_, _) => stage == SecretStage::Restoring,
        SecretActionModel::Reply(_, _, _, _, _) => stage == SecretStage::Done,
    }
}

/// Whether `e` is the outcome that `stage` waits for.
pub fn stage_awaits(stage: SecretStage, e: &SecretEvent) -> (r: bool)
    ensures
        r == awaits(stage, e@),
{
    match e {
        SecretEvent::Exists(_) => stage == SecretStage::Checking,
        SecretEvent::Written(_) => stage == SecretStage::Writing,
        SecretEvent::Read(_) => stage == SecretStage::Reading,
        SecretEvent::Removed(_) => stage == SecretStage::Removing,
        SecretEvent::Reloaded(_) => stage == SecretStage::Reloading,
        SecretEvent::Restored => stage == SecretStage::Restoring,
    }
}

/// The answer to a failed reload, once the change is undone.
pub open spec fn reverted_text(e: Seq<char>) -> Seq<char> {
    "Falló load-creds (se revirtió el cambio): "@ + e
}

pub open spec fn secret_action(delete: bool, update: bool) -> Seq<char> {
    if delete {
        "delete"@
    } else {
        write_action(update)
    }
}

pub open spec fn with_stage(c: SecretCtlModel, stage: SecretStage) -> SecretCtlModel {
    (c.0, c.1, c.2, c.3, c.4, c.5, c.6, c.7, stage)
}

/// How a request on a secret goes on from the outcome `e` of the work it asked for.
/// A write first checks that a create finds no file (409) and an update finds one
/// (404); it keeps what the file held, writes, and reloads the credentials. A delete
/// reads the file (404 when there is none), keeps its content, removes it, and
/// reloads. A reload that fails puts the file back as it was and answers 400; a
/// write, read or removal that fails answers 400 with its error, under the name as
/// asked.
pub open spec fn secret_step_model(c: SecretCtlModel, e: SecretEventModel) -> (SecretCtlModel, SecretActionModel) {
    let (raw, name, update, delete, path, text, backup, err, stage) = c;
    let act = secret_action(delete, update);
    let done = with_stage(c, SecretStage::Done);
    match e {
        SecretEventModel::Exists(ex) => if !update && ex {
            (done, SecretActionModel::Reply(409, name, "create"@, false, "El secret ya existe"@))
        } else if update && !ex {
            (done, SecretActionModel::Reply(404, name, "update"@, false, "El secret no existe"@))
        } else {
            (with_stage(c, SecretStage::Writing), SecretActionModel::WriteKeeping(path, text))
        },
        SecretEventModel::Written(Err(m)) => (done, SecretActionModel::Reply(400, raw, act, false, m)),
        SecretEventModel::Written(Ok(b)) => (
            (raw, name, update, delete, path, text, b, err, SecretStage::Reloading),
            SecretActionModel::ReloadCreds,
        ),
        SecretEventModel::Read(Err(m)) => (
            done,
            SecretActionModel::Reply(400, raw, "delete"@, false, "Error leyendo secret: "@ + m),
        ),
        SecretEventModel::Read(Ok(None)) => (
            done,
            SecretActionModel::Reply(404, name, "delete"@, false, "Secret no encontrado"@),
        ),
        SecretEventModel::Read(Ok(Some(content))) => (
            (raw, name, update, delete, path, text, Some(content), err, SecretStage::Removing),
            SecretActionModel::Remove(path),
        ),
        SecretEventModel::Removed(Some(m)) => (
            done,
            SecretActionModel::Reply(400, raw, "delete"@, false, "Error eliminando secret: "@ + m),
        ),
        SecretEventModel::Removed(None) => (with_stage(c, SecretStage::Reloading), SecretActionModel::ReloadCreds),
        SecretEventModel::Reloaded(None) => (
            done,
            if delete {
                SecretActionModel::Reply(200, name, "delete"@, true, "Secret eliminado y credenciales recargadas"@)
            } else {
                SecretActionModel::Reply(
                    if update {
                        200u16
                    } else {
                        201u16
                    },
                    name,
                    act,
                    true,
                    "Secret guardado y credenciales recargadas"@,
                )
            },
        ),
        SecretEventModel::Reloaded(Some(m)) => (
            (raw, name, update, delete, path, text, backup, m, SecretStage::Restoring),
            SecretActionModel::Restore(path, backup),
        ),
        SecretEventModel::Restored => (done, SecretActionModel::Reply(400, name, act, false, reverted_text(err))),
    }
}

fn clone_opt(o: &Option<String>) -> (r: Option<String>)
    ensures
        opt_view(r) == opt_view(*o),
{
    match o {
        Some(s) => Some(s.clone()),
        None => None,
    }
}

fn ctl_with(c: &SecretCtl, backup: Option<String>, error: String, stage: SecretStage) -> (r: SecretCtl)
    ensures
        ctl_model(r) == (c.raw_name@, c.name@, c.update, c.delete, c.path@, c.text@, opt_view(backup), error@, stage),
{
    SecretCtl {
        raw_name: c.raw_name.clone(),
        name: c.name.clone(),
        update: c.update,
        delete: c.delete,
        path: c.path.clone(),
        text: c.text.clone(),
        backup,
        error,
        stage,
    }
}

fn secret_action_name(delete: bool, update: bool) -> (r: &'static str)
    ensures
        r@ == secret_action(delete, update),
{
    if delete {
        "delete"
    } else {
        write_action_name(update)
    }
}

/// Starts writing a secret: the name made safe and the configuration checked (400
/// otherwise, under the name as asked), then the check whether the file exists.
pub fn secret_upsert_start(raw_name: &str, secret_type: SecretType, config: &JsonValue, update: bool) -> (r: (SecretCtl, SecretAction))
    ensures
        asks(r.0.stage, r.1@),
        match safe_name(raw_name@) {
            None => r.1@ == SecretActionModel::Reply(400, raw_name@, write_action(update), false, invalid_name_text(Resource::Secret)),
            Some(n) => match secret_lines(secret_type, *config) {
                Err(m) => r.1@ == SecretActionModel::Reply(400, raw_name@, write_action(update), false, m),
                Ok(ls) => {
                    &&& ctl_model(r.0) == (raw_name@, n, update, false, secret_path(n), secret_conf(n, secret_type, ls), None::<Seq<char>>, Seq::<char>::empty(), SecretStage::Checking)
                    &&& r.1@ == SecretActionModel::CheckExists(secret_path(n))
                },
            },
        },
{
    let blank = SecretCtl {
        raw_name: owned(raw_name),
        name: owned(""),
        update,
        delete: false,
        path: owned(""),
        text: owned(""),
        backup: None,
        error: owned(""),
        stage: SecretStage::Done,
    };
    let action = write_action_name(update);
    let name = match sanitize_secret_name(raw_name) {
        Some(n) => n,
        None => return (blank, SecretAction::Reply(invalid_name_reply(Resource::Secret, raw_name, action))),
    };
    let ls = match validate_and_render_secret_config(secret_type, config) {
        Ok(v) => v,
        Err(m) => return (blank, SecretAction::Reply(crud_reply(400, raw_name, action, false, m))),
    };
    let path = secret_file_path(name.as_str());
    let text = build_secret_conf(name.as_str(), secret_type, &ls);
    assert(string_views(ls@) =~= ls@.map_values(|s: String| s@));
    let check = SecretAction::CheckExists(path.clone());
    proof {
        reveal_strlit("");
    }
    (
        SecretCtl { raw_name: owned(raw_name), name, update, delete: false, path, text, backup: None, error: owned(""), stage: SecretStage::Checking },
        check,
    )
}

/// Starts deleting a secret: the name made safe (400 otherwise, under the name as
/// asked), then the reading of the file, to keep its content.
pub fn secret_delete_start(raw_name: &str) -> (r: (SecretCtl, SecretAction))
    ensures
        asks(r.0.stage, r.1@),
        match safe_name(raw_name@) {
            None => r.1@ == SecretActionModel::Reply(400, raw_name@, "delete"@, false, invalid_name_text(Resource::Secret)),
            Some(n) => {
                &&& ctl_model(r.0) == (raw_name@, n, false, true, secret_path(n), Seq::<char>::empty(), None::<Seq<char>>, Seq::<char>::empty(), SecretStage::Reading)
                &&& r.1@ == SecretActionModel::ReadCurrent(secret_path(n))
            },
        },
{
    proof {
        reveal_strlit("");
    }
    match sanitize_secret_name(raw_name) {
        None => {
            let blank = SecretCtl {
                raw_name: owned(raw_name),
                name: owned(""),
                update: false,
                delete: true,
                path: owned(""),
                text: owned(""),
                backup: None,
                error: owned(""),
                stage: SecretStage::Done,
            };
            (blank, SecretAction::Reply(invalid_name_reply(Resource::Secret, raw_name, "delete")))
        },
        Some(name) => {
            let path = secret_file_path(name.as_str());
            let read = SecretAction::ReadCurrent(path.clone());
            (
                SecretCtl { raw_name: owned(raw_name), name, update: false, delete: true, path, text: owned(""), backup: None, error: owned(""), stage: SecretStage::Reading },
                read,
            )
        },
    }
}

/// The answer when the swanctl lock could not be taken for a request on a secret:
/// 400 under the name as asked, with the reason.
pub fn secret_lock_failed(c: &SecretCtl, message: String) -> (r: CrudReply)
    ensures
        reply_is(r, 400, c.raw_name@, secret_action(c.delete, c.update), false, message@),
{
    crud_reply(400, c.raw_name.as_str(), secret_action_name(c.delete, c.update), false, message)
}

/// Goes on with a request on a secret once the work it asked for has ended (see
/// `secret_step_model`).
pub fn secret_step(c: &SecretCtl, e: SecretEvent) -> (r: (SecretCtl, SecretAction))
    requires
        awaits(c.stage, e@),
    ensures
        (ctl_model(r.0), r.1@) == secret_step_model(ctl_model(*c), e@),
        asks(r.0.stage, r.1@),
{
    let act = secret_action_name(c.delete, c.update);
    let keep = clone_opt(&c.backup);
    match e {
        SecretEvent::Exists(ex) => {
            if !c.update && ex {
                (ctl_with(c, keep, c.error.clone(), SecretStage::Done), SecretAction::Reply(crud_reply(409, c.name.as_str(), "create", false, owned("El secret ya existe"))))
            } else if c.update && !ex {
                (ctl_with(c, keep, c.error.clone(), SecretStage::Done), SecretAction::Reply(crud_reply(404, c.name.as_str(), "update", false, owned("El secret no existe"))))
            } else {
                (ctl_with(c, keep, c.error.clone(), SecretStage::Writing), SecretAction::WriteKeeping { path: c.path.clone(), text: c.text.clone() })
            }
        },
        SecretEvent::Written(Err(m)) => (
            ctl_with(c, keep, c.error.clone(), SecretStage::Done),
            SecretAction::Reply(crud_reply(400, c.raw_name.as_str(), act, false, m)),
        ),
        SecretEvent::Written(Ok(b)) => (ctl_with(c, b, c.error.clone(), SecretStage::Reloading), SecretAction::ReloadCreds),
        SecretEvent::Read(Err(m)) => (
            ctl_with(c, keep, c.error.clone(), SecretStage::Done),
            SecretAction::Reply(crud_reply(400, c.raw_name.as_str(), "delete", false, text2("Error leyendo secret: ", m.as_str()))),
        ),
        SecretEvent::Read(Ok(None)) => (
            ctl_with(c, keep, c.error.clone(), SecretStage::Done),
            SecretAction::Reply(crud_reply(404, c.name.as_str(), "delete", false, owned("Secret no encontrado"))),
        ),
        SecretEvent::Read(Ok(Some(content))) => (
            ctl_with(c, Some(content), c.error.clone(), SecretStage::Removing),
            SecretAction::Remove(c.path.clone()),
        ),
        SecretEvent::Removed(Some(m)) => (
            ctl_with(c, keep, c.error.clone(), SecretStage::Done),
            SecretAction::Reply(crud_reply(400, c.raw_name.as_str(), "delete", false, text2("Error eliminando secret: ", m.as_str()))),
        ),
        SecretEvent::Removed(None) => (ctl_with(c, keep, c.error.clone(), SecretStage::Reloading), SecretAction::ReloadCreds),
        SecretEvent::Reloaded(None) => {
            let reply = if c.delete {
                deleted_reply(Resource::Secret, c.name.as_str(), None)
            } else {
                saved_reply(Resource::Secret, c.name.as_str(), c.update, None)
            };
            (ctl_with(c, keep, c.error.clone(), SecretStage::Done), SecretAction::Reply(reply))
        },
        SecretEvent::Reloaded(Some(m)) => {
            let previous = clone_opt(&c.backup);
            (ctl_with(c, keep, m, SecretStage::Restoring), SecretAction::Restore { path: c.path.clone(), previous })
        },
        SecretEvent::Restored => {
            let reply = if c.delete {
                deleted_reply(Resource::Secret, c.name.as_str(), Some(c.error.as_str()))
            } else {
                saved_reply(Resource::Secret, c.name.as_str(), c.update, Some(c.error.as_str()))
            };
            (ctl_with(c, keep, c.error.clone(), SecretStage::Done), SecretAction::Reply(reply))
        },
    }
}

// ───────────────────────────── writing and deleting connections ─────────────────────────────

/// Where a request on a connection stands; `Done` has answered.
#[derive(Debug, Clone, Copy, PartialEq, Eq, Structural)]
pub enum ConnStage {
    /// Waiting to know whether the file exists.
    Checking,
    /// Waiting for the file to be written.
    Writing,
    /// Waiting for the file to be removed.
    Removing,
    /// Waiting for the connections to be reloaded.
    Reloading,
    Done,
}

/// A request on a connection under way: the safe name, whether it updates or
/// deletes, the file and the text to write, and the stage.
#[derive(Debug)]
pub struct ConnCtl {
    pub name: String,
    pub update: bool,
    pub delete: bool,
    pub path: String,
    pub text: String,
    pub stage: ConnStage,
}

pub type ConnCtlModel = (Seq<char>, bool, bool, Seq<char>, Seq<char>, ConnStage);

pub open spec fn conn_ctl_model(c: ConnCtl) -> ConnCtlModel {
    (c.name@, c.update, c.delete, c.path@, c.text@, c.stage)
}

/// The work asked of the caller, or the answer.
#[derive(Debug)]
pub enum ConnAction {
    /// Find whether the file exists.
    CheckExists(String),
    /// Write `text` to the file.
    Write { path: String, text: String },
    /// Remove the file.
    Remove(String),
    /// Reload the connections (`swanctl --load-conns`).
    ReloadConns,
    Reply(CrudReply),
}

pub enum ConnActionModel {
    CheckExists(Seq<char>),
    Write(Seq<char>, Seq<char>),
    Remove(Seq<char>),
    ReloadConns,
    Reply(u16, Seq<char>, Seq<char>, bool, Seq<char>),
}

impl View for ConnAction {
    type V = ConnActionModel;

    open spec fn view(&self) -> ConnActionModel {
        match self {
            ConnAction::CheckExists(p) => ConnActionModel::CheckExists(p@),
            ConnAction::Write { path, text } => ConnActionModel::Write(path@, text@),
            ConnAction::Remove(p) => ConnActionModel::Remove(p@),
            ConnAction::ReloadConns => ConnActionModel::ReloadConns,
            ConnAction::Reply(r) => ConnActionModel::Reply(r.status, r.name@, r.action@, r.success, r.message@),
        }
    }
}

/// The outcome of the work last asked for.
#[derive(Debug)]
pub enum ConnEvent {
    /// Whether the file exists.
    Exists(bool),
    /// The file was written (`None`), or why it was not.
    Written(Option<String>),
    /// The file was removed.
    Removed,
    /// There was no file to remove.
    Missing,
    /// The file could not be removed, for this reason.
    RemoveFailed(String),
    /// The connections were reloaded (`None`), or why they were not.
    Reloaded(Option<String>),
}

pub enum ConnEventModel {
    Exists(bool),
    Written(Option<Seq<char>>),
    Removed,
    Missing,
    RemoveFailed(Seq<char>),
    Reloaded(Option<Seq<char>>),
}

impl View for ConnEvent {
    type V = ConnEventModel;

    open spec fn view(&self) -> ConnEventModel {
        match self {
            ConnEvent::Exists(b) => ConnEventModel::Exists(*b),
            ConnEvent::Written(e) => ConnEventModel::Written(opt_view(*e)),
            ConnEvent::Removed => ConnEventModel::Removed,
            ConnEvent::Missing => ConnEventModel::Missing,
            ConnEvent::RemoveFailed(e) => ConnEventModel::RemoveFailed(e@),
            ConnEvent::Reloaded(e) => ConnEventModel::Reloaded(opt_view(*e)),
        }
    }
}

/// The event that each stage waits for.
pub open spec fn conn_awaits(stage: ConnStage, e: ConnEventModel) -> bool {
    match e {
        ConnEventModel::Exists(_) => stage == ConnStage::Checking,
        ConnEventModel::Written(_) => stage == ConnStage::Writing,
        ConnEventModel::Removed | ConnEventModel::Missing | ConnEventModel::RemoveFailed(_) => stage == ConnStage::Removing,
        ConnEventModel::Reloaded(_) => stage == ConnStage::Reloading,
    }
}

/// The work that each stage has asked for; `Done` goes with the answer.
pub open spec fn conn_asks(stage: ConnStage, a: ConnActionModel) -> bool {
    match a {
        ConnActionModel::CheckExists(_) => stage == ConnStage::Checking,
        ConnActionModel::Write(_, _) => stage == ConnStage::Writing,
        ConnActionModel::Remove(_) => stage == ConnStage::Removing,
        ConnActionModel::ReloadConns => stage == ConnStage::Reloading,
        ConnActionModel::Reply(_, _, _, _, _) => stage == ConnStage::Done,
    }
}

/// Whether `e` is the outcome that `stage` waits for.
pub fn conn_stage_awaits(stage: ConnStage, e: &ConnEvent) -> (r: bool)
    ensures
        r == conn_awaits(stage, e@),
{
    match e {
        ConnEvent::Exists(_) => stage == ConnStage::Checking,
        ConnEvent::Written(_) => stage == ConnStage::Writing,
        ConnEvent::Removed | ConnEvent::Missing | ConnEvent::RemoveFailed(_) => stage == ConnStage::Removing,
        ConnEvent::Reloaded(_) => stage == ConnStage::Reloading,
    }
}

pub open spec fn conn_with_stage(c: ConnCtlModel, stage: ConnStage) -> ConnCtlModel {
    (c.0, c.1, c.2, c.3, c.4, stage)
}

/// How a request on a connection goes on from the outcome `e` of the work it asked
/// for. A write checks that a create finds no file (409) and an update finds one
/// (404), writes (500 when it cannot), and reloads. A delete removes the file (404
/// when there is none, 500 when it cannot be removed) and reloads. A failed reload
/// answers 400 and leaves the file as written or removed.
pub open spec fn conn_step_model(c: ConnCtlModel, e: ConnEventModel) -> (ConnCtlModel, ConnActionModel) {
    let (name, update, delete, path, text, stage) = c;
    let done = conn_with_stage(c, ConnStage::Done);
    match e {
        ConnEventModel::Exists(ex) => if !update && ex {
            (done, ConnActionModel::Reply(409, name, "create"@, false, "La conexión ya existe"@))
        } else if update && !ex {
            (done, ConnActionModel::Reply(404, name, "update"@, false, "La conexión no existe"@))
        } else {
            (conn_with_stage(c, ConnStage::Writing), ConnActionModel::Write(path, text))
        },
        ConnEventModel::Written(Some(m)) => (
            done,
            ConnActionModel::Reply(500, name, write_action(update), false, "Error escribiendo archivo: "@ + m),
        ),
        ConnEventModel::Written(None) => (conn_with_stage(c, ConnStage::Reloading), ConnActionModel::ReloadConns),
        ConnEventModel::Removed => (conn_with_stage(c, ConnStage::Reloading), ConnActionModel::ReloadConns),
        ConnEventModel::Missing => (done, ConnActionModel::Reply(404, name, "delete"@, false, "Conexión no encontrada"@)),
        ConnEventModel::RemoveFailed(m) => (
            done,
            ConnActionModel::Reply(500, name, "delete"@, false, "Error eliminando "@ + "conexión: "@ + m),
        ),
        ConnEventModel::Reloaded(None) => (
            done,
            if delete {
                ConnActionModel::Reply(200, name, "delete"@, true, "Conexión eliminada y recargada"@)
            } else {
                ConnActionModel::Reply(
                    if update {
                        200u16
                    } else {
                        201u16
                    },
                    name,
                    write_action(update),
                    true,
                    "Conexión guardada y recargada"@,
                )
            },
        ),
        ConnEventModel::Reloaded(Some(m)) => (
            done,
            if delete {
                ConnActionModel::Reply(400, name, "delete"@, false, "Conexión eliminada pero falló reload: "@ + m)
            } else {
                ConnActionModel::Reply(400, name, write_action(update), false, "Conexión guardada pero falló reload: "@ + m)
            },
        ),
    }
}

fn conn_ctl_with(c: &ConnCtl, stage: ConnStage) -> (r: ConnCtl)
    ensures
        conn_ctl_model(r) == conn_with_stage(conn_ctl_model(*c), stage),
{
    ConnCtl { name: c.name.clone(), update: c.update, delete: c.delete, path: c.path.clone(), text: c.text.clone(), stage }
}

/// Starts writing a connection: the name made safe and the configuration rendered
/// (400 otherwise, see `prepare_connection_upsert`), then the check whether the
/// file exists.
pub fn connection_upsert_start(raw_name: &str, config: &JsonValue, update: bool) -> (r: (ConnCtl, ConnAction))
    ensures
        conn_asks(r.0.stage, r.1@),
        match safe_name(raw_name@) {
            None => r.1@ == ConnActionModel::Reply(400, raw_name@, write_action(update), false, "connection_name inválido"@),
            Some(n) => match body_from_json(*config) {
                Err(m) => r.1@ == ConnActionModel::Reply(400, n, write_action(update), false, m),
                Ok(b) => if trim(b).len() == 0 {
                    r.1@ == ConnActionModel::Reply(400, n, write_action(update), false, "config es requerido"@)
                } else {
                    &&& conn_ctl_model(r.0) == (n, update, false, connection_path(n), connection_conf(n, b), ConnStage::Checking)
                    &&& r.1@ == ConnActionModel::CheckExists(connection_path(n))
                },
            },
        },
{
    match prepare_connection_upsert(raw_name, config, update) {
        Err(rep) => (
            ConnCtl { name: owned(raw_name), update, delete: false, path: owned(""), text: owned(""), stage: ConnStage::Done },
            ConnAction::Reply(rep),
        ),
        Ok(w) => {
            let check = ConnAction::CheckExists(w.path.clone());
            (ConnCtl { name: w.name, update, delete: false, path: w.path, text: w.text, stage: ConnStage::Checking }, check)
        },
    }
}

/// Starts deleting a connection: the name made safe (400 otherwise, under the name
/// as asked), then the removal of its file.
pub fn connection_delete_start(raw_name: &str) -> (r: (ConnCtl, ConnAction))
    ensures
        conn_asks(r.0.stage, r.1@),
        match safe_name(raw_name@) {
            None => r.1@ == ConnActionModel::Reply(400, raw_name@, "delete"@, false, "connection_name inválido"@),
            Some(n) => {
                &&& conn_ctl_model(r.0) == (n, false, true, connection_path(n), Seq::<char>::empty(), ConnStage::Removing)
                &&& r.1@ == ConnActionModel::Remove(connection_path(n))
            },
        },
{
    proof {
        reveal_strlit("");
    }
    match sanitize_connection_name(raw_name) {
        None => (
            ConnCtl { name: owned(raw_name), update: false, delete: true, path: owned(""), text: owned(""), stage: ConnStage::Done },
            ConnAction::Reply(invalid_name_reply(Resource::Connection, raw_name, "delete")),
        ),
        Some(name) => {
            let path = connection_file_path(name.as_str());
            let remove = ConnAction::Remove(path.clone());
            (ConnCtl { name, update: false, delete: true, path, text: owned(""), stage: ConnStage::Removing }, remove)
        },
    }
}

/// Goes on with a request on a connection once the work it asked for has ended
/// (see `conn_step_model`).
pub fn connection_step(c: &ConnCtl, e: ConnEvent) -> (r: (ConnCtl, ConnAction))
    requires
        conn_awaits(c.stage, e@),
    ensures
        (conn_ctl_model(r.0), r.1@) == conn_step_model(conn_ctl_model(*c), e@),
        conn_asks(r.0.stage, r.1@),
{
    let name = c.name.as_str();
    match e {
        ConnEvent::Exists(ex) => match existence_refusal(Resource::Connection, name, c.update, ex) {
            Some(rep) => (conn_ctl_with(c, ConnStage::Done), ConnAction::Reply(rep)),
            None => (conn_ctl_with(c, ConnStage::Writing), ConnAction::Write { path: c.path.clone(), text: c.text.clone() }),
        },
        ConnEvent::Written(Some(m)) => (
            conn_ctl_with(c, ConnStage::Done),
            ConnAction::Reply(write_failed_reply(name, c.update, false, m.as_str())),
        ),
        ConnEvent::Written(None) => (conn_ctl_with(c, ConnStage::Reloading), ConnAction::ReloadConns),
        ConnEvent::Removed => (conn_ctl_with(c, ConnStage::Reloading), ConnAction::ReloadConns),
        ConnEvent::Missing => (
            conn_ctl_with(c, ConnStage::Done),
            ConnAction::Reply(missing_file_reply(Resource::Connection, name, true, None)),
        ),
        ConnEvent::RemoveFailed(m) => (
            conn_ctl_with(c, ConnStage::Done),
            ConnAction::Reply(missing_file_reply(Resource::Connection, name, true, Some(m.as_str()))),
        ),
        ConnEvent::Reloaded(None) => {
            let reply = if c.delete {
                deleted_reply(Resource::Connection, name, None)
            } else {
                saved_reply(Resource::Connection, name, c.update, None)
            };
            (conn_ctl_with(c, ConnStage::Done), ConnAction::Reply(reply))
        },
        ConnEvent::Reloaded(Some(m)) => {
            let reply = if c.delete {
                deleted_reply(Resource::Connection, name, Some(m.as_str()))
            } else {
                saved_reply(Resource::Connection, name, c.update, Some(m.as_str()))
            };
            (conn_ctl_with(c, ConnStage::Done), ConnAction::Reply(reply))
        },
    }
}

// ───────────────────────────── attaching a certificate ─────────────────────────────

/// Where the attachment of a certificate to a connection stands; `Done` has answered.
#[derive(Debug, Clone, Copy, PartialEq, Eq, Structural)]
pub enum AttachStage {
    /// Waiting to know whether the user certificate exists.
    CheckingCertificate,
    /// Waiting to know whether the remote CA exists.
    CheckingCa,
    /// Waiting for the connection's file to be read.
    Reading,
    /// Waiting for the connection's file to be written.
    Writing,
    /// Waiting for the connections to be reloaded.
    Reloading,
    Done,
}

/// An attachment under way: the safe name of the connection and the stage.
#[derive(Debug)]
pub struct AttachCtl {
    pub connection: String,
    pub stage: AttachStage,
}

/// The work asked of the caller, or the answer.
#[derive(Debug)]
pub enum AttachAction {
    /// Find whether this file exists.
    CheckExists(String),
    /// Read the connection's file (`None` when it does not exist).
    Read(String),
    /// Write the connection's file.
    Write { path: String, text: String },
    /// Reload the connections (`swanctl --load-conns`).
    ReloadConns,
    Reply(CrudReply),
}

pub enum AttachActionModel {
    CheckExists(Seq<char>),
    Read(Seq<char>),
    Write(Seq<char>, Seq<char>),
    ReloadConns,
    Reply(u16, Seq<char>, Seq<char>, bool, Seq<char>),
}

impl View for AttachAction {
    type V = AttachActionModel;

    open spec fn view(&self) -> AttachActionModel {
        match self {
            AttachAction::CheckExists(p) => AttachActionModel::CheckExists(p@),
            AttachAction::Read(p) => AttachActionModel::Read(p@),
            AttachAction::Write { path, text } => AttachActionModel::Write(path@, text@),
            AttachAction::ReloadConns => AttachActionModel::ReloadConns,
            AttachAction::Reply(r) => AttachActionModel::Reply(r.status, r.name@, r.action@, r.success, r.message@),
        }
    }
}

/// The outcome of the work last asked for.
#[derive(Debug)]
pub enum AttachEvent {
    /// Whether the file exists.
    Exists(bool),
    /// The connection's file (`None`: it does not exist), or why it could not be read.
    Read(Result<Option<String>, String>),
    /// The file was written (`None`), or why it was not.
    Written(Option<String>),
    /// The connections were reloaded (`None`), or why they were not.
    Reloaded(Option<String>),
}

pub enum AttachEventModel {
    Exists(bool),
    Read(Result<Option<Seq<char>>, Seq<char>>),
    Written(Option<Seq<char>>),
    Reloaded(Option<Seq<char>>),
}

impl View for AttachEvent {
    type V = AttachEventModel;

    open spec fn view(&self) -> AttachEventModel {
        match self {
            AttachEvent::Exists(b) => AttachEventModel::Exists(*b),
            AttachEvent::Read(r) => AttachEventModel::Read(kept_view(*r)),
            AttachEvent::Written(e) => AttachEventModel::Written(opt_view(*e)),
            AttachEvent::Reloaded(e) => AttachEventModel::Reloaded(opt_view(*e)),
        }
    }
}

/// The event that each stage waits for.
pub open spec fn attach_awaits(stage: AttachStage, e: AttachEventModel) -> bool {
    match e {
        AttachEventModel::Exists(_) => stage == AttachStage::CheckingCertificate || stage == AttachStage::CheckingCa,
        AttachEventModel::Read(_) => stage == AttachStage::Reading,
        AttachEventModel::Written(_) => stage == AttachStage::Writing,
        AttachEventModel::Reloaded(_) => stage == AttachStage::Reloading,
    }
}

/// The work that each stage has asked for; `Done` goes with the answer.
pub open spec fn attach_asks(stage: AttachStage, a: AttachActionModel) -> bool {
    match a {
        AttachActionModel::CheckExists(_) => stage == AttachStage::CheckingCertificate || stage == AttachStage::CheckingCa,
        AttachActionModel::Read(_) => stage == AttachStage::Reading,
        AttachActionModel::Write(_, _) => stage == AttachStage::Writing,
        AttachActionModel::ReloadConns => stage == AttachStage::Reloading,
        AttachActionModel::Reply(_, _, _, _, _) => stage == AttachStage::Done,
    }
}

/// Whether `e` is the outcome that `stage` waits for.
pub fn attach_stage_awaits(stage: AttachStage, e: &AttachEvent) -> (r: bool)
    ensures
        r == attach_awaits(stage, e@),
{
    match e {
        AttachEvent::Exists(_) => stage == AttachStage::CheckingCertificate || stage == AttachStage::CheckingCa,
        AttachEvent::Read(_) => stage == AttachStage::Reading,
        AttachEvent::Written(_) => stage == AttachStage::Writing,
        AttachEvent::Reloaded(_) => stage == AttachStage::Reloading,
    }
}

pub open spec fn attach_answer(conn: Seq<char>, status: u16, success: bool, message: Seq<char>) -> (
    (Seq<char>, AttachStage),
    AttachActionModel,
) {
    ((conn, AttachStage::Done), AttachActionModel::Reply(status, conn, "attach-certificate"@, success, message))
}

/// How an attachment goes on from the outcome `e` of the work it asked for. The
/// user certificate must exist (404); then a remote CA, when one is asked for,
/// must have a safe name (400) and exist (404); then the connection's file is read
/// (404 when there is none, 500 when it cannot be), the certificate attached to its
/// body (400 when the request is refused), the file written (500 when it cannot
/// be) and the connections reloaded.
pub open spec fn attach_step_model(c: (Seq<char>, AttachStage), e: AttachEventModel, p: ConnectionCertificateAttachRequest) -> (
    (Seq<char>, AttachStage),
    AttachActionModel,
) {
    let (conn, stage) = c;
    match e {
        AttachEventModel::Exists(false) => attach_answer(
            conn,
            404,
            false,
            if stage == AttachStage::CheckingCertificate {
                attach_missing_text(AttachMissing::UserCertificate)
            } else {
                attach_missing_text(AttachMissing::RemoteCa)
            },
        ),
        AttachEventModel::Exists(true) => if stage == AttachStage::CheckingCertificate {
            match p.remote_ca_name {
                None => ((conn, AttachStage::Reading), AttachActionModel::Read(connection_path(conn))),
                Some(ca) => match safe_name(ca@) {
                    None => attach_answer(conn, 400, false, "remote_ca_name inválido"@),
                    Some(n) => ((conn, AttachStage::CheckingCa), AttachActionModel::CheckExists(ca_cert_path(n))),
                },
            }
        } else {
            ((conn, AttachStage::Reading), AttachActionModel::Read(connection_path(conn)))
        },
        AttachEventModel::Read(Ok(None)) => attach_answer(conn, 404, false, attach_missing_text(AttachMissing::Connection)),
        AttachEventModel::Read(Err(m)) => attach_answer(conn, 500, false, "Error leyendo conexión: "@ + m),
        AttachEventModel::Read(Ok(Some(content))) => match attached(editable_body(conn, content), p) {
            Err(m) => attach_answer(conn, 400, false, m),
            Ok(u) => ((conn, AttachStage::Writing), AttachActionModel::Write(connection_path(conn), connection_conf(conn, u))),
        },
        AttachEventModel::Written(Some(m)) => attach_answer(conn, 500, false, "Error escribiendo conexión: "@ + m),
        AttachEventModel::Written(None) => ((conn, AttachStage::Reloading), AttachActionModel::ReloadConns),
        AttachEventModel::Reloaded(None) => attach_answer(conn, 200, true, "Certificado aplicado a la conexión"@),
        AttachEventModel::Reloaded(Some(m)) => attach_answer(conn, 400, false, "Conexión actualizada pero falló reload: "@ + m),
    }
}

fn attach_ctl(connection: &str, stage: AttachStage) -> (r: AttachCtl)
    ensures
        r.connection@ == connection@,
        r.stage == stage,
{
    AttachCtl { connection: owned(connection), stage }
}

/// Starts attaching a certificate: the names of the connection and of the
/// certificate made safe (400 otherwise, see `attach_names`), then the check that
/// the user certificate exists.
pub fn attach_start(connection_name: &str, p: &ConnectionCertificateAttachRequest) -> (r: (AttachCtl, AttachAction))
    ensures
        attach_asks(r.0.stage, r.1@),
        match (safe_name(connection_name@), safe_name(p.certificate_name@)) {
            (None, _) => r.1@ == AttachActionModel::Reply(400, connection_name@, "attach-certificate"@, false, "connection_name inválido"@),
            (Some(c), None) => r.1@ == AttachActionModel::Reply(400, c, "attach-certificate"@, false, "certificate_name inválido"@),
            (Some(c), Some(k)) => {
                &&& (r.0.connection@, r.0.stage) == (c, AttachStage::CheckingCertificate)
                &&& r.1@ == AttachActionModel::CheckExists(user_cert_path(k))
            },
        },
{
    match attach_names(connection_name, p.certificate_name.as_str()) {
        Err(rep) => (attach_ctl(connection_name, AttachStage::Done), AttachAction::Reply(rep)),
        Ok((conn, cert)) => {
            let check = AttachAction::CheckExists(user_certificate_cert_path(cert.as_str()));
            (AttachCtl { connection: conn, stage: AttachStage::CheckingCertificate }, check)
        },
    }
}

/// Goes on with an attachment once the work it asked for has ended (see
/// `attach_step_model`). A connection whose sections cannot be rewritten (see
/// `attach_ok`) is left out.
pub fn attach_step(c: &AttachCtl, e: AttachEvent, p: &ConnectionCertificateAttachRequest) -> (r: (AttachCtl, AttachAction))
    requires
        attach_awaits(c.stage, e@),
        e@ matches AttachEventModel::Read(Ok(Some(content))) ==> attach_ok(editable_body(c.connection@, content), *p),
    ensures
        ((r.0.connection@, r.0.stage), r.1@) == attach_step_model((c.connection@, c.stage), e@, *p),
        attach_asks(r.0.stage, r.1@),
{
    let conn = c.connection.as_str();
    match e {
        AttachEvent::Exists(false) => {
            let missing = if c.stage == AttachStage::CheckingCertificate {
                AttachMissing::UserCertificate
            } else {
                AttachMissing::RemoteCa
            };
            (attach_ctl(conn, AttachStage::Done), AttachAction::Reply(attach_missing_reply(conn, missing)))
        },
        AttachEvent::Exists(true) => {
            if c.stage == AttachStage::CheckingCertificate {
                let asked = match &p.remote_ca_name {
                    Some(ca) => attach_remote_ca(conn, Some(ca.as_str())),
                    None => attach_remote_ca(conn, None),
                };
                match asked {
                    Err(rep) => (attach_ctl(conn, AttachStage::Done), AttachAction::Reply(rep)),
                    Ok(Some(n)) => (
                        attach_ctl(conn, AttachStage::CheckingCa),
                        AttachAction::CheckExists(ca_certificate_cert_path(n.as_str())),
                    ),
                    Ok(None) => (attach_ctl(conn, AttachStage::Reading), AttachAction::Read(connection_file_path(conn))),
                }
            } else {
                (attach_ctl(conn, AttachStage::Reading), AttachAction::Read(connection_file_path(conn)))
            }
        },
        AttachEvent::Read(Ok(None)) => (
            attach_ctl(conn, AttachStage::Done),
            AttachAction::Reply(attach_missing_reply(conn, AttachMissing::Connection)),
        ),
        AttachEvent::Read(Err(m)) => (
            attach_ctl(conn, AttachStage::Done),
            AttachAction::Reply(attach_io_failed(conn, false, m.as_str())),
        ),
        AttachEvent::Read(Ok(Some(content))) => match attach_certificate_file(conn, content.as_str(), p) {
            Err(m) => (attach_ctl(conn, AttachStage::Done), AttachAction::Reply(attach_refused(conn, m))),
            Ok(text) => (
                attach_ctl(conn, AttachStage::Writing),
                AttachAction::Write { path: connection_file_path(conn), text },
            ),
        },
        AttachEvent::Written(Some(m)) => (
            attach_ctl(conn, AttachStage::Done),
            AttachAction::Reply(attach_io_failed(conn, true, m.as_str())),
        ),
        AttachEvent::Written(None) => (attach_ctl(conn, AttachStage::Reloading), AttachAction::ReloadConns),
        AttachEvent::Reloaded(None) => (attach_ctl(conn, AttachStage::Done), AttachAction::Reply(attach_done(conn, None))),
        AttachEvent::Reloaded(Some(m)) => (
            attach_ctl(conn, AttachStage::Done),
            AttachAction::Reply(attach_done(conn, Some(m.as_str()))),
        ),
    }
}

} // verus!
