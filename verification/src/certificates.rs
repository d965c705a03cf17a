//! Certificates made with `openssl`: the parameters of a request, what a request
//! is refused for, the arguments handed to `openssl`, what its output says, and
//! the answer to each outcome.
//!
//! Running `openssl`, touching the files and reloading the credentials are left to
//! the caller, which hands each outcome back.
use vstd::prelude::*;

use crate::access::{lossy_text, utf8_lossy};
use crate::connections::{
    ca_cert_path, ca_certificate_cert_path, ca_certificate_key_path, ca_key_path, cert_path, certificate_cert_path,
    certificate_key_path, key_path, safe_name, sanitize_certificate_name, string_views,
};
use crate::models::owned;
use crate::text::{
    append_chars, append_str, chars_to_string, decimal, has_char, join, join_chars, lines, lines_str,
    starts_with, starts_with_str, str_chars, sub_chars, trim, trim_chars, trim_str, u64_decimal, views,
};
use crate::types::{
    CaCertificateParams, CertificateCrudResponse, CertificateDetailsResponse, CertificateKind,
    UserCertificateParams,
};

verus! {

// ───────────────────────────── parameters ─────────────────────────────

/// The parameters of a CA: validity 3650 days and a 4096-bit key unless given.
pub fn ca_params(
    common_name: String,
    organization: Option<String>,
    country: Option<String>,
    days: Option<u32>,
    key_size: Option<u32>,
) -> (p: CaCertificateParams)
    ensures
        p.common_name == common_name,
        p.organization == organization,
        p.country == country,
        p.days == (match days {
            Some(d) => d,
            None => 3650,
        }),
        p.key_size == (match key_size {
            Some(k) => k,
            None => 4096,
        }),
{
    let d = match days {
        Some(d) => d,
        None => 3650,
    };
    let k = match key_size {
        Some(k) => k,
        None => 4096,
    };
    CaCertificateParams { common_name, organization, country, days: d, key_size: k }
}

/// The parameters of a user certificate: no alternative names, validity 825 days
/// and a 4096-bit key unless given.
pub fn user_params(
    ca_name: String,
    identity: String,
    san: Option<Vec<String>>,
    days: Option<u32>,
    key_size: Option<u32>,
) -> (p: UserCertificateParams)
    ensures
        p.ca_name == ca_name,
        p.identity == identity,
        p.san@ == (match san {
            Some(s) => s@,
            None => Seq::<String>::empty(),
        }),
        p.days == (match days {
            Some(d) => d,
            None => 825,
        }),
        p.key_size == (match key_size {
            Some(k) => k,
            None => 4096,
        }),
{
    let s = match san {
        Some(s) => s,
        None => Vec::new(),
    };
    let d = match days {
        Some(d) => d,
        None => 825,
    };
    let k = match key_size {
        Some(k) => k,
        None => 4096,
    };
    UserCertificateParams { ca_name, identity, san: s, days: d, key_size: k }
}

// ───────────────────────────── answers ─────────────────────────────

/// An answer on a certificate: the HTTP status and the body.
#[derive(Debug)]
pub struct CertReply {
    pub status: u16,
    pub body: CertificateCrudResponse,
}

pub open spec fn cert_reply_is(
    r: CertReply,
    status: u16,
    name: Seq<char>,
    kind: CertificateKind,
    action: Seq<char>,
    success: bool,
    message: Seq<char>,
) -> bool {
    &&& r.status == status
    &&& r.body.name@ == name
    &&& r.body.kind == kind
    &&& r.body.action@ == action
    &&& r.body.success == success
    &&& r.body.message@ == message
}

fn cert_reply(status: u16, name: &str, kind: CertificateKind, action: &str, success: bool, message: String) -> (r:
    CertReply)
    ensures
        cert_reply_is(r, status, name@, kind, action@, success, message@),
{
    CertReply {
        status,
        body: CertificateCrudResponse { name: owned(name), kind, action: owned(action), success, message },
    }
}

fn text2(a: &str, b: &str) -> (r: String)
    ensures
        r@ == a@ + b@,
{
    let mut v = str_chars(a);
    append_str(&mut v, b);
    chars_to_string(&v)
}

/// `update` or `create`.
pub open spec fn upsert_action(update: bool) -> Seq<char> {
    if update {
        "update"@
    } else {
        "create"@
    }
}

fn upsert_action_name(update: bool) -> (r: &'static str)
    ensures
        r@ == upsert_action(update),
{
    if update {
        "update"
    } else {
        "create"
    }
}

/// What a request to generate a CA is refused for before any file is looked at:
/// a name that is not a safe one, then a blank common name. Otherwise the safe name.
pub fn ca_request_check(raw_name: &str, params: &CaCertificateParams, update: bool) -> (r: Result<String, CertReply>)
    ensures
        match r {
            Ok(n) => safe_name(raw_name@) == Some(n@) && trim(params.common_name@).len() > 0,
            Err(x) => match safe_name(raw_name@) {
                None => cert_reply_is(x, 400, raw_name@, CertificateKind::Ca, upsert_action(update), false, "name inválido"@),
                Some(n) => trim(params.common_name@).len() == 0 && cert_reply_is(
                    x,
                    400,
                    n,
                    CertificateKind::Ca,
                    upsert_action(update),
                    false,
                    "common_name es requerido"@,
                ),
            },
        },
{
    let action = upsert_action_name(update);
    match sanitize_certificate_name(raw_name) {
        None => Err(cert_reply(400, raw_name, CertificateKind::Ca, action, false, owned("name inválido"))),
        Some(name) => {
            if trim_str(params.common_name.as_str()).len() == 0 {
                Err(cert_reply(400, name.as_str(), CertificateKind::Ca, action, false, owned("common_name es requerido")))
            } else {
                Ok(name)
            }
        },
    }
}

/// What a request to generate a user certificate is refused for before any file is
/// looked at: a name that is not a safe one, then a CA name that is not, then a
/// blank identity. Otherwise the safe name and the safe CA name.
pub fn user_request_check(raw_name: &str, params: &UserCertificateParams, update: bool) -> (r: Result<
    (String, String),
    CertReply,
>)
    ensures
        match r {
            Ok((n, c)) => safe_name(raw_name@) == Some(n@) && safe_name(params.ca_name@) == Some(c@) && trim(
                params.identity@,
            ).len() > 0,
            Err(x) => match (safe_name(raw_name@), safe_name(params.ca_name@)) {
                (None, _) => cert_reply_is(
                    x,
                    400,
                    raw_name@,
                    CertificateKind::User,
                    upsert_action(update),
                    false,
                    "name inválido"@,
                ),
                (Some(n), None) => cert_reply_is(
                    x,
                    400,
                    n,
                    CertificateKind::User,
                    upsert_action(update),
                    false,
                    "ca_name inválido"@,
                ),
                (Some(n), Some(_)) => trim(params.identity@).len() == 0 && cert_reply_is(
                    x,
                    400,
                    n,
                    CertificateKind::User,
                    upsert_action(update),
                    false,
                    "identity es requerido"@,
                ),
            },
        },
{
    let action = upsert_action_name(update);
    match sanitize_certificate_name(raw_name) {
        None => Err(cert_reply(400, raw_name, CertificateKind::User, action, false, owned("name inválido"))),
        Some(name) => match sanitize_certificate_name(params.ca_name.as_str()) {
            None => Err(cert_reply(400, name.as_str(), CertificateKind::User, action, false, owned("ca_name inválido"))),
            Some(ca) => {
                if trim_str(params.identity.as_str()).len() == 0 {
                    Err(
                        cert_reply(400, name.as_str(), CertificateKind::User, action, false, owned("identity es requerido")),
                    )
                } else {
                    Ok((name, ca))
                }
            },
        },
    }
}

/// Why a certificate cannot be created because it exists, or updated because it
/// does not.
pub open spec fn existence_text(kind: CertificateKind, exists: bool) -> Seq<char> {
    match kind {
        CertificateKind::Ca => if exists {
            "La CA ya existe"@
        } else {
            "La CA no existe"@
        },
        CertificateKind::User => if exists {
            "El certificado de usuario ya existe"@
        } else {
            "El certificado de usuario no existe"@
        },
    }
}

/// A creation of a certificate that exists is refused (409), and an update of one
/// that does not (404).
pub fn cert_existence_refusal(kind: CertificateKind, name: &str, update: bool, exists: bool) -> (r: Option<CertReply>)
    ensures
        r is None <==> update == exists,
        r matches Some(x) ==> cert_reply_is(
            x,
            if exists {
                409u16
            } else {
                404u16
            },
            name@,
            kind,
            upsert_action(update),
            false,
            existence_text(kind, exists),
        ),
{
    if update == exists {
        return None;
    }
    let action = upsert_action_name(update);
    let m = match kind {
        CertificateKind::Ca => if exists {
            owned("La CA ya existe")
        } else {
            owned("La CA no existe")
        },
        CertificateKind::User => if exists {
            owned("El certificado de usuario ya existe")
        } else {
            owned("El certificado de usuario no existe")
        },
    };
    let status: u16 = if exists {
        409
    } else {
        404
    };
    Some(cert_reply(status, name, kind, action, false, m))
}

/// The directories of the certificates could not be made.
pub fn cert_directories_failed(kind: CertificateKind, name: &str, update: bool, err: &str) -> (r: CertReply)
    ensures
        cert_reply_is(r, 500, name@, kind, upsert_action(update), false, "No se pudieron preparar directorios: "@ + err@),
{
    cert_reply(500, name, kind, upsert_action_name(update), false, text2("No se pudieron preparar directorios: ", err))
}

/// The CA named by a request for a user certificate lacks its certificate or its key.
pub fn signing_ca_missing(name: &str, update: bool) -> (r: CertReply)
    ensures
        cert_reply_is(
            r,
            404,
            name@,
            CertificateKind::User,
            upsert_action(update),
            false,
            "La CA especificada no existe o está incompleta"@,
        ),
{
    cert_reply(
        404,
        name,
        CertificateKind::User,
        upsert_action_name(update),
        false,
        owned("La CA especificada no existe o está incompleta"),
    )
}

/// The start of the message for a generation that failed.
pub open spec fn generation_failure_text(kind: CertificateKind) -> Seq<char> {
    match kind {
        CertificateKind::Ca => "No se pudo generar la CA: "@,
        CertificateKind::User => "No se pudo generar certificado de usuario: "@,
    }
}

/// `openssl` failed to make the files.
pub fn cert_generation_failed(kind: CertificateKind, name: &str, update: bool, err: &str) -> (r: CertReply)
    ensures
        cert_reply_is(r, 400, name@, kind, upsert_action(update), false, generation_failure_text(kind) + err@),
{
    let lead = match kind {
        CertificateKind::Ca => "No se pudo generar la CA: ",
        CertificateKind::User => "No se pudo generar certificado de usuario: ",
    };
    cert_reply(400, name, kind, upsert_action_name(update), false, text2(lead, err))
}

pub open spec fn generated_text(kind: CertificateKind) -> Seq<char> {
    match kind {
        CertificateKind::Ca => "CA generada y credenciales recargadas"@,
        CertificateKind::User => "Certificado de usuario generado y credenciales recargadas"@,
    }
}

pub open spec fn generated_reload_failure_text(kind: CertificateKind) -> Seq<char> {
    match kind {
        CertificateKind::Ca => "CA generada pero falló load-creds: "@,
        CertificateKind::User => "Certificado de usuario generado pero falló load-creds: "@,
    }
}

/// The answer once the files are made, by the outcome of reloading the credentials:
/// 201 for a creation and 200 for an update, 400 when the reload failed.
pub fn cert_generated(kind: CertificateKind, name: &str, update: bool, reload_error: Option<&str>) -> (r: CertReply)
    ensures
        match reload_error {
            None => cert_reply_is(
                r,
                if update {
                    200u16
                } else {
                    201u16
                },
                name@,
                kind,
                upsert_action(update),
                true,
                generated_text(kind),
            ),
            Some(e) => cert_reply_is(
                r,
                400,
                name@,
                kind,
                upsert_action(update),
                false,
                generated_reload_failure_text(kind) + e@,
            ),
        },
{
    let action = upsert_action_name(update);
    match reload_error {
        None => {
            let status: u16 = if update {
                200
            } else {
                201
            };
            let m = match kind {
                CertificateKind::Ca => owned("CA generada y credenciales recargadas"),
                CertificateKind::User => owned("Certificado de usuario generado y credenciales recargadas"),
            };
            cert_reply(status, name, kind, action, true, m)
        },
        Some(e) => {
            let lead = match kind {
                CertificateKind::Ca => "CA generada pero falló load-creds: ",
                CertificateKind::User => "Certificado de usuario generado pero falló load-creds: ",
            };
            cert_reply(400, name, kind, action, false, text2(lead, e))
        },
    }
}

/// The message for a name that is not a safe one, on a read or a removal.
pub open spec fn lookup_name_text(deleting: bool) -> Seq<char> {
    if deleting {
        "name inválido"@
    } else {
        "certificate_name inválido"@
    }
}

pub open spec fn lookup_action(deleting: bool) -> Seq<char> {
    if deleting {
        "delete"@
    } else {
        "read"@
    }
}

/// The safe name of a certificate to read or remove, or the refusal of the request.
pub fn cert_lookup_name(raw_name: &str, kind: CertificateKind, deleting: bool) -> (r: Result<String, CertReply>)
    ensures
        match r {
            Ok(n) => safe_name(raw_name@) == Some(n@),
            Err(x) => safe_name(raw_name@) is None && cert_reply_is(
                x,
                400,
                raw_name@,
                kind,
                lookup_action(deleting),
                false,
                lookup_name_text(deleting),
            ),
        },
{
    match sanitize_certificate_name(raw_name) {
        Some(n) => Ok(n),
        None => {
            let (action, m) = if deleting {
                ("delete", "name inválido")
            } else {
                ("read", "certificate_name inválido")
            };
            Err(cert_reply(400, raw_name, kind, action, false, owned(m)))
        },
    }
}

/// The certificate to read or remove has no file.
pub fn cert_not_found(name: &str, kind: CertificateKind, deleting: bool) -> (r: CertReply)
    ensures
        cert_reply_is(r, 404, name@, kind, lookup_action(deleting), false, "Certificado no encontrado"@),
{
    let action = if deleting {
        "delete"
    } else {
        "read"
    };
    cert_reply(404, name, kind, action, false, owned("Certificado no encontrado"))
}

/// What `openssl x509 -noout -subject -issuer -enddate` said of a certificate.
pub type CertMeta = (Option<Seq<char>>, Option<Seq<char>>, Option<Seq<char>>);

/// One line of that output: `subject=`, `issuer=` and `notAfter=` lines (trimmed)
/// set their field, the last one of each kind winning.
pub open spec fn meta_step(m: CertMeta, line: Seq<char>) -> CertMeta {
    let t = trim(line);
    if starts_with(t, "subject="@) {
        (Some(trim(t.skip(8))), m.1, m.2)
    } else if starts_with(t, "issuer="@) {
        (m.0, Some(trim(t.skip(7))), m.2)
    } else if starts_with(t, "notAfter="@) {
        (m.0, m.1, Some(trim(t.skip(9))))
    } else {
        m
    }
}

pub open spec fn meta_fold(ls: Seq<Seq<char>>) -> CertMeta
    decreases ls.len(),
{
    if ls.len() == 0 {
        (None, None, None)
    } else {
        meta_step(meta_fold(ls.drop_last()), ls.last())
    }
}

pub open spec fn opt_view(o: Option<String>) -> Option<Seq<char>> {
    match o {
        Some(s) => Some(s@),
        None => None,
    }
}

fn after_prefix(t: &Vec<char>, n: usize) -> (r: Option<String>)
    requires
        n <= t.len(),
    ensures
        r matches Some(s) && s@ == trim(t@.skip(n as int)),
{
    let rest = sub_chars(t, n, t.len());
    assert(rest@ =~= t@.skip(n as int));
    Some(chars_to_string(&trim_chars(&rest)))
}

/// The subject, issuer and expiry that `openssl` printed (see `meta_fold`).
pub fn certificate_metadata(stdout: &str) -> (r: (Option<String>, Option<String>, Option<String>))
    ensures
        (opt_view(r.0), opt_view(r.1), opt_view(r.2)) == meta_fold(lines(stdout@)),
{
    let ls = lines_str(stdout);
    let ghost lv = views(ls@);
    let mut subject: Option<String> = None;
    let mut issuer: Option<String> = None;
    let mut not_after: Option<String> = None;
    let mut i: usize = 0;
    assert(lv.take(0) =~= Seq::<Seq<char>>::empty());
    while i < ls.len()
        invariant
            i <= ls.len(),
            lv == views(ls@),
            lv == lines(stdout@),
            (opt_view(subject), opt_view(issuer), opt_view(not_after)) == meta_fold(lv.take(i as int)),
        decreases ls.len() - i,
    {
        let ghost t = lv.take(i + 1);
        assert(t.drop_last() =~= lv.take(i as int));
        assert(t.last() == ls@[i as int]@);
        let tl = trim_chars(&ls[i]);
        if starts_with_str(&tl, "subject=") {
            proof {
                reveal_strlit("subject=");
            }
            subject = after_prefix(&tl, 8);
        } else if starts_with_str(&tl, "issuer=") {
            proof {
                reveal_strlit("issuer=");
            }
            issuer = after_prefix(&tl, 7);
        } else if starts_with_str(&tl, "notAfter=") {
            proof {
                reveal_strlit("notAfter=");
            }
            not_after = after_prefix(&tl, 9);
        }
        i += 1;
    }
    assert(lv.take(ls.len() as int) =~= lv);
    (subject, issuer, not_after)
}

/// The message of a failed `openssl` run: its standard error read as UTF-8 and
/// trimmed, or `otherwise` when that is blank.
pub open spec fn openssl_error_text(stderr: Seq<u8>, otherwise: Seq<char>) -> Seq<char> {
    let t = trim(utf8_lossy(stderr));
    if t.len() == 0 {
        otherwise
    } else {
        t
    }
}

fn openssl_error(stderr: &Vec<u8>, otherwise: &str) -> (r: String)
    ensures
        r@ == openssl_error_text(stderr@, otherwise@),
{
    let t = trim_str(lossy_text(stderr).as_str());
    if t.len() == 0 {
        owned(otherwise)
    } else {
        chars_to_string(&t)
    }
}

/// The outcome of a run of `openssl` that made files.
pub fn openssl_outcome(success: bool, stderr: &Vec<u8>) -> (r: Result<(), String>)
    ensures
        success <==> r is Ok,
        r matches Err(e) ==> e@ == openssl_error_text(stderr@, "openssl falló sin detalle"@),
{
    if success {
        Ok(())
    } else {
        Err(openssl_error(stderr, "openssl falló sin detalle"))
    }
}

/// The outcome of the run of `openssl` that reads a certificate.
pub fn metadata_outcome(success: bool, stdout: &Vec<u8>, stderr: &Vec<u8>) -> (r: Result<
    (Option<String>, Option<String>, Option<String>),
    String,
>)
    ensures
        success <==> r is Ok,
        r matches Ok(m) ==> (opt_view(m.0), opt_view(m.1), opt_view(m.2)) == meta_fold(lines(utf8_lossy(stdout@))),
        r matches Err(e) ==> e@ == openssl_error_text(stderr@, "openssl no pudo leer metadata"@),
{
    if success {
        let out = lossy_text(stdout);
        Ok(certificate_metadata(out.as_str()))
    } else {
        Err(openssl_error(stderr, "openssl no pudo leer metadata"))
    }
}

/// The message when `openssl` cannot be started at all.
pub fn openssl_spawn_error(reading: bool, err: &str) -> (r: String)
    ensures
        r@ == (if reading {
            "No se pudo ejecutar openssl para metadata: "@
        } else {
            "No se pudo ejecutar openssl: "@
        }) + err@,
{
    if reading {
        text2("No se pudo ejecutar openssl para metadata: ", err)
    } else {
        text2("No se pudo ejecutar openssl: ", err)
    }
}

/// What a read of a certificate answers: its paths and what `openssl` said of it.
pub fn certificate_details(
    kind: CertificateKind,
    name: &str,
    meta: (Option<String>, Option<String>, Option<String>),
) -> (r: CertificateDetailsResponse)
    ensures
        r.name@ == name@,
        r.kind == kind,
        r.certificate_path@ == cert_path(kind, name@),
        r.private_key_path matches Some(k) && k@ == key_path(kind, name@),
        r.subject == meta.0,
        r.issuer == meta.1,
        r.not_after == meta.2,
{
    let (subject, issuer, not_after) = meta;
    CertificateDetailsResponse {
        name: owned(name),
        kind,
        certificate_path: crate::connections::certificate_cert_path(kind, name),
        private_key_path: Some(crate::connections::certificate_key_path(kind, name)),
        subject,
        issuer,
        not_after,
    }
}

/// A read whose run of `openssl` failed.
pub fn metadata_failed(kind: CertificateKind, name: &str, err: &str) -> (r: CertReply)
    ensures
        cert_reply_is(r, 500, name@, kind, "read"@, false, "No se pudo leer metadata del certificado: "@ + err@),
{
    cert_reply(500, name, kind, "read", false, text2("No se pudo leer metadata del certificado: ", err))
}

/// A removal whose certificate file could not be removed.
pub fn cert_removal_failed(kind: CertificateKind, name: &str, err: &str) -> (r: CertReply)
    ensures
        cert_reply_is(r, 500, name@, kind, "delete"@, false, "Error eliminando certificado: "@ + err@),
{
    cert_reply(500, name, kind, "delete", false, text2("Error eliminando certificado: ", err))
}

/// The answer once the files are removed, by the outcome of reloading the credentials.
pub fn cert_removed(kind: CertificateKind, name: &str, reload_error: Option<&str>) -> (r: CertReply)
    ensures
        match reload_error {
            None => cert_reply_is(r, 200, name@, kind, "delete"@, true, "Certificado eliminado y credenciales recargadas"@),
            Some(e) => cert_reply_is(
                r,
                400,
                name@,
                kind,
                "delete"@,
                false,
                "Certificado eliminado pero falló load-creds: "@ + e@,
            ),
        },
{
    match reload_error {
        None => cert_reply(200, name, kind, "delete", true, owned("Certificado eliminado y credenciales recargadas")),
        Some(e) => cert_reply(400, name, kind, "delete", false, text2("Certificado eliminado pero falló load-creds: ", e)),
    }
}

/// A listing that failed.
pub fn cert_listing_failed(kind: CertificateKind, err: &str) -> (r: CertReply)
    ensures
        cert_reply_is(
            r,
            500,
            Seq::empty(),
            kind,
            "list"@,
            false,
            (match kind {
                CertificateKind::Ca => "Error listando CA: "@,
                CertificateKind::User => "Error listando certificados de usuario: "@,
            }) + err@,
        ),
{
    let lead = match kind {
        CertificateKind::Ca => "Error listando CA: ",
        CertificateKind::User => "Error listando certificados de usuario: ",
    };
    proof {
        reveal_strlit("");
        assert(""@ =~= Seq::<char>::empty());
    }
    cert_reply(500, "", kind, "list", false, text2(lead, err))
}

// ───────────────────────────── openssl arguments ─────────────────────────────

fn push_str(v: &mut Vec<String>, s: &str)
    ensures
        string_views(final(v)@) == string_views(old(v)@).push(s@),
{
    let ghost o = v@;
    v.push(owned(s));
    assert(string_views(v@) =~= string_views(o).push(s@));
}

fn push_string(v: &mut Vec<String>, s: String)
    ensures
        string_views(final(v)@) == string_views(old(v)@).push(s@),
{
    let ghost o = v@;
    v.push(s);
    assert(string_views(v@) =~= string_views(o).push(s@));
}

/// The arguments that make an RSA private key of `key_size` bits at `key_path`.
pub open spec fn genkey_arguments(key_size: u32, key_path: Seq<char>) -> Seq<Seq<char>> {
    seq!["genpkey"@, "-algorithm"@, "RSA"@, "-pkeyopt"@, "rsa_keygen_bits:"@ + decimal(key_size as nat), "-out"@, key_path]
}

pub fn genkey_args(key_size: u32, key_path: &str) -> (r: Vec<String>)
    ensures
        string_views(r@) == genkey_arguments(key_size, key_path@),
{
    let mut v: Vec<String> = Vec::new();
    push_str(&mut v, "genpkey");
    push_str(&mut v, "-algorithm");
    push_str(&mut v, "RSA");
    push_str(&mut v, "-pkeyopt");
    let mut b = str_chars("rsa_keygen_bits:");
    append_chars(&mut b, &u64_decimal(key_size as u64));
    push_string(&mut v, chars_to_string(&b));
    push_str(&mut v, "-out");
    push_str(&mut v, key_path);
    assert(string_views(v@) =~= genkey_arguments(key_size, key_path@));
    v
}

/// The arguments that make a self-signed CA certificate.
pub open spec fn ca_request_arguments(key_path: Seq<char>, days: u32, subject: Seq<char>, cert_path: Seq<char>) -> Seq<
    Seq<char>,
> {
    seq![
        "req"@,
        "-x509"@,
        "-new"@,
        "-key"@,
        key_path,
        "-sha256"@,
        "-days"@,
        decimal(days as nat),
        "-subj"@,
        subject,
        "-out"@,
        cert_path,
    ]
}

pub fn ca_request_args(key_path: &str, days: u32, subject: &str, cert_path: &str) -> (r: Vec<String>)
    ensures
        string_views(r@) == ca_request_arguments(key_path@, days, subject@, cert_path@),
{
    let mut v: Vec<String> = Vec::new();
    push_str(&mut v, "req");
    push_str(&mut v, "-x509");
    push_str(&mut v, "-new");
    push_str(&mut v, "-key");
    push_str(&mut v, key_path);
    push_str(&mut v, "-sha256");
    push_str(&mut v, "-days");
    push_string(&mut v, chars_to_string(&u64_decimal(days as u64)));
    push_str(&mut v, "-subj");
    push_str(&mut v, subject);
    push_str(&mut v, "-out");
    push_str(&mut v, cert_path);
    assert(string_views(v@) =~= ca_request_arguments(key_path@, days, subject@, cert_path@));
    v
}

/// The arguments that make a signing request.
pub open spec fn csr_arguments(key_path: Seq<char>, subject: Seq<char>, csr_path: Seq<char>) -> Seq<Seq<char>> {
    seq!["req"@, "-new"@, "-key"@, key_path, "-subj"@, subject, "-out"@, csr_path]
}

pub fn csr_args(key_path: &str, subject: &str, csr_path: &str) -> (r: Vec<String>)
    ensures
        string_views(r@) == csr_arguments(key_path@, subject@, csr_path@),
{
    let mut v: Vec<String> = Vec::new();
    push_str(&mut v, "req");
    push_str(&mut v, "-new");
    push_str(&mut v, "-key");
    push_str(&mut v, key_path);
    push_str(&mut v, "-subj");
    push_str(&mut v, subject);
    push_str(&mut v, "-out");
    push_str(&mut v, csr_path);
    assert(string_views(v@) =~= csr_arguments(key_path@, subject@, csr_path@));
    v
}

/// The arguments that sign a request with the CA, then, when there is an extension
/// file, the arguments that apply its `v3_req` section.
pub open spec fn sign_arguments(
    csr_path: Seq<char>,
    ca_cert: Seq<char>,
    ca_key: Seq<char>,
    cert_path: Seq<char>,
    days: u32,
    ext_path: Option<Seq<char>>,
) -> Seq<Seq<char>> {
    let base = seq![
        "x509"@,
        "-req"@,
        "-in"@,
        csr_path,
        "-CA"@,
        ca_cert,
        "-CAkey"@,
        ca_key,
        "-CAcreateserial"@,
        "-out"@,
        cert_path,
        "-days"@,
        decimal(days as nat),
        "-sha256"@,
    ];
    match ext_path {
        Some(e) => base + seq!["-extfile"@, e, "-extensions"@, "v3_req"@],
        None => base,
    }
}

pub fn sign_args(
    csr_path: &str,
    ca_cert: &str,
    ca_key: &str,
    cert_path: &str,
    days: u32,
    ext_path: Option<&str>,
) -> (r: Vec<String>)
    ensures
        string_views(r@) == sign_arguments(
            csr_path@,
            ca_cert@,
            ca_key@,
            cert_path@,
            days,
            match ext_path {
                Some(e) => Some(e@),
                None => None,
            },
        ),
{
    let mut v: Vec<String> = Vec::new();
    push_str(&mut v, "x509");
    push_str(&mut v, "-req");
    push_str(&mut v, "-in");
    push_str(&mut v, csr_path);
    push_str(&mut v, "-CA");
    push_str(&mut v, ca_cert);
    push_str(&mut v, "-CAkey");
    push_str(&mut v, ca_key);
    push_str(&mut v, "-CAcreateserial");
    push_str(&mut v, "-out");
    push_str(&mut v, cert_path);
    push_str(&mut v, "-days");
    push_string(&mut v, chars_to_string(&u64_decimal(days as u64)));
    push_str(&mut v, "-sha256");
    let ghost base = string_views(v@);
    match ext_path {
        Some(e) => {
            push_str(&mut v, "-extfile");
            push_str(&mut v, e);
            push_str(&mut v, "-extensions");
            push_str(&mut v, "v3_req");
            assert(string_views(v@) =~= base + seq!["-extfile"@, e@, "-extensions"@, "v3_req"@]);
        },
        None => {},
    }
    v
}

/// The arguments that read a certificate's subject, issuer and expiry.
pub open spec fn metadata_arguments(cert_path: Seq<char>) -> Seq<Seq<char>> {
    seq!["x509"@, "-in"@, cert_path, "-noout"@, "-subject"@, "-issuer"@, "-enddate"@]
}

pub fn metadata_args(cert_path: &str) -> (r: Vec<String>)
    ensures
        string_views(r@) == metadata_arguments(cert_path@),
{
    let mut v: Vec<String> = Vec::new();
    push_str(&mut v, "x509");
    push_str(&mut v, "-in");
    push_str(&mut v, cert_path);
    push_str(&mut v, "-noout");
    push_str(&mut v, "-subject");
    push_str(&mut v, "-issuer");
    push_str(&mut v, "-enddate");
    assert(string_views(v@) =~= metadata_arguments(cert_path@));
    v
}

/// An alternative name: trimmed, and taken as a DNS name unless it names its type.
pub open spec fn san_entry(v: Seq<char>) -> Seq<char> {
    if has_char(trim(v), ':') {
        trim(v)
    } else {
        "DNS:"@ + trim(v)
    }
}

/// The alternative names of a request, blank ones left out.
pub open spec fn san_entries(san: Seq<Seq<char>>) -> Seq<Seq<char>>
    decreases san.len(),
{
    if san.len() == 0 {
        seq![]
    } else {
        let rest = san_entries(san.drop_last());
        if trim(san.last()).len() == 0 {
            rest
        } else {
            rest.push(san_entry(san.last()))
        }
    }
}

pub fn san_values(san: &Vec<String>) -> (r: Vec<String>)
    ensures
        string_views(r@) == san_entries(string_views(san@)),
{
    let ghost sv = string_views(san@);
    let mut out: Vec<String> = Vec::new();
    let mut i: usize = 0;
    assert(sv.take(0) =~= Seq::<Seq<char>>::empty());
    while i < san.len()
        invariant
            i <= san.len(),
            sv == string_views(san@),
            string_views(out@) == san_entries(sv.take(i as int)),
        decreases san.len() - i,
    {
        let ghost t = sv.take(i + 1);
        assert(t.drop_last() =~= sv.take(i as int));
        assert(t.last() == san@[i as int]@);
        let tv = trim_str(san[i].as_str());
        if tv.len() > 0 {
            if crate::text::contains_char(&tv, ':') {
                push_string(&mut out, chars_to_string(&tv));
            } else {
                let mut d = str_chars("DNS:");
                append_chars(&mut d, &tv);
                push_string(&mut out, chars_to_string(&d));
            }
        }
        i += 1;
    }
    assert(sv.take(san.len() as int) =~= sv);
    out
}

/// The extension file that makes a client certificate with the given alternative names.
pub open spec fn san_extension_text(entries: Seq<Seq<char>>) -> Seq<char> {
    "[v3_req]\nbasicConstraints=CA:FALSE\nkeyUsage=digitalSignature,keyEncipherment\nextendedKeyUsage=clientAuth\nsubjectAltName="@
        + join(entries, ","@) + "\n"@
}

pub fn san_extension(entries: &Vec<String>) -> (r: String)
    ensures
        r@ == san_extension_text(string_views(entries@)),
{
    let cs = crate::connections::strings_to_chars(entries);
    let mut v = str_chars(
        "[v3_req]\nbasicConstraints=CA:FALSE\nkeyUsage=digitalSignature,keyEncipherment\nextendedKeyUsage=clientAuth\nsubjectAltName=",
    );
    append_chars(&mut v, &join_chars(&cs, &str_chars(",")));
    append_str(&mut v, "\n");
    chars_to_string(&v)
}

/// `/` replaced by `_`.
pub open spec fn slashes_replaced(s: Seq<char>) -> Seq<char> {
    s.map_values(|c: char|
        if c == '/' {
            '_'
        } else {
            c
        })
}

/// The name of a scratch file for a user certificate: `bifrost-user-<identity>-<pid>.<extension>`,
/// with the slashes of the identity replaced.
pub open spec fn scratch_name(identity: Seq<char>, pid: u32, extension: Seq<char>) -> Seq<char> {
    "bifrost-user-"@ + slashes_replaced(identity) + "-"@ + decimal(pid as nat) + "."@ + extension
}

pub fn scratch_file_name(identity: &str, pid: u32, extension: &str) -> (r: String)
    ensures
        r@ == scratch_name(identity@, pid, extension@),
{
    let id = str_chars(identity);
    let mut v = str_chars("bifrost-user-");
    let ghost start = v@;
    let mut i: usize = 0;
    while i < id.len()
        invariant
            i <= id.len(),
            id@ == identity@,
            v@ == start + slashes_replaced(id@.take(i as int)),
        decreases id.len() - i,
    {
        let c = id[i];
        if c == '/' {
            v.push('_');
        } else {
            v.push(c);
        }
        assert(slashes_replaced(id@.take(i + 1)) =~= slashes_replaced(id@.take(i as int)).push(
            if c == '/' {
                '_'
            } else {
                c
            },
        ));
        i += 1;
    }
    assert(id@.take(id.len() as int) =~= id@);
    append_str(&mut v, "-");
    append_chars(&mut v, &u64_decimal(pid as u64));
    append_str(&mut v, ".");
    append_str(&mut v, extension);
    chars_to_string(&v)
}

// ───────────────────────────── making and removing certificates ─────────────────────────────

/// Where a request to make or remove a certificate stands; `Done` has answered.
#[derive(Debug, Clone, Copy, PartialEq, Eq, Structural)]
pub enum CertStage {
    /// Waiting to know whether the certificate's file exists.
    Checking,
    /// Waiting for the directories of the certificates to be made.
    Preparing,
    /// Waiting to know whether the signing CA has its certificate and its key.
    CheckingCa,
    /// Waiting for `openssl` to make the key and the certificate.
    Generating,
    /// Waiting for the certificate's files to be removed.
    Removing,
    /// Waiting for the credentials to be reloaded.
    Reloading,
    Done,
}

/// A request on a certificate under way: the safe name, its kind, whether it
/// updates or removes, the name of the signing CA (for a user certificate), and
/// the stage.
#[derive(Debug)]
pub struct CertCtl {
    pub name: String,
    pub kind: CertificateKind,
    pub update: bool,
    pub delete: bool,
    pub ca_name: String,
    pub stage: CertStage,
}

pub type CertCtlModel = (Seq<char>, CertificateKind, bool, bool, Seq<char>, CertStage);

pub open spec fn cert_ctl_model(c: CertCtl) -> CertCtlModel {
    (c.name@, c.kind, c.update, c.delete, c.ca_name@, c.stage)
}

/// The work asked of the caller, or the answer.
#[derive(Debug)]
pub enum CertAction {
    /// Find whether the certificate's file exists.
    CheckExists(String),
    /// Make the directories of the certificates.
    PrepareDirectories,
    /// Find whether both the CA's certificate and its key exist.
    CheckCa { cert_path: String, key_path: String },
    /// Make the key and the certificate with `openssl`.
    Generate { cert_path: String, key_path: String },
    /// Remove the certificate's file, then its key (whose removal may fail unheeded).
    Remove { cert_path: String, key_path: String },
    /// Reload the credentials (`swanctl --load-creds`).
    ReloadCreds,
    Reply(CertReply),
}

pub enum CertActionModel {
    CheckExists(Seq<char>),
    PrepareDirectories,
    CheckCa(Seq<char>, Seq<char>),
    Generate(Seq<char>, Seq<char>),
    Remove(Seq<char>, Seq<char>),
    ReloadCreds,
    Reply(u16, Seq<char>, CertificateKind, Seq<char>, bool, Seq<char>),
}

impl View for CertAction {
    type V = CertActionModel;

    open spec fn view(&self) -> CertActionModel {
        match self {
            CertAction::CheckExists(p) => CertActionModel::CheckExists(p@),
            CertAction::PrepareDirectories => CertActionModel::PrepareDirectories,
            CertAction::CheckCa { cert_path, key_path } => CertActionModel::CheckCa(cert_path@, key_path@),
            CertAction::Generate { cert_path, key_path } => CertActionModel::Generate(cert_path@, key_path@),
            CertAction::Remove { cert_path, key_path } => CertActionModel::Remove(cert_path@, key_path@),
            CertAction::ReloadCreds => CertActionModel::ReloadCreds,
            CertAction::Reply(r) => CertActionModel::Reply(
                r.status,
                r.body.name@,
                r.body.kind,
                r.body.action@,
                r.body.success,
                r.body.message@,
            ),
        }
    }
}

/// The outcome of the work last asked for; an error is the reason it failed.
#[derive(Debug)]
pub enum CertEvent {
    Exists(bool),
    Prepared(Option<String>),
    CaFound(bool),
    Generated(Option<String>),
    Removed(Option<String>),
    Reloaded(Option<String>),
}

pub enum CertEventModel {
    Exists(bool),
    Prepared(Option<Seq<char>>),
    CaFound(bool),
    Generated(Option<Seq<char>>),
    Removed(Option<Seq<char>>),
    Reloaded(Option<Seq<char>>),
}

impl View for CertEvent {
    type V = CertEventModel;

    open spec fn view(&self) -> CertEventModel {
        match self {
            CertEvent::Exists(b) => CertEventModel::Exists(*b),
            CertEvent::Prepared(e) => CertEventModel::Prepared(opt_view(*e)),
            CertEvent::CaFound(b) => CertEventModel::CaFound(*b),
            CertEvent::Generated(e) => CertEventModel::Generated(opt_view(*e)),
            CertEvent::Removed(e) => CertEventModel::Removed(opt_view(*e)),
            CertEvent::Reloaded(e) => CertEventModel::Reloaded(opt_view(*e)),
        }
    }
}

/// The event that each stage waits for.
pub open spec fn cert_awaits(stage: CertStage, e: CertEventModel) -> bool {
    match e {
        CertEventModel::Exists(_) => stage == CertStage::Checking,
        CertEventModel::Prepared(_) => stage == CertStage::Preparing,
        CertEventModel::CaFound(_) => stage == CertStage::CheckingCa,
        CertEventModel::Generated(_) => stage == CertStage::Generating,
        CertEventModel::Removed(_) => stage == CertStage::Removing,
        CertEventModel::Reloaded(_) => stage == CertStage::Reloading,
    }
}

/// The work that each stage has asked for; `Done` goes with the answer.
pub open spec fn cert_asks(stage: CertStage, a: CertActionModel) -> bool {
    match a {
        CertActionModel::CheckExists(_) => stage == CertStage::Checking,
        CertActionModel::PrepareDirectories => stage == CertStage::Preparing,
        CertActionModel::CheckCa(_, _) => stage == CertStage::CheckingCa,
        CertActionModel::Generate(_, _) => stage == CertStage::Generating,
        CertActionModel::Remove(_, _) => stage == CertStage::Removing,
        CertActionModel::ReloadCreds => stage == CertStage::Reloading,
        CertActionModel::Reply(_, _, _, _, _, _) => stage == CertStage::Done,
    }
}

/// Whether `e` is the outcome that `stage` waits for.
pub fn cert_stage_awaits(stage: CertStage, e: &CertEvent) -> (r: bool)
    ensures
        r == cert_awaits(stage, e@),
{
    match e {
        CertEvent::Exists(_) => stage == CertStage::Checking,
        CertEvent::Prepared(_) => stage == CertStage::Preparing,
        CertEvent::CaFound(_) => stage == CertStage::CheckingCa,
        CertEvent::Generated(_) => stage == CertStage::Generating,
        CertEvent::Removed(_) => stage == CertStage::Removing,
        CertEvent::Reloaded(_) => stage == CertStage::Reloading,
    }
}

pub open spec fn cert_with_stage(c: CertCtlModel, stage: CertStage) -> CertCtlModel {
    (c.0, c.1, c.2, c.3, c.4, stage)
}

/// How a request on a certificate goes on from the outcome `e` of the work it asked
/// for. Making one: a create of an existing certificate is refused (409) and an
/// update of a missing one (404); then the directories are made (500 when they
/// cannot be), a user certificate's CA must have its certificate and its key (404),
/// `openssl` makes the files (400 when it fails) and the credentials are reloaded.
/// Removing one: a missing certificate is 404; its files are removed (500 when the
/// certificate cannot be) and the credentials reloaded. The answer tells the
/// outcome of the reload.
pub open spec fn cert_step_model(c: CertCtlModel, e: CertEventModel) -> (CertCtlModel, CertActionModel) {
    let (name, kind, update, delete, ca, stage) = c;
    let done = cert_with_stage(c, CertStage::Done);
    let act = upsert_action(update);
    match e {
        CertEventModel::Exists(ex) => if delete {
            if ex {
                (cert_with_stage(c, CertStage::Removing), CertActionModel::Remove(cert_path(kind, name), key_path(kind, name)))
            } else {
                (done, CertActionModel::Reply(404, name, kind, "delete"@, false, "Certificado no encontrado"@))
            }
        } else if update != ex {
            (
                done,
                CertActionModel::Reply(
                    if ex {
                        409u16
                    } else {
                        404u16
                    },
                    name,
                    kind,
                    act,
                    false,
                    existence_text(kind, ex),
                ),
            )
        } else {
            (cert_with_stage(c, CertStage::Preparing), CertActionModel::PrepareDirectories)
        },
        CertEventModel::Prepared(Some(m)) => (
            done,
            CertActionModel::Reply(500, name, kind, act, false, "No se pudieron preparar directorios: "@ + m),
        ),
        CertEventModel::Prepared(None) => if kind == CertificateKind::User {
            (cert_with_stage(c, CertStage::CheckingCa), CertActionModel::CheckCa(ca_cert_path(ca), ca_key_path(ca)))
        } else {
            (cert_with_stage(c, CertStage::Generating), CertActionModel::Generate(cert_path(kind, name), key_path(kind, name)))
        },
        CertEventModel::CaFound(false) => (
            done,
            CertActionModel::Reply(404, name, kind, act, false, "La CA especificada no existe o está incompleta"@),
        ),
        CertEventModel::CaFound(true) => (
            cert_with_stage(c, CertStage::Generating),
            CertActionModel::Generate(cert_path(kind, name), key_path(kind, name)),
        ),
        CertEventModel::Generated(Some(m)) => (
            done,
            CertActionModel::Reply(400, name, kind, act, false, generation_failure_text(kind) + m),
        ),
        CertEventModel::Generated(None) => (cert_with_stage(c, CertStage::Reloading), CertActionModel::ReloadCreds),
        CertEventModel::Removed(Some(m)) => (
            done,
            CertActionModel::Reply(500, name, kind, "delete"@, false, "Error eliminando certificado: "@ + m),
        ),
        CertEventModel::Removed(None) => (cert_with_stage(c, CertStage::Reloading), CertActionModel::ReloadCreds),
        CertEventModel::Reloaded(None) => (
            done,
            if delete {
                CertActionModel::Reply(200, name, kind, "delete"@, true, "Certificado eliminado y credenciales recargadas"@)
            } else {
                CertActionModel::Reply(
                    if update {
                        200u16
                    } else {
                        201u16
                    },
                    name,
                    kind,
                    act,
                    true,
                    generated_text(kind),
                )
            },
        ),
        CertEventModel::Reloaded(Some(m)) => (
            done,
            if delete {
                CertActionModel::Reply(400, name, kind, "delete"@, false, "Certificado eliminado pero falló load-creds: "@ + m)
            } else {
                CertActionModel::Reply(400, name, kind, act, false, generated_reload_failure_text(kind) + m)
            },
        ),
    }
}

fn cert_ctl_with(c: &CertCtl, stage: CertStage) -> (r: CertCtl)
    ensures
        cert_ctl_model(r) == cert_with_stage(cert_ctl_model(*c), stage),
{
    CertCtl { name: c.name.clone(), kind: c.kind, update: c.update, delete: c.delete, ca_name: c.ca_name.clone(), stage }
}

fn refused(name: &str, kind: CertificateKind, update: bool, delete: bool, r: CertReply) -> (res: (CertCtl, CertAction))
    ensures
        res.0.stage == CertStage::Done,
        res.1 == CertAction::Reply(r),
{
    (CertCtl { name: owned(name), kind, update, delete, ca_name: owned(""), stage: CertStage::Done }, CertAction::Reply(r))
}

/// Starts making a CA: the request checked (see `ca_request_check`), then the check
/// whether its certificate exists.
pub fn ca_upsert_start(raw_name: &str, params: &CaCertificateParams, update: bool) -> (r: (CertCtl, CertAction))
    ensures
        cert_asks(r.0.stage, r.1@),
        match safe_name(raw_name@) {
            None => r.1@ == CertActionModel::Reply(400, raw_name@, CertificateKind::Ca, upsert_action(update), false, "name inválido"@),
            Some(n) => if trim(params.common_name@).len() == 0 {
                r.1@ == CertActionModel::Reply(400, n, CertificateKind::Ca, upsert_action(update), false, "common_name es requerido"@)
            } else {
                &&& cert_ctl_model(r.0) == (n, CertificateKind::Ca, update, false, Seq::<char>::empty(), CertStage::Checking)
                &&& r.1@ == CertActionModel::CheckExists(ca_cert_path(n))
            },
        },
{
    proof {
        reveal_strlit("");
    }
    match ca_request_check(raw_name, params, update) {
        Err(x) => refused(raw_name, CertificateKind::Ca, update, false, x),
        Ok(name) => {
            let check = CertAction::CheckExists(ca_certificate_cert_path(name.as_str()));
            (CertCtl { name, kind: CertificateKind::Ca, update, delete: false, ca_name: owned(""), stage: CertStage::Checking }, check)
        },
    }
}

/// Starts making a user certificate: the request checked (see
/// `user_request_check`), then the check whether its certificate exists.
pub fn user_upsert_start(raw_name: &str, params: &UserCertificateParams, update: bool) -> (r: (CertCtl, CertAction))
    ensures
        cert_asks(r.0.stage, r.1@),
        match (safe_name(raw_name@), safe_name(params.ca_name@)) {
            (None, _) => r.1@ == CertActionModel::Reply(400, raw_name@, CertificateKind::User, upsert_action(update), false, "name inválido"@),
            (Some(n), None) => r.1@ == CertActionModel::Reply(400, n, CertificateKind::User, upsert_action(update), false, "ca_name inválido"@),
            (Some(n), Some(ca)) => if trim(params.identity@).len() == 0 {
                r.1@ == CertActionModel::Reply(400, n, CertificateKind::User, upsert_action(update), false, "identity es requerido"@)
            } else {
                &&& cert_ctl_model(r.0) == (n, CertificateKind::User, update, false, ca, CertStage::Checking)
                &&& r.1@ == CertActionModel::CheckExists(cert_path(CertificateKind::User, n))
            },
        },
{
    match user_request_check(raw_name, params, update) {
        Err(x) => refused(raw_name, CertificateKind::User, update, false, x),
        Ok((name, ca_name)) => {
            let check = CertAction::CheckExists(certificate_cert_path(CertificateKind::User, name.as_str()));
            (CertCtl { name, kind: CertificateKind::User, update, delete: false, ca_name, stage: CertStage::Checking }, check)
        },
    }
}

/// Starts removing a certificate: the name made safe (400 otherwise), then the
/// check whether its certificate exists.
pub fn cert_delete_start(raw_name: &str, kind: CertificateKind) -> (r: (CertCtl, CertAction))
    ensures
        cert_asks(r.0.stage, r.1@),
        match safe_name(raw_name@) {
            None => r.1@ == CertActionModel::Reply(400, raw_name@, kind, "delete"@, false, "name inválido"@),
            Some(n) => {
                &&& cert_ctl_model(r.0) == (n, kind, false, true, Seq::<char>::empty(), CertStage::Checking)
                &&& r.1@ == CertActionModel::CheckExists(cert_path(kind, n))
            },
        },
{
    proof {
        reveal_strlit("");
    }
    match cert_lookup_name(raw_name, kind, true) {
        Err(x) => refused(raw_name, kind, false, true, x),
        Ok(name) => {
            let check = CertAction::CheckExists(certificate_cert_path(kind, name.as_str()));
            (CertCtl { name, kind, update: false, delete: true, ca_name: owned(""), stage: CertStage::Checking }, check)
        },
    }
}

/// Goes on with a request on a certificate once the work it asked for has ended
/// (see `cert_step_model`).
pub fn cert_step(c: &CertCtl, e: CertEvent) -> (r: (CertCtl, CertAction))
    requires
        cert_awaits(c.stage, e@),
    ensures
        (cert_ctl_model(r.0), r.1@) == cert_step_model(cert_ctl_model(*c), e@),
        cert_asks(r.0.stage, r.1@),
{
    let name = c.name.as_str();
    match e {
        CertEvent::Exists(ex) => {
            if c.delete {
                if ex {
                    let remove = CertAction::Remove {
                        cert_path: certificate_cert_path(c.kind, name),
                        key_path: certificate_key_path(c.kind, name),
                    };
                    (cert_ctl_with(c, CertStage::Removing), remove)
                } else {
                    (cert_ctl_with(c, CertStage::Done), CertAction::Reply(cert_not_found(name, c.kind, true)))
                }
            } else {
                match cert_existence_refusal(c.kind, name, c.update, ex) {
                    Some(x) => (cert_ctl_with(c, CertStage::Done), CertAction::Reply(x)),
                    None => (cert_ctl_with(c, CertStage::Preparing), CertAction::PrepareDirectories),
                }
            }
        },
        CertEvent::Prepared(Some(m)) => (
            cert_ctl_with(c, CertStage::Done),
            CertAction::Reply(cert_directories_failed(c.kind, name, c.update, m.as_str())),
        ),
        CertEvent::Prepared(None) => {
            if c.kind == CertificateKind::User {
                let check = CertAction::CheckCa {
                    cert_path: ca_certificate_cert_path(c.ca_name.as_str()),
                    key_path: ca_certificate_key_path(c.ca_name.as_str()),
                };
                (cert_ctl_with(c, CertStage::CheckingCa), check)
            } else {
                let generate = CertAction::Generate {
                    cert_path: certificate_cert_path(c.kind, name),
                    key_path: certificate_key_path(c.kind, name),
                };
                (cert_ctl_with(c, CertStage::Generating), generate)
            }
        },
        CertEvent::CaFound(found) => {
            if found {
                let generate = CertAction::Generate {
                    cert_path: certificate_cert_path(c.kind, name),
                    key_path: certificate_key_path(c.kind, name),
                };
                (cert_ctl_with(c, CertStage::Generating), generate)
            } else {
                let x = cert_reply(
                    404,
                    name,
                    c.kind,
                    upsert_action_name(c.update),
                    false,
                    owned("La CA especificada no existe o está incompleta"),
                );
                (cert_ctl_with(c, CertStage::Done), CertAction::Reply(x))
            }
        },
        CertEvent::Generated(Some(m)) => (
            cert_ctl_with(c, CertStage::Done),
            CertAction::Reply(cert_generation_failed(c.kind, name, c.update, m.as_str())),
        ),
        CertEvent::Generated(None) => (cert_ctl_with(c, CertStage::Reloading), CertAction::ReloadCreds),
        CertEvent::Removed(Some(m)) => (
            cert_ctl_with(c, CertStage::Done),
            CertAction::Reply(cert_removal_failed(c.kind, name, m.as_str())),
        ),
        CertEvent::Removed(None) => (cert_ctl_with(c, CertStage::Reloading), CertAction::ReloadCreds),
        CertEvent::Reloaded(None) => {
            let x = if c.delete {
                cert_removed(c.kind, name, None)
            } else {
                cert_generated(c.kind, name, c.update, None)
            };
            (cert_ctl_with(c, CertStage::Done), CertAction::Reply(x))
        },
        CertEvent::Reloaded(Some(m)) => {
            let x = if c.delete {
                cert_removed(c.kind, name, Some(m.as_str()))
            } else {
                cert_generated(c.kind, name, c.update, Some(m.as_str()))
            };
            (cert_ctl_with(c, CertStage::Done), CertAction::Reply(x))
        },
    }
}

} // verus!
