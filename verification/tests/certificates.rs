use bifrost_gate::certificates::{
    ca_params, ca_request_args, ca_request_check, cert_directories_failed, cert_existence_refusal,
    cert_generated, cert_generation_failed, cert_listing_failed, cert_lookup_name, cert_not_found, cert_removal_failed,
    cert_removed, certificate_details, certificate_metadata, csr_args, genkey_args, metadata_args, metadata_failed,
    metadata_outcome, openssl_outcome, openssl_spawn_error, san_extension, san_values, scratch_file_name, sign_args,
    signing_ca_missing, user_params, user_request_check,
};
use bifrost_gate::types::CertificateKind;

fn strings(v: &[&str]) -> Vec<String> {
    v.iter().map(|s| s.to_string()).collect()
}

#[test]
fn request_defaults() {
    let p = ca_params("Root".to_string(), None, Some("CO".to_string()), None, None);
    assert_eq!((p.days, p.key_size), (3650, 4096));
    assert_eq!(p.country.as_deref(), Some("CO"));
    let p = ca_params("Root".to_string(), None, None, Some(30), Some(2048));
    assert_eq!((p.days, p.key_size), (30, 2048));
    let u = user_params("root".to_string(), "alice".to_string(), None, None, None);
    assert_eq!((u.days, u.key_size), (825, 4096));
    assert!(u.san.is_empty());
}

#[test]
fn ca_requests_are_checked() {
    let p = ca_params("  ".to_string(), None, None, None, None);
    let r = ca_request_check("bad name!", &p, false).unwrap_err();
    assert_eq!((r.status, r.body.name.as_str(), r.body.action.as_str()), (400, "bad name!", "create"));
    assert_eq!(r.body.message, "name inválido");
    let r = ca_request_check("root", &p, true).unwrap_err();
    assert_eq!((r.body.message.as_str(), r.body.action.as_str()), ("common_name es requerido", "update"));
    let p = ca_params("Root CA".to_string(), None, None, None, None);
    assert_eq!(ca_request_check(" root ", &p, false).unwrap(), "root");
}

#[test]
fn user_requests_are_checked() {
    let u = user_params("bad ca".to_string(), "alice".to_string(), None, None, None);
    let r = user_request_check("alice", &u, false).unwrap_err();
    assert_eq!((r.body.name.as_str(), r.body.message.as_str()), ("alice", "ca_name inválido"));
    let u = user_params("root".to_string(), " ".to_string(), None, None, None);
    assert_eq!(user_request_check("alice", &u, false).unwrap_err().body.message, "identity es requerido");
    let u = user_params("root".to_string(), "alice@example.org".to_string(), None, None, None);
    assert_eq!(user_request_check("alice", &u, true).unwrap(), ("alice".to_string(), "root".to_string()));
}

#[test]
fn existence_rules() {
    assert!(cert_existence_refusal(CertificateKind::Ca, "root", false, false).is_none());
    assert!(cert_existence_refusal(CertificateKind::Ca, "root", true, true).is_none());
    let r = cert_existence_refusal(CertificateKind::Ca, "root", false, true).unwrap();
    assert_eq!((r.status, r.body.message.as_str()), (409, "La CA ya existe"));
    let r = cert_existence_refusal(CertificateKind::User, "alice", true, false).unwrap();
    assert_eq!((r.status, r.body.message.as_str()), (404, "El certificado de usuario no existe"));
}

#[test]
fn generation_outcomes() {
    let r = cert_generated(CertificateKind::Ca, "root", false, None);
    assert_eq!((r.status, r.body.success), (201, true));
    assert_eq!(r.body.message, "CA generada y credenciales recargadas");
    let r = cert_generated(CertificateKind::User, "alice", true, None);
    assert_eq!((r.status, r.body.message.as_str()), (200, "Certificado de usuario generado y credenciales recargadas"));
    let r = cert_generated(CertificateKind::User, "alice", true, Some("timeout"));
    assert_eq!((r.status, r.body.success), (400, false));
    assert_eq!(r.body.message, "Certificado de usuario generado pero falló load-creds: timeout");
    let r = cert_generation_failed(CertificateKind::Ca, "root", false, "bad key");
    assert_eq!((r.status, r.body.message.as_str()), (400, "No se pudo generar la CA: bad key"));
    let r = cert_directories_failed(CertificateKind::User, "alice", false, "denied");
    assert_eq!((r.status, r.body.message.as_str()), (500, "No se pudieron preparar directorios: denied"));
    let r = signing_ca_missing("alice", false);
    assert_eq!((r.status, r.body.kind), (404, CertificateKind::User));
}

#[test]
fn reading_and_removing() {
    let r = cert_lookup_name("a b", CertificateKind::User, false).unwrap_err();
    assert_eq!((r.body.action.as_str(), r.body.message.as_str()), ("read", "certificate_name inválido"));
    let r = cert_lookup_name("a b", CertificateKind::Ca, true).unwrap_err();
    assert_eq!((r.body.action.as_str(), r.body.message.as_str()), ("delete", "name inválido"));
    assert_eq!(cert_lookup_name("root", CertificateKind::Ca, true).unwrap(), "root");
    assert_eq!(cert_not_found("root", CertificateKind::Ca, false).status, 404);
    let d = certificate_details(CertificateKind::Ca, "root", (Some("CN = Root".to_string()), None, None));
    assert_eq!(d.certificate_path, "/etc/swanctl/x509ca/bifrost-ca-root.crt");
    assert_eq!(d.private_key_path.as_deref(), Some("/etc/swanctl/private/bifrost-ca-root.key"));
    assert_eq!(d.subject.as_deref(), Some("CN = Root"));
    assert_eq!(metadata_failed(CertificateKind::Ca, "root", "x").body.message, "No se pudo leer metadata del certificado: x");
    assert_eq!(cert_removal_failed(CertificateKind::Ca, "root", "busy").body.message, "Error eliminando certificado: busy");
    let r = cert_removed(CertificateKind::User, "alice", None);
    assert_eq!((r.status, r.body.message.as_str()), (200, "Certificado eliminado y credenciales recargadas"));
    let r = cert_removed(CertificateKind::User, "alice", Some("down"));
    assert_eq!((r.status, r.body.message.as_str()), (400, "Certificado eliminado pero falló load-creds: down"));
    let r = cert_listing_failed(CertificateKind::User, "gone");
    assert_eq!((r.status, r.body.name.as_str(), r.body.message.as_str()), (500, "", "Error listando certificados de usuario: gone"));
}

#[test]
fn openssl_output_is_read() {
    let out = "subject=CN = alice\r\n  issuer=CN = root \nnotAfter=Jan  1 00:00:00 2030 GMT\nother=1\n";
    let (s, i, n) = certificate_metadata(out);
    assert_eq!(s.as_deref(), Some("CN = alice"));
    assert_eq!(i.as_deref(), Some("CN = root"));
    assert_eq!(n.as_deref(), Some("Jan  1 00:00:00 2030 GMT"));
    assert_eq!(certificate_metadata("nothing\n"), (None, None, None));
    assert_eq!(openssl_outcome(true, &b"noise".to_vec()), Ok(()));
    assert_eq!(openssl_outcome(false, &b"  \n".to_vec()), Err("openssl falló sin detalle".to_string()));
    assert_eq!(openssl_outcome(false, &b" unable to load key \n".to_vec()), Err("unable to load key".to_string()));
    assert_eq!(metadata_outcome(false, &Vec::new(), &Vec::new()), Err("openssl no pudo leer metadata".to_string()));
    let ok = metadata_outcome(true, &b"issuer=CN = r\n".to_vec(), &Vec::new()).unwrap();
    assert_eq!(ok.1.as_deref(), Some("CN = r"));
    assert_eq!(openssl_spawn_error(true, "no such file"), "No se pudo ejecutar openssl para metadata: no such file");
    assert_eq!(openssl_spawn_error(false, "no such file"), "No se pudo ejecutar openssl: no such file");
}

#[test]
fn openssl_arguments() {
    assert_eq!(
        genkey_args(2048, "/k.key"),
        strings(&["genpkey", "-algorithm", "RSA", "-pkeyopt", "rsa_keygen_bits:2048", "-out", "/k.key"])
    );
    assert_eq!(
        ca_request_args("/k", 3650, "/CN=Root", "/c"),
        strings(&["req", "-x509", "-new", "-key", "/k", "-sha256", "-days", "3650", "-subj", "/CN=Root", "-out", "/c"])
    );
    assert_eq!(csr_args("/k", "/CN=a", "/t.csr"), strings(&["req", "-new", "-key", "/k", "-subj", "/CN=a", "-out", "/t.csr"]));
    let base = strings(&[
        "x509", "-req", "-in", "/t.csr", "-CA", "/ca.crt", "-CAkey", "/ca.key", "-CAcreateserial", "-out", "/u.crt",
        "-days", "825", "-sha256",
    ]);
    assert_eq!(sign_args("/t.csr", "/ca.crt", "/ca.key", "/u.crt", 825, None), base);
    let mut with_ext = base.clone();
    with_ext.extend(strings(&["-extfile", "/t.ext", "-extensions", "v3_req"]));
    assert_eq!(sign_args("/t.csr", "/ca.crt", "/ca.key", "/u.crt", 825, Some("/t.ext")), with_ext);
    assert_eq!(
        metadata_args("/c.crt"),
        strings(&["x509", "-in", "/c.crt", "-noout", "-subject", "-issuer", "-enddate"])
    );
}

#[test]
fn alternative_names() {
    let v = san_values(&strings(&[" vpn.example.org ", "", "IP:10.0.0.1", "  "]));
    assert_eq!(v, strings(&["DNS:vpn.example.org", "IP:10.0.0.1"]));
    assert_eq!(
        san_extension(&v),
        "[v3_req]\nbasicConstraints=CA:FALSE\nkeyUsage=digitalSignature,keyEncipherment\nextendedKeyUsage=clientAuth\nsubjectAltName=DNS:vpn.example.org,IP:10.0.0.1\n"
    );
    assert_eq!(scratch_file_name("a/b/c", 4242, "csr"), "bifrost-user-a_b_c-4242.csr");
}
