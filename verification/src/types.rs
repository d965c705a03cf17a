//! Request and response types of the HTTP API, and the runtime records the
//! services build them from.
use vstd::prelude::*;

use crate::json::JsonValue;
use crate::text::chars_eq_str;

verus! {

#[derive(Debug)]
pub struct PeerControlResponse {
    pub code: i64,
    pub peer_name: String,
    pub action: String,
    pub success: bool,
    pub message: String,
}

/// Query parameters to act on one phase of a peer: 1 (IKE) or 2 (CHILD SA); none for both.
#[derive(Debug)]
pub struct PeerControlQuery {
    pub phase: Option<u8>,
}

#[derive(Debug)]
pub struct ServiceControlResponse {
    pub service_name: String,
    pub action: String,
    pub success: bool,
    pub message: String,
}

#[derive(Debug)]
pub struct FirewallRulesResponse {
    pub firewall: Vec<String>,
    pub filter: Vec<String>,
    pub nat: Vec<String>,
}

#[derive(Debug)]
pub struct PeerPhaseStatusResponse {
    pub state: String,
    pub active: bool,
    pub active_for_seconds: Option<u64>,
    pub packets_in: u64,
    pub packets_out: u64,
}

#[derive(Debug)]
pub struct ChildSaStatusResponse {
    pub name: String,
    pub state: String,
    pub active: bool,
    pub active_for_seconds: Option<u64>,
    pub packets_in: u64,
    pub packets_out: u64,
}

#[derive(Debug)]
pub struct PeerStatusResponse {
    pub peer_name: String,
    pub phase1: PeerPhaseStatusResponse,
    pub phase2: PeerPhaseStatusResponse,
    pub child_sas: Vec<ChildSaStatusResponse>,
    pub firewall_rules: FirewallRulesResponse,
}

#[derive(Debug)]
pub struct PeerStatusListResponse {
    pub peers: Vec<PeerStatusResponse>,
}

#[derive(Debug)]
pub struct PeerStatusErrorResponse {
    pub peer_name: String,
    pub success: bool,
    pub message: String,
}

#[derive(Debug)]
pub struct ConnectionUpsertRequest {
    pub config: JsonValue,
}

#[derive(Debug)]
pub struct ConnectionCreateRequest {
    pub name: String,
    pub config: JsonValue,
}

#[derive(Debug)]
pub struct ConnectionResponse {
    pub name: String,
    pub config: String,
}

#[derive(Debug)]
pub struct ConnectionListResponse {
    pub connections: Vec<String>,
}

#[derive(Debug)]
pub struct ConnectionCrudResponse {
    pub name: String,
    pub action: String,
    pub success: bool,
    pub message: String,
}

/// Kinds of swanctl secrets.
#[derive(Debug, Clone, Copy, PartialEq, Eq, Structural)]
pub enum SecretType {
    Eap,
    Xauth,
    Ntlm,
    Ike,
    Ppk,
    Private,
    Rsa,
    Ecdsa,
    Pkcs8,
    Pkcs12,
    Token,
}

/// The name of a secret type, as swanctl writes it in a section name.
pub open spec fn secret_type_name(t: SecretType) -> Seq<char> {
    match t {
        SecretType::Eap => "eap"@,
        SecretType::Xauth => "xauth"@,
        SecretType::Ntlm => "ntlm"@,
        SecretType::Ike => "ike"@,
        SecretType::Ppk => "ppk"@,
        SecretType::Private => "private"@,
        SecretType::Rsa => "rsa"@,
        SecretType::Ecdsa => "ecdsa"@,
        SecretType::Pkcs8 => "pkcs8"@,
        SecretType::Pkcs12 => "pkcs12"@,
        SecretType::Token => "token"@,
    }
}

/// The secret type named `s`, if any.
pub open spec fn secret_type_named(s: Seq<char>) -> Option<SecretType> {
    if s == "eap"@ {
        Some(SecretType::Eap)
    } else if s == "xauth"@ {
        Some(SecretType::Xauth)
    } else if s == "ntlm"@ {
        Some(SecretType::Ntlm)
    } else if s == "ike"@ {
        Some(SecretType::Ike)
    } else if s == "ppk"@ {
        Some(SecretType::Ppk)
    } else if s == "private"@ {
        Some(SecretType::Private)
    } else if s == "rsa"@ {
        Some(SecretType::Rsa)
    } else if s == "ecdsa"@ {
        Some(SecretType::Ecdsa)
    } else if s == "pkcs8"@ {
        Some(SecretType::Pkcs8)
    } else if s == "pkcs12"@ {
        Some(SecretType::Pkcs12)
    } else if s == "token"@ {
        Some(SecretType::Token)
    } else {
        None
    }
}

impl SecretType {
    /// The lowercase name of the type.
    pub fn as_str(self) -> (r: &'static str)
        ensures
            r@ == secret_type_name(self),
    {
        match self {
            SecretType::Eap => "eap",
            SecretType::Xauth => "xauth",
            SecretType::Ntlm => "ntlm",
            SecretType::Ike => "ike",
            SecretType::Ppk => "ppk",
            SecretType::Private => "private",
            SecretType::Rsa => "rsa",
            SecretType::Ecdsa => "ecdsa",
            SecretType::Pkcs8 => "pkcs8",
            SecretType::Pkcs12 => "pkcs12",
            SecretType::Token => "token",
        }
    }

    /// The type with the lowercase name `value`; `None` for any other text.
    pub fn from_str(value: &str) -> (r: Option<SecretType>)
        ensures
            r == secret_type_named(value@),
    {
        let v = crate::text::str_chars(value);
        crate::types::secret_type_from_chars(&v)
    }
}

pub fn secret_type_from_chars(v: &Vec<char>) -> (r: Option<SecretType>)
    ensures
        r == secret_type_named(v@),
{
    if chars_eq_str(v, "eap") {
        Some(SecretType::Eap)
    } else if chars_eq_str(v, "xauth") {
        Some(SecretType::Xauth)
    } else if chars_eq_str(v, "ntlm") {
        Some(SecretType::Ntlm)
    } else if chars_eq_str(v, "ike") {
        Some(SecretType::Ike)
    } else if chars_eq_str(v, "ppk") {
        Some(SecretType::Ppk)
    } else if chars_eq_str(v, "private") {
        Some(SecretType::Private)
    } else if chars_eq_str(v, "rsa") {
        Some(SecretType::Rsa)
    } else if chars_eq_str(v, "ecdsa") {
        Some(SecretType::Ecdsa)
    } else if chars_eq_str(v, "pkcs8") {
        Some(SecretType::Pkcs8)
    } else if chars_eq_str(v, "pkcs12") {
        Some(SecretType::Pkcs12)
    } else if chars_eq_str(v, "token") {
        Some(SecretType::Token)
    } else {
        None
    }
}

#[derive(Debug)]
pub struct SecretUpsertRequest {
    pub secret_type: SecretType,
    pub config: JsonValue,
}

#[derive(Debug)]
pub struct SecretCreateRequest {
    pub name: String,
    pub secret_type: SecretType,
    pub config: JsonValue,
}

#[derive(Debug)]
pub struct SecretResponse {
    pub name: String,
    pub secret_type: SecretType,
    pub config: JsonValue,
}

#[derive(Debug)]
pub struct SecretListResponse {
    pub secrets: Vec<String>,
}

#[derive(Debug)]
pub struct SecretCrudResponse {
    pub name: String,
    pub action: String,
    pub success: bool,
    pub message: String,
}

#[derive(Debug, Clone, Copy, PartialEq, Eq, Structural)]
pub enum CertificateKind {
    Ca,
    User,
}

#[derive(Debug)]
pub struct CaCertificateCreateRequest {
    pub name: String,
    pub common_name: String,
    pub organization: Option<String>,
    pub country: Option<String>,
    pub days: Option<u32>,
    pub key_size: Option<u32>,
}

#[derive(Debug)]
pub struct CaCertificateUpsertRequest {
    pub common_name: String,
    pub organization: Option<String>,
    pub country: Option<String>,
    pub days: Option<u32>,
    pub key_size: Option<u32>,
}

#[derive(Debug)]
pub struct UserCertificateCreateRequest {
    pub name: String,
    pub ca_name: String,
    pub identity: String,
    pub san: Option<Vec<String>>,
    pub days: Option<u32>,
    pub key_size: Option<u32>,
}

#[derive(Debug)]
pub struct UserCertificateUpsertRequest {
    pub ca_name: String,
    pub identity: String,
    pub san: Option<Vec<String>>,
    pub days: Option<u32>,
    pub key_size: Option<u32>,
}

#[derive(Debug)]
pub struct ConnectionCertificateAttachRequest {
    pub certificate_name: String,
    pub local_id: Option<String>,
    pub remote_ca_name: Option<String>,
    pub set_remote_auth_pubkey: Option<bool>,
}

#[derive(Debug)]
pub struct CertificateListResponse {
    pub certificates: Vec<String>,
}

#[derive(Debug)]
pub struct CertificateDetailsResponse {
    pub name: String,
    pub kind: CertificateKind,
    pub certificate_path: String,
    pub private_key_path: Option<String>,
    pub subject: Option<String>,
    pub issuer: Option<String>,
    pub not_after: Option<String>,
}

#[derive(Debug)]
pub struct CertificateCrudResponse {
    pub name: String,
    pub kind: CertificateKind,
    pub action: String,
    pub success: bool,
    pub message: String,
}

#[derive(Debug, Clone)]
pub struct CaCertificateParams {
    pub common_name: String,
    pub organization: Option<String>,
    pub country: Option<String>,
    pub days: u32,
    pub key_size: u32,
}

#[derive(Debug, Clone)]
pub struct UserCertificateParams {
    pub ca_name: String,
    pub identity: String,
    pub san: Vec<String>,
    pub days: u32,
    pub key_size: u32,
}

/// Runtime state of a peer's IKE SA and its CHILD SAs, read from `swanctl --list-sas`.
#[derive(Debug, Clone)]
pub struct PeerRuntimeStatus {
    pub peer_name: String,
    pub phase1_state: String,
    pub phase1_active: bool,
    pub phase1_active_for_seconds: Option<u64>,
    pub phase1_packets_in: u64,
    pub phase1_packets_out: u64,
    pub child_sas: Vec<ChildRuntimeStatus>,
}

#[derive(Debug, Clone)]
pub struct ChildRuntimeStatus {
    pub name: String,
    pub state: String,
    pub active: bool,
    pub active_for_seconds: Option<u64>,
    pub packets_in: u64,
    pub packets_out: u64,
}

/// The lines of the firewall rule sets: nftables, and iptables' filter and nat tables.
#[derive(Debug, Clone)]
pub struct FirewallRulesSnapshot {
    pub firewall: Vec<String>,
    pub filter: Vec<String>,
    pub nat: Vec<String>,
}

impl FirewallRulesSnapshot {
    /// An empty snapshot, as `Default` gives it.
    pub fn empty() -> (s: FirewallRulesSnapshot)
        ensures
            s.firewall@.len() == 0,
            s.filter@.len() == 0,
            s.nat@.len() == 0,
    {
        FirewallRulesSnapshot { firewall: Vec::new(), filter: Vec::new(), nat: Vec::new() }
    }
}

impl Default for FirewallRulesSnapshot {
    fn default() -> (s: FirewallRulesSnapshot)
        ensures
            s.firewall@.len() == 0,
            s.filter@.len() == 0,
            s.nat@.len() == 0,
    {
        FirewallRulesSnapshot::empty()
    }
}

} // verus!
