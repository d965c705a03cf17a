//! Who may use the service, and how healthy it says it is: API keys on the API,
//! Basic authentication on the documentation, and the heartbeat.
use vstd::prelude::*;

use crate::commands::utf8_len;
use crate::models::owned;
use crate::text::{chars_eq_str, starts_with, starts_with_str};
use crate::text::{
    chars_eq, chars_to_string, find_char, has_char, index_of, lemma_has_char_index, lower,
    lower_chars, str_chars, sub_chars, trim, trim_chars,
};

use base64::Engine;

verus! {

// ───────────────────────────── heartbeat ─────────────────────────────

/// The worker is alive when it has beaten at least once, at most 30 seconds ago.
pub open spec fn worker_alive(last_beat: u64, now: u64) -> bool {
    last_beat > 0 && (if now >= last_beat { now - last_beat } else { 0 }) <= 30
}

pub fn worker_is_alive(last_beat: u64, now: u64) -> (b: bool)
    ensures
        b == worker_alive(last_beat, now),
{
    last_beat > 0 && now.saturating_sub(last_beat) <= 30
}

/// The health reported: 3 (critical) without the database or the worker, else 2
/// (warning) without StrongSwan, else 1.
pub open spec fn health(database_ok: bool, worker_ok: bool, strongswan_ok: bool) -> u8 {
    if !database_ok || !worker_ok {
        3
    } else if !strongswan_ok {
        2
    } else {
        1
    }
}

pub fn health_status(database_ok: bool, worker_ok: bool, strongswan_ok: bool) -> (r: u8)
    ensures
        r == health(database_ok, worker_ok, strongswan_ok),
{
    if !database_ok || !worker_ok {
        3
    } else if !strongswan_ok {
        2
    } else {
        1
    }
}

pub open spec fn health_text(status: u8) -> Seq<char> {
    if status == 1 {
        "OK: servicios disponibles"@
    } else if status == 2 {
        "WARN: algun servicio no responde"@
    } else {
        "CRITICAL: sin conexion con servicios mayores"@
    }
}

pub fn health_message(status: u8) -> (r: String)
    ensures
        r@ == health_text(status),
{
    if status == 1 {
        owned("OK: servicios disponibles")
    } else if status == 2 {
        owned("WARN: algun servicio no responde")
    } else {
        owned("CRITICAL: sin conexion con servicios mayores")
    }
}

// ───────────────────────────── API keys ─────────────────────────────

/// Index of the first header named `name` (ASCII case aside) whose value is readable
/// text, or -1.
pub open spec fn key_header_index(headers: Seq<(String, Option<String>)>, name: Seq<char>) -> int
    decreases headers.len(),
{
    if headers.len() == 0 {
        -1
    } else {
        let r = key_header_index(headers.drop_last(), name);
        if r >= 0 {
            r
        } else if lower(headers.last().0@) == lower(name) && headers.last().1.is_some() {
            headers.len() - 1
        } else {
            -1
        }
    }
}

/// The API key a request carries: the readable value of the first header named
/// like the configured one, ASCII case aside. Each header is given by its name and
/// its value when that is readable text.
pub fn find_api_key(headers: &Vec<(String, Option<String>)>, header_name: &str) -> (r: Option<String>)
    ensures
        match r {
            Some(k) => {
                let i = key_header_index(headers@, header_name@);
                0 <= i < headers@.len() && headers@[i].1 == Some(k)
            },
            None => key_header_index(headers@, header_name@) == -1,
        },
{
    let wanted = lower_chars(&str_chars(header_name));
    let mut i: usize = 0;
    assert(headers@.take(0) =~= Seq::<(String, Option<String>)>::empty());
    while i < headers.len()
        invariant
            i <= headers.len(),
            wanted@ == lower(header_name@),
            key_header_index(headers@.take(i as int), header_name@) == -1,
        decreases headers.len() - i,
    {
        let ghost t = headers@.take(i + 1);
        assert(t.drop_last() =~= headers@.take(i as int));
        assert(t.last() == headers@[i as int]);
        let n = lower_chars(&str_chars(headers[i].0.as_str()));
        if chars_eq(&n, &wanted) {
            match &headers[i].1 {
                Some(v) => {
                    proof {
                        lemma_key_header_prefix(headers@, header_name@, i as int);
                    }
                    return Some(v.clone());
                },
                None => {},
            }
        }
        i += 1;
    }
    assert(headers@.take(headers.len() as int) =~= headers@);
    None
}

proof fn lemma_key_header_prefix(headers: Seq<(String, Option<String>)>, name: Seq<char>, i: int)
    requires
        0 <= i < headers.len(),
        key_header_index(headers.take(i + 1), name) == i,
    ensures
        key_header_index(headers, name) == i,
    decreases headers.len(),
{
    if headers.len() > i + 1 {
        assert(headers.drop_last().take(i + 1) =~= headers.take(i + 1));
        lemma_key_header_prefix(headers.drop_last(), name, i);
    } else {
        assert(headers.take(i + 1) =~= headers);
    }
}

/// What to do with a request to a protected route.
#[derive(Debug, PartialEq, Eq)]
pub enum ApiKeyGate {
    /// Let it through.
    Proceed,
    /// Answer 401: no key.
    MissingKey,
    /// Look the key up before deciding.
    Verify(String),
}

/// The decision before the lookup.
pub open spec fn gate_of(enabled: bool, provided: Option<String>) -> ApiKeyGate {
    if !enabled {
        ApiKeyGate::Proceed
    } else {
        match provided {
            None => ApiKeyGate::MissingKey,
            Some(k) => ApiKeyGate::Verify(k),
        }
    }
}

/// Before the lookup: everything passes when keys are off; a request without a key
/// is refused; one with a key waits for the lookup.
pub fn api_key_gate(enabled: bool, provided: Option<String>) -> (r: ApiKeyGate)
    ensures
        r == gate_of(enabled, provided),
        !enabled ==> r == ApiKeyGate::Proceed,
        enabled && provided.is_none() ==> r == ApiKeyGate::MissingKey,
        enabled && provided.is_some() ==> r == ApiKeyGate::Verify(provided->0),
{
    if !enabled {
        ApiKeyGate::Proceed
    } else {
        match provided {
            None => ApiKeyGate::MissingKey,
            Some(k) => ApiKeyGate::Verify(k),
        }
    }
}

/// The verdict on a request, once what was needed is known.
#[derive(Debug, Clone, Copy, PartialEq, Eq, Structural)]
pub enum AccessVerdict {
    Proceed,
    Unauthorized,
    InternalError,
}

/// The verdict once the key's lookup has answered; `None` stands for a failed lookup.
pub open spec fn verdict_of(valid: Option<bool>) -> AccessVerdict {
    match valid {
        Some(true) => AccessVerdict::Proceed,
        Some(false) => AccessVerdict::Unauthorized,
        None => AccessVerdict::InternalError,
    }
}

/// How a request to a protected route is answered, given whether keys are on,
/// the key it carries and what the lookup of that key found.
pub open spec fn request_verdict(enabled: bool, provided: Option<String>, valid: Option<bool>) -> AccessVerdict {
    match gate_of(enabled, provided) {
        ApiKeyGate::Proceed => AccessVerdict::Proceed,
        ApiKeyGate::MissingKey => AccessVerdict::Unauthorized,
        ApiKeyGate::Verify(_) => verdict_of(valid),
    }
}

/// After the lookup: a valid key passes, an unknown or inactive one is refused,
/// and a failed lookup is an internal error. `None` stands for the failure.
pub fn verdict_after_lookup(valid: Option<bool>) -> (r: AccessVerdict)
    ensures
        r == verdict_of(valid),
{
    match valid {
        Some(true) => AccessVerdict::Proceed,
        Some(false) => AccessVerdict::Unauthorized,
        None => AccessVerdict::InternalError,
    }
}

/// The JSON body sent with a refusal of the API middleware.
pub fn api_key_refusal_body(verdict: AccessVerdict) -> (r: &'static str)
    ensures
        verdict == AccessVerdict::InternalError ==> r@
            == "{\"error\":\"internal_error\",\"message\":\"API key validation failed\"}"@,
        verdict != AccessVerdict::InternalError ==> r@
            == "{\"error\":\"unauthorized\",\"message\":\"Missing or invalid API key\"}"@,
{
    if verdict == AccessVerdict::InternalError {
        "{\"error\":\"internal_error\",\"message\":\"API key validation failed\"}"
    } else {
        "{\"error\":\"unauthorized\",\"message\":\"Missing or invalid API key\"}"
    }
}

// ───────────────────────────── Basic authentication ─────────────────────────────

/// What the standard Base64 engine of the `base64` crate decodes `text` to, or
/// `None` when it refuses it.
pub uninterp spec fn base64_decoded(text: Seq<char>) -> Option<Seq<u8>>;

/// `base64::engine::general_purpose::STANDARD.decode`; the contract names the
/// result and claims nothing more of it.
#[verifier::external_body]
fn base64_decode(text: &str) -> (r: Option<Vec<u8>>)
    ensures
        match r {
            Some(b) => base64_decoded(text@) == Some(b@),
            None => base64_decoded(text@).is_none(),
        },
{
    base64::engine::general_purpose::STANDARD.decode(text).ok()
}

/// The text that `String::from_utf8_lossy` reads from `bytes`.
pub uninterp spec fn utf8_lossy(bytes: Seq<u8>) -> Seq<char>;

/// `String::from_utf8_lossy`; the contract names the result and claims nothing
/// more of it.
#[verifier::external_body]
pub(crate) fn lossy_text(bytes: &Vec<u8>) -> (r: String)
    ensures
        r@ == utf8_lossy(bytes@),
{
    String::from_utf8_lossy(bytes.as_slice()).to_string()
}

/// Why a request to the documentation is refused before its credentials are checked.
#[derive(Debug, Clone, Copy, PartialEq, Eq, Structural)]
pub enum DocsRefusal {
    MissingScheme,
    InvalidScheme,
    EmptyPayload,
    InvalidEncoding,
    InvalidPayload,
}

impl DocsRefusal {
    /// The reason written to the error log.
    pub fn reason(self) -> (r: &'static str)
        ensures
            self == DocsRefusal::MissingScheme ==> r@ == "Missing basic auth scheme"@,
            self == DocsRefusal::InvalidScheme ==> r@ == "Invalid auth scheme for docs"@,
            self == DocsRefusal::EmptyPayload ==> r@ == "Empty basic auth payload"@,
            self == DocsRefusal::InvalidEncoding ==> r@ == "Invalid basic auth encoding"@,
            self == DocsRefusal::InvalidPayload ==> r@ == "Invalid basic auth payload"@,
    {
        match self {
            DocsRefusal::MissingScheme => "Missing basic auth scheme",
            DocsRefusal::InvalidScheme => "Invalid auth scheme for docs",
            DocsRefusal::EmptyPayload => "Empty basic auth payload",
            DocsRefusal::InvalidEncoding => "Invalid basic auth encoding",
            DocsRefusal::InvalidPayload => "Invalid basic auth payload",
        }
    }
}

/// `user:password` split at its first colon.
pub open spec fn split_credentials(text: Seq<char>) -> Option<(Seq<char>, Seq<char>)> {
    if has_char(text, ':') {
        let i = index_of(text, ':');
        Some((text.take(i), text.skip(i + 1)))
    } else {
        None
    }
}

/// The user name and password of decoded Basic credentials (see `split_credentials`).
pub fn credentials_from_text(text: &str) -> (r: Option<(String, String)>)
    ensures
        match r {
            Some((u, p)) => split_credentials(text@) == Some((u@, p@)),
            None => split_credentials(text@).is_none(),
        },
{
    let v = str_chars(text);
    proof {
        lemma_has_char_index(v@, ':');
    }
    match find_char(&v, ':') {
        None => None,
        Some(i) => {
            let u = sub_chars(&v, 0, i);
            let p = sub_chars(&v, i + 1, v.len());
            assert(u@ =~= v@.take(i as int));
            assert(p@ =~= v@.skip(i + 1));
            Some((chars_to_string(&u), chars_to_string(&p)))
        },
    }
}

/// The credentials of an `Authorization` header (empty when absent or unreadable):
/// the scheme before the first space must be `Basic` (ASCII case aside), the rest,
/// trimmed, must be non-empty standard Base64 whose text holds a colon.
pub open spec fn docs_credentials_of(header: Seq<char>) -> Result<(Seq<char>, Seq<char>), DocsRefusal> {
    if !has_char(header, ' ') {
        Err(DocsRefusal::MissingScheme)
    } else {
        let i = index_of(header, ' ');
        let scheme = header.take(i);
        let encoded = trim(header.skip(i + 1));
        if lower(scheme) != "basic"@ {
            Err(DocsRefusal::InvalidScheme)
        } else if encoded.len() == 0 {
            Err(DocsRefusal::EmptyPayload)
        } else {
            match base64_decoded(encoded) {
                None => Err(DocsRefusal::InvalidEncoding),
                Some(bytes) => match split_credentials(utf8_lossy(bytes)) {
                    None => Err(DocsRefusal::InvalidPayload),
                    Some(c) => Ok(c),
                },
            }
        }
    }
}

/// The user name and password that a request to the documentation presents, or
/// why it is refused (see `docs_credentials_of`).
pub fn docs_credentials(auth_header: &str) -> (r: Result<(String, String), DocsRefusal>)
    ensures
        match r {
            Ok((u, p)) => docs_credentials_of(auth_header@) == Ok::<(Seq<char>, Seq<char>), DocsRefusal>((u@, p@)),
            Err(e) => docs_credentials_of(auth_header@) == Err::<(Seq<char>, Seq<char>), DocsRefusal>(e),
        },
{
    let v = str_chars(auth_header);
    proof {
        lemma_has_char_index(v@, ' ');
    }
    let i = match find_char(&v, ' ') {
        None => return Err(DocsRefusal::MissingScheme),
        Some(i) => i,
    };
    let scheme = lower_chars(&sub_chars(&v, 0, i));
    assert(v@.subrange(0, i as int) =~= v@.take(i as int));
    if !crate::text::chars_eq_str(&scheme, "basic") {
        return Err(DocsRefusal::InvalidScheme);
    }
    let rest = sub_chars(&v, i + 1, v.len());
    assert(rest@ =~= v@.skip(i + 1));
    let encoded = trim_chars(&rest);
    if encoded.len() == 0 {
        return Err(DocsRefusal::EmptyPayload);
    }
    let enc = chars_to_string(&encoded);
    let bytes = match base64_decode(enc.as_str()) {
        None => return Err(DocsRefusal::InvalidEncoding),
        Some(b) => b,
    };
    let text = lossy_text(&bytes);
    match credentials_from_text(text.as_str()) {
        None => Err(DocsRefusal::InvalidPayload),
        Some(c) => Ok(c),
    }
}

/// The JSON body sent with a refusal of the documentation middleware; a refusal
/// for missing or wrong credentials also carries `WWW-Authenticate`.
pub fn docs_refusal_body(verdict: AccessVerdict) -> (r: &'static str)
    ensures
        verdict == AccessVerdict::InternalError ==> r@ == "{\"error\":\"internal_error\",\"message\":\"Docs auth failed\"}"@,
        verdict != AccessVerdict::InternalError ==> r@ == "{\"error\":\"unauthorized\",\"message\":\"Basic auth required\"}"@,
{
    if verdict == AccessVerdict::InternalError {
        "{\"error\":\"internal_error\",\"message\":\"Docs auth failed\"}"
    } else {
        "{\"error\":\"unauthorized\",\"message\":\"Basic auth required\"}"
    }
}


// ───────────────────────────── permissions of documentation users ─────────────────────────────

/// A route of the catalogue of response codes: `/api/response_codes` or below it.
pub open spec fn response_codes_route(path: Seq<char>) -> bool {
    path == "/api/response_codes"@ || starts_with(path, "/api/response_codes/"@)
}

/// Whether a documentation user may make a request: every user may read the
/// catalogue of response codes (its list, its PDF) with `GET`; only a user who may
/// manage the response codes may change it with any other method. Routes outside
/// the catalogue are open to every user.
pub open spec fn docs_access(method: Seq<char>, path: Seq<char>, can_manage: bool) -> bool {
    !response_codes_route(path) || method == "GET"@ || can_manage
}

/// Whether a documentation user, who may manage the response codes or not, may make
/// the request `method path` (see `docs_access`).
pub fn docs_request_allowed(method: &str, path: &str, can_manage: bool) -> (r: bool)
    ensures
        r == docs_access(method@, path@, can_manage),
{
    if can_manage {
        return true;
    }
    let m = str_chars(method);
    if chars_eq_str(&m, "GET") {
        return true;
    }
    let p = str_chars(path);
    let catalogue = chars_eq_str(&p, "/api/response_codes") || starts_with_str(&p, "/api/response_codes/");
    !catalogue
}

/// The JSON body sent when a documentation user may not make a request.
pub fn docs_forbidden_body() -> (r: &'static str)
    ensures
        r@ == "{\"error\":\"forbidden\",\"message\":\"Response codes management permission required\"}"@,
{
    "{\"error\":\"forbidden\",\"message\":\"Response codes management permission required\"}"
}


// ───────────────────────────── the bootstrap key ─────────────────────────────

/// A bootstrap API key that must not be used: once trimmed, empty, one of the
/// placeholders shipped in examples (ASCII case aside), or shorter than 24 bytes.
pub open spec fn weak_key(key: Seq<char>) -> bool {
    let t = trim(key);
    let l = lower(t);
    ||| t.len() == 0
    ||| l == "change-me-in-production"@
    ||| l == "replace-with-strong-secret"@
    ||| l == "changeme"@
    ||| l == "change-me"@
    ||| l == "default"@
    ||| utf8_len(t) < 24
}

pub fn bootstrap_key_is_weak(key: &str) -> (b: bool)
    ensures
        b == weak_key(key@),
{
    let t = trim_chars(&str_chars(key));
    let l = lower_chars(&t);
    let placeholder = crate::text::chars_eq_str(&l, "change-me-in-production") || crate::text::chars_eq_str(
        &l,
        "replace-with-strong-secret",
    ) || crate::text::chars_eq_str(&l, "changeme") || crate::text::chars_eq_str(&l, "change-me")
        || crate::text::chars_eq_str(&l, "default");
    let short = crate::commands::fits_in_bytes(chars_to_string(&t).as_str(), 23);
    t.len() == 0 || placeholder || short
}

} // verus!
