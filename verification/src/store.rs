//! What the service keeps in its database: API keys and the users of the
//! documentation, whose passwords are kept as SHA-256 digests.
use vstd::prelude::*;

use crate::models::owned;
use crate::text::{chars_to_string, trim, trim_str};

use sha2::{Digest, Sha256};

verus! {

#[derive(Debug, Clone)]
pub struct ApiKeyRecord {
    pub id: i64,
    pub user_name: String,
    pub api_key: String,
    pub is_active: bool,
    pub created_at: String,
}

#[derive(Debug, Clone)]
pub struct DocsUserRecord {
    pub id: i64,
    pub username: String,
    pub is_active: bool,
    pub created_at: String,
}

/// The SHA-256 digest of the UTF-8 encoding of `text`, written in lowercase hexadecimal.
pub uninterp spec fn sha256_hex(text: Seq<char>) -> Seq<char>;

/// `sha2::Sha256` over the bytes of `text`, formatted with `{:x}`; the contract
/// names the digest, and says only that it is written as 64 lowercase hexadecimal
/// digits (two for each of the 32 bytes).
#[verifier::external_body]
fn sha256_hex_digest(text: &str) -> (r: String)
    ensures
        r@ == sha256_hex(text@),
        r@.len() == 64,
        forall|i: int| 0 <= i < r@.len() ==> is_hex_digit(#[trigger] r@[i]),
{
    let mut hasher = Sha256::new();
    hasher.update(text.as_bytes());
    format!("{:x}", hasher.finalize())
}

/// A lowercase hexadecimal digit.
pub open spec fn is_hex_digit(c: char) -> bool {
    ('0' <= c && c <= '9') || ('a' <= c && c <= 'f')
}

/// The text kept for a password: its SHA-256 digest in hexadecimal.
pub fn hash_password(password: &str) -> (r: String)
    ensures
        r@ == sha256_hex(password@),
        r@.len() == 64,
        forall|i: int| 0 <= i < r@.len() ==> is_hex_digit(#[trigger] r@[i]),
{
    sha256_hex_digest(password)
}

/// A password is accepted when the digest kept for the user is its digest; no user,
/// no digest kept, and no password accepted.
pub open spec fn password_accepted(stored_hash: Option<Seq<char>>, password: Seq<char>) -> bool {
    match stored_hash {
        Some(h) => h == sha256_hex(password),
        None => false,
    }
}

/// Whether a password matches the digest kept for an active user; `false` when
/// there is no such user.
pub fn credentials_match(stored_hash: Option<&str>, password: &str) -> (r: bool)
    ensures
        r == password_accepted(
            match stored_hash {
                Some(h) => Some(h@),
                None => None,
            },
            password@,
        ),
{
    match stored_hash {
        None => false,
        Some(h) => {
            let d = hash_password(password);
            crate::text::chars_eq(&crate::text::str_chars(h), &crate::text::str_chars(d.as_str()))
        },
    }
}

/// Where the database lives: the trimmed value of the variable naming it when that
/// is not blank, else the path configured under `[database]`, else the system
/// location on Linux or a file in the working directory elsewhere.
pub fn db_path_from(env_value: Option<&str>, configured: Option<&str>, linux: bool) -> (r: String)
    ensures
        r@ == match env_value {
            Some(v) if trim(v@).len() > 0 => trim(v@),
            _ => match configured {
                Some(c) => c@,
                None => if linux {
                    "/var/lib/bifrost/bifrost.db"@
                } else {
                    "bifrost.db"@
                },
            },
        },
{
    match env_value {
        Some(v) => {
            let t = trim_str(v);
            if t.len() > 0 {
                return chars_to_string(&t);
            }
        },
        None => {},
    }
    match configured {
        Some(c) => {
            return owned(c);
        },
        None => {},
    }
    if linux {
        owned("/var/lib/bifrost/bifrost.db")
    } else {
        owned("bifrost.db")
    }
}

} // verus!
