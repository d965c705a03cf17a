//! Response codes of the API and the language in which their messages are given.
use vstd::prelude::*;

use crate::models::owned;
use crate::text::{chars_to_string, find_char, index_of, lemma_has_char_index, lower, lower_chars, str_chars, sub_chars, trim, trim_chars};

verus! {

pub const CODE_OK: i64 = 20000;
pub const CODE_API_KEY_REQUIRED: i64 = 30000;
pub const CODE_API_KEY_INVALID: i64 = 30001;
pub const CODE_API_KEY_DB_ERROR: i64 = 30002;
pub const CODE_FORBIDDEN: i64 = 40300;
pub const CODE_PEER_NAME_REQUIRED: i64 = 40000;
pub const CODE_PEER_PHASE_INVALID: i64 = 40001;
pub const CODE_PEER_IKE_FAILED: i64 = 41010;
pub const CODE_PEER_CHILD_FAILED: i64 = 41011;
pub const CODE_INVALID_INPUT: i64 = 40010;
pub const CODE_NOT_FOUND: i64 = 40400;
pub const CODE_OPERATION_FAILED: i64 = 40900;
pub const CODE_INTERNAL_ERROR: i64 = 50000;
pub const CODE_NOT_SUPPORTED: i64 = 50100;

/// The text of `s` before the first `c` (all of it when there is none): what
/// `split(c).next()` gives.
pub open spec fn first_piece(s: Seq<char>, c: char) -> Seq<char> {
    let i = index_of(s, c);
    if i >= 0 {
        s.take(i)
    } else {
        s
    }
}

/// The primary language of an `Accept-Language`-style tag: the first entry of the
/// list, without its quality, without its region, trimmed and in ASCII lowercase;
/// `en` when nothing is left.
pub open spec fn language_of(value: Seq<char>) -> Seq<char> {
    let first = lower(trim(first_piece(first_piece(first_piece(value, ','), ';'), '-')));
    if first.len() == 0 {
        "en"@
    } else {
        first
    }
}

fn first_piece_chars(s: &Vec<char>, c: char) -> (r: Vec<char>)
    ensures
        r@ == first_piece(s@, c),
{
    proof {
        lemma_has_char_index(s@, c);
    }
    match find_char(s, c) {
        Some(i) => {
            let r = sub_chars(s, 0, i);
            assert(r@ =~= s@.take(i as int));
            r
        },
        None => {
            let r = sub_chars(s, 0, s.len());
            assert(r@ =~= s@);
            r
        },
    }
}

/// The primary language of a tag (see `language_of`): `"es-GT,es;q=0.9"` gives `es`.
pub fn normalize_language_tag(value: &str) -> (r: String)
    ensures
        r@ == language_of(value@),
{
    let v = str_chars(value);
    let a = first_piece_chars(&v, ',');
    let b = first_piece_chars(&a, ';');
    let c = first_piece_chars(&b, '-');
    let first = lower_chars(&trim_chars(&c));
    if first.len() == 0 {
        owned("en")
    } else {
        chars_to_string(&first)
    }
}

/// The language asked for by a request: its `x-lang` header if readable, else its
/// `Accept-Language` header if readable, else `en`.
pub open spec fn requested_language(x_lang: Option<Seq<char>>, accept_language: Option<Seq<char>>) -> Seq<char> {
    match x_lang {
        Some(v) => language_of(v),
        None => match accept_language {
            Some(v) => language_of(v),
            None => "en"@,
        },
    }
}

/// The language asked for by a request, given the text of its `x-lang` and
/// `Accept-Language` headers where they are present and readable.
pub fn resolve_requested_language(x_lang: Option<&str>, accept_language: Option<&str>) -> (r: String)
    ensures
        r@ == requested_language(
            match x_lang {
                Some(v) => Some(v@),
                None => None,
            },
            match accept_language {
                Some(v) => Some(v@),
                None => None,
            },
        ),
{
    match x_lang {
        Some(v) => normalize_language_tag(v),
        None => match accept_language {
            Some(v) => normalize_language_tag(v),
            None => owned("en"),
        },
    }
}

/// The language in which a message is looked up: the requested one, normalized, or `en`.
pub fn lookup_language(requested_lang: Option<&str>) -> (r: String)
    ensures
        r@ == match requested_lang {
            Some(v) => language_of(v@),
            None => "en"@,
        },
{
    match requested_lang {
        Some(v) => normalize_language_tag(v),
        None => owned("en"),
    }
}

/// The message of a response code, given what the catalogue lookup found: the
/// stored message, or `General Error` when there is none or the lookup failed.
pub fn message_from_lookup(found: Option<String>) -> (r: String)
    ensures
        r@ == match found {
            Some(m) => m@,
            None => "General Error"@,
        },
{
    match found {
        Some(m) => m,
        None => owned("General Error"),
    }
}

} // verus!
