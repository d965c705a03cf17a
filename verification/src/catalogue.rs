//! The administration of the response-code catalogue: what a request is refused
//! for, what each outcome of a write is answered, and how the PDF report of the
//! catalogue is named.
//!
//! The database and the clock are left to the caller, which hands each outcome back.
use vstd::prelude::*;

use crate::i18n::{language_of, normalize_language_tag, CODE_INTERNAL_ERROR, CODE_INVALID_INPUT, CODE_NOT_FOUND};
use crate::models::owned;
use crate::text::{append_chars, append_str, chars_to_string, str_chars, trim, trim_str};

verus! {

/// The answer of the catalogue's administration: the HTTP status, the response
/// code, the action, whether it succeeded and a message.
#[derive(Debug)]
pub struct CatalogueReply {
    pub status: u16,
    pub response_code: i64,
    pub action: String,
    pub success: bool,
    pub message: String,
}

pub open spec fn catalogue_reply_is(
    r: CatalogueReply,
    status: u16,
    code: i64,
    action: Seq<char>,
    success: bool,
    message: Seq<char>,
) -> bool {
    &&& r.status == status
    &&& r.response_code == code
    &&& r.action@ == action
    &&& r.success == success
    &&& r.message@ == message
}

fn reply(status: u16, code: i64, action: &str, success: bool, message: String) -> (r: CatalogueReply)
    ensures
        catalogue_reply_is(r, status, code, action@, success, message@),
{
    CatalogueReply { status, response_code: code, action: owned(action), success, message }
}

fn text3(a: &str, b: &str, c: &str) -> (r: String)
    ensures
        r@ == a@ + b@ + c@,
{
    let mut v = str_chars(a);
    append_str(&mut v, b);
    append_str(&mut v, c);
    chars_to_string(&v)
}

fn text2(a: &str, b: &str) -> (r: String)
    ensures
        r@ == a@ + b@,
{
    let mut v = str_chars(a);
    append_str(&mut v, b);
    chars_to_string(&v)
}

/// Whether `s` is empty once trimmed.
pub fn is_blank(s: &str) -> (b: bool)
    ensures
        b == (trim(s@).len() == 0),
{
    trim_str(s).len() == 0
}

/// A new code is refused when its type or its English message is blank.
pub fn new_code_refusal(kind: &str, message_en: &str) -> (r: Option<CatalogueReply>)
    ensures
        r is None <==> (trim(kind@).len() > 0 && trim(message_en@).len() > 0),
        r matches Some(x) ==> catalogue_reply_is(
            x,
            400,
            CODE_INVALID_INPUT,
            "create"@,
            false,
            "type y message_en son requeridos"@,
        ),
{
    if is_blank(kind) || is_blank(message_en) {
        Some(reply(400, CODE_INVALID_INPUT, "create", false, owned("type y message_en son requeridos")))
    } else {
        None
    }
}

/// What an update of a code is refused for before anything is written: giving
/// neither field, or a blank type.
pub open spec fn update_refusal_text(kind: Option<Seq<char>>, message_en: Option<Seq<char>>) -> Option<Seq<char>> {
    if kind is None && message_en is None {
        Some("Debe enviar al menos type o message_en"@)
    } else if kind matches Some(k) && trim(k).len() == 0 {
        Some("type no puede estar vacío"@)
    } else {
        None
    }
}

pub open spec fn opt_str(o: Option<&str>) -> Option<Seq<char>> {
    match o {
        Some(s) => Some(s@),
        None => None,
    }
}

pub fn code_update_refusal(kind: Option<&str>, message_en: Option<&str>) -> (r: Option<CatalogueReply>)
    ensures
        r is None <==> update_refusal_text(opt_str(kind), opt_str(message_en)) is None,
        r matches Some(x) ==> catalogue_reply_is(
            x,
            400,
            CODE_INVALID_INPUT,
            "update"@,
            false,
            update_refusal_text(opt_str(kind), opt_str(message_en))->0,
        ),
{
    if kind.is_none() && message_en.is_none() {
        return Some(reply(400, CODE_INVALID_INPUT, "update", false, owned("Debe enviar al menos type o message_en")));
    }
    match kind {
        Some(k) => {
            if is_blank(k) {
                Some(reply(400, CODE_INVALID_INPUT, "update", false, owned("type no puede estar vacío")))
            } else {
                None
            }
        },
        None => None,
    }
}

/// A field that must not be blank: refused with `<field> no puede estar vacío`.
pub fn blank_field_refusal(action: &str, field: &str, value: &str) -> (r: Option<CatalogueReply>)
    ensures
        r is None <==> trim(value@).len() > 0,
        r matches Some(x) ==> catalogue_reply_is(
            x,
            400,
            CODE_INVALID_INPUT,
            action@,
            false,
            field@ + " no puede estar vacío"@,
        ),
{
    if is_blank(value) {
        Some(reply(400, CODE_INVALID_INPUT, action, false, text2(field, " no puede estar vacío")))
    } else {
        None
    }
}

/// The action of a request on a translation.
pub open spec fn translation_action(deleting: bool) -> Seq<char> {
    if deleting {
        "del-lang"@
    } else {
        "set-lang"@
    }
}

/// Why English cannot be written or removed as a translation.
pub open spec fn english_refusal_text(deleting: bool) -> Seq<char> {
    if deleting {
        "No se puede eliminar inglés del código base"@
    } else {
        "Para inglés use message_en del código base"@
    }
}

/// The language of a request on a translation, normalized, and its refusal when
/// it is English, whose message is the code's own.
pub fn translation_language(lang: &str, deleting: bool) -> (r: (String, Option<CatalogueReply>))
    ensures
        r.0@ == language_of(lang@),
        r.1 is None <==> language_of(lang@) != "en"@,
        r.1 matches Some(x) ==> catalogue_reply_is(
            x,
            400,
            CODE_INVALID_INPUT,
            translation_action(deleting),
            false,
            english_refusal_text(deleting),
        ),
{
    let l = normalize_language_tag(lang);
    let en = str_chars("en");
    let lv = str_chars(l.as_str());
    if crate::text::chars_eq(&lv, &en) {
        let r = if deleting {
            reply(400, CODE_INVALID_INPUT, "del-lang", false, owned("No se puede eliminar inglés del código base"))
        } else {
            reply(400, CODE_INVALID_INPUT, "set-lang", false, owned("Para inglés use message_en del código base"))
        };
        (l, Some(r))
    } else {
        (l, None)
    }
}

/// A write on the catalogue.
#[derive(Debug, Clone, Copy, PartialEq, Eq, Structural)]
pub enum CatalogueWrite {
    Create,
    UpdateType,
    UpdateMessage,
    Delete,
    SetTranslation,
    DeleteTranslation,
}

pub open spec fn write_action_of(w: CatalogueWrite) -> Seq<char> {
    match w {
        CatalogueWrite::Create => "create"@,
        CatalogueWrite::UpdateType => "update"@,
        CatalogueWrite::UpdateMessage => "update"@,
        CatalogueWrite::Delete => "delete"@,
        CatalogueWrite::SetTranslation => "set-lang"@,
        CatalogueWrite::DeleteTranslation => "del-lang"@,
    }
}

/// The start of the message for a write that failed; the database's error follows.
pub open spec fn failure_text(w: CatalogueWrite) -> Seq<char> {
    match w {
        CatalogueWrite::Create => "No se pudo guardar response code: "@,
        CatalogueWrite::UpdateType => "No se pudo actualizar type: "@,
        CatalogueWrite::UpdateMessage => "No se pudo actualizar message_en: "@,
        CatalogueWrite::Delete => "No se pudo eliminar response code: "@,
        CatalogueWrite::SetTranslation => "No se pudo guardar traducción: "@,
        CatalogueWrite::DeleteTranslation => "No se pudo eliminar traducción: "@,
    }
}

/// The answer to a write that the database refused.
pub fn catalogue_write_failed(w: CatalogueWrite, err: &str) -> (r: CatalogueReply)
    ensures
        catalogue_reply_is(r, 500, CODE_INTERNAL_ERROR, write_action_of(w), false, failure_text(w) + err@),
{
    let (action, lead) = match w {
        CatalogueWrite::Create => ("create", "No se pudo guardar response code: "),
        CatalogueWrite::UpdateType => ("update", "No se pudo actualizar type: "),
        CatalogueWrite::UpdateMessage => ("update", "No se pudo actualizar message_en: "),
        CatalogueWrite::Delete => ("delete", "No se pudo eliminar response code: "),
        CatalogueWrite::SetTranslation => ("set-lang", "No se pudo guardar traducción: "),
        CatalogueWrite::DeleteTranslation => ("del-lang", "No se pudo eliminar traducción: "),
    };
    reply(500, CODE_INTERNAL_ERROR, action, false, text2(lead, err))
}

/// The answer to a listing (`list`) or a report (`pdf`) whose reading failed.
pub fn catalogue_read_failed(action: &str, err: &str) -> (r: CatalogueReply)
    ensures
        catalogue_reply_is(r, 500, CODE_INTERNAL_ERROR, action@, false, err@),
{
    reply(500, CODE_INTERNAL_ERROR, action, false, owned(err))
}

/// The answer to a code created (201) or updated (200).
pub fn code_saved(code: i64, created: bool) -> (r: CatalogueReply)
    ensures
        created ==> catalogue_reply_is(r, 201, code, "create"@, true, "Response code guardado"@),
        !created ==> catalogue_reply_is(r, 200, code, "update"@, true, "Response code actualizado"@),
{
    if created {
        reply(201, code, "create", true, owned("Response code guardado"))
    } else {
        reply(200, code, "update", true, owned("Response code actualizado"))
    }
}

/// The answer to the removal of a code, by the number of rows removed.
pub fn code_removed(code: i64, removed: u64) -> (r: CatalogueReply)
    ensures
        removed == 0 ==> catalogue_reply_is(r, 404, CODE_NOT_FOUND, "delete"@, false, "Response code no encontrado"@),
        removed > 0 ==> catalogue_reply_is(r, 200, code, "delete"@, true, "Response code eliminado"@),
{
    if removed == 0 {
        reply(404, CODE_NOT_FOUND, "delete", false, owned("Response code no encontrado"))
    } else {
        reply(200, code, "delete", true, owned("Response code eliminado"))
    }
}

/// The answer to a translation saved in `lang`.
pub fn translation_saved(code: i64, lang: &str) -> (r: CatalogueReply)
    ensures
        catalogue_reply_is(r, 200, code, "set-lang"@, true, "Traducción '"@ + lang@ + "' guardada"@),
{
    reply(200, code, "set-lang", true, text3("Traducción '", lang, "' guardada"))
}

/// The answer to the removal of the translation in `lang`, by the number of rows removed.
pub fn translation_removed(code: i64, lang: &str, removed: u64) -> (r: CatalogueReply)
    ensures
        removed == 0 ==> catalogue_reply_is(
            r,
            404,
            CODE_NOT_FOUND,
            "del-lang"@,
            false,
            "No existe traducción '"@ + lang@ + "' para ese code"@,
        ),
        removed > 0 ==> catalogue_reply_is(r, 200, code, "del-lang"@, true, "Traducción '"@ + lang@ + "' eliminada"@),
{
    if removed == 0 {
        reply(404, CODE_NOT_FOUND, "del-lang", false, text3("No existe traducción '", lang, "' para ese code"))
    } else {
        reply(200, code, "del-lang", true, text3("Traducción '", lang, "' eliminada"))
    }
}

/// The time zone asked for the report: the query's, else the header's, trimmed;
/// none when that is blank.
pub open spec fn report_zone(query: Option<Seq<char>>, header: Option<Seq<char>>) -> Option<Seq<char>> {
    let given = if query is Some {
        query
    } else {
        header
    };
    match given {
        Some(z) => if trim(z).len() > 0 {
            Some(trim(z))
        } else {
            None
        },
        None => None,
    }
}

pub fn report_timezone(query: Option<&str>, header: Option<&str>) -> (r: Option<String>)
    ensures
        match r {
            Some(z) => report_zone(opt_str(query), opt_str(header)) == Some(z@),
            None => report_zone(opt_str(query), opt_str(header)) is None,
        },
{
    let given = match query {
        Some(q) => Some(q),
        None => header,
    };
    match given {
        Some(z) => {
            let t = trim_str(z);
            if t.len() > 0 {
                Some(chars_to_string(&t))
            } else {
                None
            }
        },
        None => None,
    }
}

/// The name of the report's file: `response_codes_<language>.pdf` for a language,
/// `response_codes_all.pdf` for all of them.
pub open spec fn report_file_name(lang: Option<Seq<char>>) -> Seq<char> {
    match lang {
        Some(l) => "response_codes_"@ + language_of(l) + ".pdf"@,
        None => "response_codes_all.pdf"@,
    }
}

pub fn report_filename(lang: Option<&str>) -> (r: String)
    ensures
        r@ == report_file_name(opt_str(lang)),
{
    match lang {
        Some(l) => {
            let n = normalize_language_tag(l);
            let mut v = str_chars("response_codes_");
            append_chars(&mut v, &str_chars(n.as_str()));
            append_str(&mut v, ".pdf");
            chars_to_string(&v)
        },
        None => owned("response_codes_all.pdf"),
    }
}

/// The `Content-Disposition` of the report: an attachment under `filename`.
pub fn report_disposition(filename: &str) -> (r: String)
    ensures
        r@ == "attachment; filename=\""@ + filename@ + "\""@,
{
    text3("attachment; filename=\"", filename, "\"")
}

} // verus!
