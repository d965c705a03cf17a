//! The configuration of a swanctl secret: what a JSON request may hold for each
//! secret type, the lines it is written as, and what is shown back of a written one.
use vstd::prelude::*;

use crate::connections::{pcv, prepend, KeyValues};
use crate::json::{lemma_entry_index, obj_get, obj_lookup, scalar_text, JsonValue};
use crate::models::{owned, res_view};
use crate::text::{
    append_chars, append_str, chars_eq_str, chars_to_string, clone_chars, decimal, ends_with,
    ends_with_str, find_char, has_char, index_of, lines, lines_str, starts_with, starts_with_str,
    str_chars, strip_suffix_all, strip_suffix_all_chars, sub_chars, trim, trim_chars, u64_decimal,
    vec_contains_chars, views, chars_eq, parse_u64, parse_u64_chars,
};
use crate::types::{secret_type_from_chars, secret_type_name, secret_type_named, SecretType};
use crate::commands::utf8_len;
use crate::response_codes::utf8_len_exec;

verus! {

// ───────────────────────────── checks on the object ─────────────────────────────

/// The first key of the object, in the order its map walks them, that is not one of `allowed`.
pub open spec fn first_disallowed(entries: Seq<(String, JsonValue)>, allowed: Seq<Seq<char>>) -> Option<Seq<char>>
    decreases entries.len(),
{
    if entries.len() == 0 {
        None
    } else if !allowed.contains(entries[0].0@) {
        Some(entries[0].0@)
    } else {
        first_disallowed(entries.drop_first(), allowed)
    }
}

/// Refuses an object with a key outside `allowed`, naming the first such key.
pub open spec fn allowed_keys(entries: Seq<(String, JsonValue)>, allowed: Seq<Seq<char>>) -> Result<(), Seq<char>> {
    match first_disallowed(entries, allowed) {
        Some(k) => Err("config."@ + k + " no es válido para este tipo de secret"@),
        None => Ok(()),
    }
}

/// The string held under `key`, or why there is none.
pub open spec fn required_string(entries: Seq<(String, JsonValue)>, key: Seq<char>) -> Result<Seq<char>, Seq<char>> {
    match obj_get(entries, key) {
        None => Err("config."@ + key + " es requerido"@),
        Some(JsonValue::String(s)) => Ok(s@),
        Some(_) => Err("config."@ + key + " debe ser string"@),
    }
}

/// The `idx`-th item of `ids`, which must be a non-blank string.
pub open spec fn id_item(v: JsonValue, idx: nat) -> Result<Seq<char>, Seq<char>> {
    match v {
        JsonValue::String(s) => if trim(s@).len() > 0 {
            Ok(s@)
        } else {
            Err("config.ids["@ + decimal(idx) + "] no puede estar vacío"@)
        },
        _ => Err("config.ids["@ + decimal(idx) + "] debe ser string"@),
    }
}

/// The items of `ids`, or the reason of the first that is refused.
pub open spec fn id_list(items: Seq<JsonValue>) -> Result<Seq<Seq<char>>, Seq<char>>
    decreases items.len(),
{
    if items.len() == 0 {
        Ok(seq![])
    } else {
        match id_list(items.drop_last()) {
            Err(e) => Err(e),
            Ok(a) => match id_item(items.last(), (items.len() - 1) as nat) {
                Err(e) => Err(e),
                Ok(t) => Ok(a.push(t)),
            },
        }
    }
}

/// The identities of a shared secret: `id` when present, else the list `ids`, else none.
pub open spec fn ids_of(entries: Seq<(String, JsonValue)>) -> Result<Seq<Seq<char>>, Seq<char>> {
    match obj_get(entries, "id"@) {
        Some(JsonValue::String(s)) => if trim(s@).len() > 0 {
            Ok(seq![s@])
        } else {
            Err("config.id no puede estar vacío"@)
        },
        Some(_) => Err("config.id debe ser string"@),
        None => match obj_get(entries, "ids"@) {
            Some(JsonValue::Array(items)) => if items@.len() == 0 {
                Err("config.ids no puede ser vacío"@)
            } else {
                id_list(items@)
            },
            Some(_) => Err("config.ids debe ser lista de strings"@),
            None => Ok(seq![]),
        },
    }
}

/// The text of a scalar, or why `field` cannot hold the value.
pub open spec fn scalar_or_err(v: JsonValue, field: Seq<char>) -> Result<Seq<char>, Seq<char>> {
    match scalar_text(v) {
        Some(t) => Ok(t),
        None => Err(field + " debe ser string, número o booleano"@),
    }
}

// ───────────────────────────── lines per secret type ─────────────────────────────

/// The key under which the `idx`-th identity is written: `id`, then `id2`, `id3`, ...
pub open spec fn id_key(idx: nat) -> Seq<char> {
    if idx == 0 {
        "id"@
    } else {
        "id"@ + decimal(idx + 1)
    }
}

pub open spec fn id_lines(ids: Seq<Seq<char>>) -> Seq<Seq<char>> {
    Seq::new(ids.len(), |i: int| id_key(i as nat) + " = "@ + ids[i])
}

/// Shared secrets (EAP, XAuth, NTLM, IKE, PPK): `secret`, at least 8 bytes once
/// trimmed, and at least one identity.
pub open spec fn shared_secret_lines(t: SecretType, e: Seq<(String, JsonValue)>) -> Result<Seq<Seq<char>>, Seq<char>> {
    match allowed_keys(e, seq!["secret"@, "id"@, "ids"@]) {
        Err(x) => Err(x),
        Ok(_) => match required_string(e, "secret"@) {
            Err(x) => Err(x),
            Ok(sec) => if trim(sec).len() == 0 {
                Err("config.secret no puede estar vacío"@)
            } else if utf8_len(trim(sec)) < 8 {
                Err("config.secret debe tener al menos 8 caracteres"@)
            } else {
                match ids_of(e) {
                    Err(x) => Err(x),
                    Ok(ids) => if ids.len() == 0 {
                        Err(
                            "config.id (string) o config.ids (lista de strings) es requerido para el tipo '"@
                                + secret_type_name(t) + "'"@,
                        )
                    } else {
                        Ok(seq!["secret = "@ + sec] + id_lines(ids))
                    },
                }
            },
        },
    }
}

/// Private keys (private, RSA, ECDSA, PKCS#8, PKCS#12): the key `file` and its `secret`.
pub open spec fn key_file_lines(e: Seq<(String, JsonValue)>) -> Result<Seq<Seq<char>>, Seq<char>> {
    match allowed_keys(e, seq!["file"@, "secret"@]) {
        Err(x) => Err(x),
        Ok(_) => match required_string(e, "file"@) {
            Err(x) => Err(x),
            Ok(file) => match required_string(e, "secret"@) {
                Err(x) => Err(x),
                Ok(sec) => if trim(file).len() == 0 {
                    Err("config.file no puede estar vacío"@)
                } else if trim(sec).len() == 0 {
                    Err("config.secret no puede estar vacío"@)
                } else {
                    Ok(seq!["file = "@ + file, "secret = "@ + sec])
                },
            },
        },
    }
}

/// The line of an optional scalar setting, none when the key is absent.
pub open spec fn optional_line(e: Seq<(String, JsonValue)>, key: Seq<char>) -> Result<Seq<Seq<char>>, Seq<char>> {
    match obj_get(e, key) {
        None => Ok(seq![]),
        Some(v) => match scalar_or_err(v, "config."@ + key) {
            Err(x) => Err(x),
            Ok(t) => Ok(seq![key + " = "@ + t]),
        },
    }
}

/// Smartcard tokens: `handle`, then `slot`, `module` and `pin` where given.
pub open spec fn token_lines(e: Seq<(String, JsonValue)>) -> Result<Seq<Seq<char>>, Seq<char>> {
    match allowed_keys(e, seq!["handle"@, "slot"@, "module"@, "pin"@]) {
        Err(x) => Err(x),
        Ok(_) => match required_string(e, "handle"@) {
            Err(x) => Err(x),
            Ok(h) => if trim(h).len() == 0 {
                Err("config.handle no puede estar vacío"@)
            } else {
                match optional_line(e, "slot"@) {
                    Err(x) => Err(x),
                    Ok(s) => match optional_line(e, "module"@) {
                        Err(x) => Err(x),
                        Ok(m) => prepend(seq!["handle = "@ + h] + s + m, optional_line(e, "pin"@)),
                    },
                }
            },
        },
    }
}

pub open spec fn is_shared_secret(t: SecretType) -> bool {
    t is Eap || t is Xauth || t is Ntlm || t is Ike || t is Ppk
}

pub open spec fn is_key_file(t: SecretType) -> bool {
    t is Private || t is Rsa || t is Ecdsa || t is Pkcs8 || t is Pkcs12
}

/// The lines of a secret of type `t` configured by `config`, or why it is refused.
pub open spec fn secret_lines(t: SecretType, config: JsonValue) -> Result<Seq<Seq<char>>, Seq<char>> {
    match config {
        JsonValue::Object(es) => if is_shared_secret(t) {
            shared_secret_lines(t, es@)
        } else if is_key_file(t) {
            key_file_lines(es@)
        } else {
            token_lines(es@)
        },
        _ => Err("config debe ser un objeto JSON"@),
    }
}

pub open spec fn lines_view(r: Result<Vec<String>, String>) -> Result<Seq<Seq<char>>, Seq<char>> {
    match r {
        Ok(v) => Ok(v@.map_values(|s: String| s@)),
        Err(e) => Err(e@),
    }
}

// ───────────────────────────── executable checks ─────────────────────────────

fn str_list(a: &str, b: &str, c: &str, d: &str, n: usize) -> (r: Vec<Vec<char>>)
    requires
        2 <= n <= 4,
    ensures
        views(r@) == seq![a@, b@, c@, d@].take(n as int),
{
    let mut r: Vec<Vec<char>> = Vec::new();
    r.push(str_chars(a));
    r.push(str_chars(b));
    if n >= 3 {
        r.push(str_chars(c));
    }
    if n >= 4 {
        r.push(str_chars(d));
    }
    assert(views(r@) =~= seq![a@, b@, c@, d@].take(n as int));
    r
}

/// Refuses an object with a key outside `allowed` (see `allowed_keys`).
pub fn validate_allowed_keys(entries: &Vec<(String, JsonValue)>, allowed: &Vec<Vec<char>>) -> (r: Result<(), String>)
    ensures
        match (r, allowed_keys(entries@, views(allowed@))) {
            (Ok(_), Ok(_)) => true,
            (Err(x), Err(y)) => x@ == y,
            _ => false,
        },
{
    let mut i: usize = 0;
    assert(entries@.skip(0) =~= entries@);
    while i < entries.len()
        invariant
            i <= entries.len(),
            first_disallowed(entries@, views(allowed@)) == first_disallowed(entries@.skip(i as int), views(allowed@)),
        decreases entries.len() - i,
    {
        let ghost rest = entries@.skip(i as int);
        assert(rest[0] == entries@[i as int]);
        assert(rest.drop_first() =~= entries@.skip(i + 1));
        let k = str_chars(entries[i].0.as_str());
        if !vec_contains_chars(allowed, &k) {
            let mut e = str_chars("config.");
            append_chars(&mut e, &k);
            append_str(&mut e, " no es válido para este tipo de secret");
            return Err(chars_to_string(&e));
        }
        i += 1;
    }
    Ok(())
}

/// The string held under `key` (see `required_string`).
pub fn extract_required_string(entries: &Vec<(String, JsonValue)>, key: &str) -> (r: Result<String, String>)
    ensures
        res_view(r) == required_string(entries@, key@),
{
    match obj_lookup(entries, key) {
        None => {
            let mut e = str_chars("config.");
            append_str(&mut e, key);
            append_str(&mut e, " es requerido");
            Err(chars_to_string(&e))
        },
        Some(JsonValue::String(s)) => Ok(s.clone()),
        Some(_) => {
            let mut e = str_chars("config.");
            append_str(&mut e, key);
            append_str(&mut e, " debe ser string");
            Err(chars_to_string(&e))
        },
    }
}

fn index_message(head: &str, idx: usize, tail: &str) -> (r: String)
    ensures
        r@ == head@ + decimal(idx as nat) + tail@,
{
    let mut e = str_chars(head);
    let d = u64_decimal(idx as u64);
    append_chars(&mut e, &d);
    append_str(&mut e, tail);
    chars_to_string(&e)
}

/// The identities of a shared secret (see `ids_of`).
pub fn extract_ids(entries: &Vec<(String, JsonValue)>) -> (r: Result<Vec<String>, String>)
    ensures
        lines_view(r) == ids_of(entries@),
{
    match obj_lookup(entries, "id") {
        Some(JsonValue::String(s)) => {
            let t = trim_chars(&str_chars(s.as_str()));
            if t.len() > 0 {
                let mut v: Vec<String> = Vec::new();
                v.push(s.clone());
                assert(v@.map_values(|x: String| x@) =~= seq![s@]);
                Ok(v)
            } else {
                Err(owned("config.id no puede estar vacío"))
            }
        },
        Some(_) => Err(owned("config.id debe ser string")),
        None => match obj_lookup(entries, "ids") {
            Some(JsonValue::Array(items)) => {
                if items.len() == 0 {
                    return Err(owned("config.ids no puede ser vacío"));
                }
                let mut out: Vec<String> = Vec::new();
                let mut i: usize = 0;
                let ghost g = ids_of(entries@);
                assert(g == id_list(items@));
                assert(out@.map_values(|x: String| x@) =~= Seq::<Seq<char>>::empty());
                assert(items@.take(0) =~= Seq::<JsonValue>::empty());
                while i < items.len()
                    invariant
                        i <= items.len(),
                        g == ids_of(entries@),
                        g == id_list(items@),
                        id_list(items@.take(i as int)) == Ok::<Seq<Seq<char>>, Seq<char>>(out@.map_values(|x: String| x@)),
                    decreases items.len() - i,
                {
                    let ghost t = items@.take(i + 1);
                    assert(t.drop_last() =~= items@.take(i as int));
                    assert(t.last() == items@[i as int]);
                    match &items[i] {
                        JsonValue::String(s) => {
                            let tt = trim_chars(&str_chars(s.as_str()));
                            if tt.len() == 0 {
                                proof {
                                    lemma_id_list_err(items@, i as int);
                                }
                                return Err(index_message("config.ids[", i, "] no puede estar vacío"));
                            }
                            let ghost o = out@;
                            out.push(s.clone());
                            assert(out@.map_values(|x: String| x@) =~= o.map_values(|x: String| x@).push(s@));
                        },
                        _ => {
                            proof {
                                lemma_id_list_err(items@, i as int);
                            }
                            return Err(index_message("config.ids[", i, "] debe ser string"));
                        },
                    }
                    i += 1;
                }
                assert(items@.take(items.len() as int) =~= items@);
                Ok(out)
            },
            Some(_) => Err(owned("config.ids debe ser lista de strings")),
            None => {
                let v: Vec<String> = Vec::new();
                assert(v@.map_values(|x: String| x@) =~= Seq::<Seq<char>>::empty());
                Ok(v)
            },
        },
    }
}

proof fn lemma_id_list_err(items: Seq<JsonValue>, i: int)
    requires
        0 <= i < items.len(),
        id_list(items.take(i + 1)) is Err,
    ensures
        id_list(items) == id_list(items.take(i + 1)),
    decreases items.len(),
{
    if items.len() > i + 1 {
        assert(items.drop_last().take(i + 1) =~= items.take(i + 1));
        lemma_id_list_err(items.drop_last(), i);
    } else {
        assert(items.take(i + 1) =~= items);
    }
}

/// The text of a string, number or boolean value; any other is refused for `field_name`.
pub fn render_scalar_value(value: &JsonValue, field_name: &str) -> (r: Result<String, String>)
    ensures
        res_view(r) == scalar_or_err(*value, field_name@),
{
    match value {
        JsonValue::String(s) => Ok(s.clone()),
        JsonValue::Number(n) => Ok(n.clone()),
        JsonValue::Bool(b) => if *b {
            Ok(owned("true"))
        } else {
            Ok(owned("false"))
        },
        _ => {
            let mut e = str_chars(field_name);
            append_str(&mut e, " debe ser string, número o booleano");
            Err(chars_to_string(&e))
        },
    }
}


fn prefixed(a: &str, b: &String) -> (r: String)
    ensures
        r@ == a@ + b@,
{
    let mut v = str_chars(a);
    append_str(&mut v, b.as_str());
    chars_to_string(&v)
}

fn kv_line(k: &String, val: &String) -> (r: String)
    ensures
        r@ == k@ + " = "@ + val@,
{
    let mut v = str_chars(k.as_str());
    append_str(&mut v, " = ");
    append_str(&mut v, val.as_str());
    chars_to_string(&v)
}

fn push_string(v: &mut Vec<String>, s: String)
    ensures
        final(v)@.map_values(|x: String| x@) == old(v)@.map_values(|x: String| x@).push(s@),
{
    let ghost o = v@;
    v.push(s);
    assert(v@.map_values(|x: String| x@) =~= o.map_values(|x: String| x@).push(s@));
}

fn id_key_exec(idx: usize) -> (r: String)
    requires
        idx < usize::MAX,
    ensures
        r@ == id_key(idx as nat),
{
    if idx == 0 {
        owned("id")
    } else {
        let mut v = str_chars("id");
        let n: u64 = idx as u64;
        assert(n < u64::MAX) by {
            assert(usize::MAX <= u64::MAX);
        }
        let d = u64_decimal(n + 1);
        append_chars(&mut v, &d);
        chars_to_string(&v)
    }
}

fn shared_secret_exec(t: SecretType, e: &Vec<(String, JsonValue)>) -> (r: Result<Vec<String>, String>)
    ensures
        lines_view(r) == shared_secret_lines(t, e@),
{
    let allowed = str_list("secret", "id", "ids", "", 3);
    assert(views(allowed@) =~= seq!["secret"@, "id"@, "ids"@]);
    match validate_allowed_keys(e, &allowed) {
        Err(x) => return Err(x),
        Ok(_) => {},
    }
    let sec = match extract_required_string(e, "secret") {
        Err(x) => return Err(x),
        Ok(s) => s,
    };
    let trimmed = trim_chars(&str_chars(sec.as_str()));
    if trimmed.len() == 0 {
        return Err(owned("config.secret no puede estar vacío"));
    }
    if utf8_len_exec(&trimmed) < 8 {
        return Err(owned("config.secret debe tener al menos 8 caracteres"));
    }
    let ids = match extract_ids(e) {
        Err(x) => return Err(x),
        Ok(v) => v,
    };
    if ids.len() == 0 {
        let mut m = str_chars("config.id (string) o config.ids (lista de strings) es requerido para el tipo '");
        append_str(&mut m, t.as_str());
        append_str(&mut m, "'");
        return Err(chars_to_string(&m));
    }
    let ghost idv = ids@.map_values(|x: String| x@);
    let mut lines: Vec<String> = Vec::new();
    push_string(&mut lines, prefixed("secret = ", &sec));
    let mut k: usize = 0;
    assert(lines@.map_values(|x: String| x@) =~= seq!["secret = "@ + sec@] + id_lines(idv).take(0));
    while k < ids.len()
        invariant
            k <= ids.len(),
            idv == ids@.map_values(|x: String| x@),
            lines@.map_values(|x: String| x@) == seq!["secret = "@ + sec@] + id_lines(idv).take(k as int),
        decreases ids.len() - k,
    {
        let key = id_key_exec(k);
        push_string(&mut lines, kv_line(&key, &ids[k]));
        assert(id_lines(idv).take(k + 1) =~= id_lines(idv).take(k as int).push(id_key(k as nat) + " = "@ + idv[k as int]));
        k += 1;
    }
    assert(id_lines(idv).take(ids.len() as int) =~= id_lines(idv));
    Ok(lines)
}

fn key_file_exec(e: &Vec<(String, JsonValue)>) -> (r: Result<Vec<String>, String>)
    ensures
        lines_view(r) == key_file_lines(e@),
{
    let allowed = str_list("file", "secret", "", "", 2);
    assert(views(allowed@) =~= seq!["file"@, "secret"@]);
    match validate_allowed_keys(e, &allowed) {
        Err(x) => return Err(x),
        Ok(_) => {},
    }
    let file = match extract_required_string(e, "file") {
        Err(x) => return Err(x),
        Ok(s) => s,
    };
    let sec = match extract_required_string(e, "secret") {
        Err(x) => return Err(x),
        Ok(s) => s,
    };
    if trim_chars(&str_chars(file.as_str())).len() == 0 {
        return Err(owned("config.file no puede estar vacío"));
    }
    if trim_chars(&str_chars(sec.as_str())).len() == 0 {
        return Err(owned("config.secret no puede estar vacío"));
    }
    let mut lines: Vec<String> = Vec::new();
    push_string(&mut lines, prefixed("file = ", &file));
    push_string(&mut lines, prefixed("secret = ", &sec));
    assert(lines@.map_values(|x: String| x@) =~= seq!["file = "@ + file@, "secret = "@ + sec@]);
    Ok(lines)
}

fn optional_line_exec(e: &Vec<(String, JsonValue)>, key: &str) -> (r: Result<Option<String>, String>)
    ensures
        match (r, optional_line(e@, key@)) {
            (Ok(None), Ok(ls)) => ls.len() == 0,
            (Ok(Some(l)), Ok(ls)) => ls == seq![l@],
            (Err(x), Err(y)) => x@ == y,
            _ => false,
        },
{
    match obj_lookup(e, key) {
        None => Ok(None),
        Some(v) => {
            let mut field = str_chars("config.");
            append_str(&mut field, key);
            let fs = chars_to_string(&field);
            match render_scalar_value(v, fs.as_str()) {
                Err(x) => Err(x),
                Ok(t) => {
                    let k = owned(key);
                    Ok(Some(kv_line(&k, &t)))
                },
            }
        },
    }
}

fn push_optional(lines: &mut Vec<String>, l: Option<String>)
    ensures
        final(lines)@.map_values(|x: String| x@) == old(lines)@.map_values(|x: String| x@) + match l {
            Some(s) => seq![s@],
            None => Seq::<Seq<char>>::empty(),
        },
{
    match l {
        Some(s) => {
            let ghost o = lines@;
            push_string(lines, s);
            assert(lines@.map_values(|x: String| x@) =~= o.map_values(|x: String| x@) + seq![s@]);
        },
        None => {
            assert(lines@.map_values(|x: String| x@) =~= lines@.map_values(|x: String| x@) + Seq::<Seq<char>>::empty());
        },
    }
}

fn token_exec(e: &Vec<(String, JsonValue)>) -> (r: Result<Vec<String>, String>)
    ensures
        lines_view(r) == token_lines(e@),
{
    let allowed = str_list("handle", "slot", "module", "pin", 4);
    assert(views(allowed@) =~= seq!["handle"@, "slot"@, "module"@, "pin"@]);
    match validate_allowed_keys(e, &allowed) {
        Err(x) => return Err(x),
        Ok(_) => {},
    }
    let h = match extract_required_string(e, "handle") {
        Err(x) => return Err(x),
        Ok(s) => s,
    };
    if trim_chars(&str_chars(h.as_str())).len() == 0 {
        return Err(owned("config.handle no puede estar vacío"));
    }
    let slot = match optional_line_exec(e, "slot") {
        Err(x) => return Err(x),
        Ok(l) => l,
    };
    let module = match optional_line_exec(e, "module") {
        Err(x) => return Err(x),
        Ok(l) => l,
    };
    let pin = match optional_line_exec(e, "pin") {
        Err(x) => return Err(x),
        Ok(l) => l,
    };
    let mut lines: Vec<String> = Vec::new();
    push_string(&mut lines, prefixed("handle = ", &h));
    push_optional(&mut lines, slot);
    push_optional(&mut lines, module);
    push_optional(&mut lines, pin);
    proof {
        let s1 = optional_line(e@, "slot"@)->Ok_0;
        let m1 = optional_line(e@, "module"@)->Ok_0;
        let p1 = optional_line(e@, "pin"@)->Ok_0;
        assert(lines@.map_values(|x: String| x@) =~= seq!["handle = "@ + h@] + s1 + m1 + p1);
    }
    Ok(lines)
}

/// The lines of a secret of type `secret_type` configured by `config` (see `secret_lines`).
pub fn validate_and_render_secret_config(secret_type: SecretType, config: &JsonValue) -> (r: Result<Vec<String>, String>)
    ensures
        lines_view(r) == secret_lines(secret_type, *config),
{
    let e = match config {
        JsonValue::Object(es) => es,
        _ => return Err(owned("config debe ser un objeto JSON")),
    };
    match secret_type {
        SecretType::Eap | SecretType::Xauth | SecretType::Ntlm | SecretType::Ike | SecretType::Ppk => {
            shared_secret_exec(secret_type, e)
        },
        SecretType::Private | SecretType::Rsa | SecretType::Ecdsa | SecretType::Pkcs8 | SecretType::Pkcs12 => {
            key_file_exec(e)
        },
        SecretType::Token => token_exec(e),
    }
}


// ───────────────────────────── reading a written secret back ─────────────────────────────

/// What a scan of a secret file has found so far: the name of the first section, the
/// assignments inside it, and whether the section was closed.
pub type SecretScan = (Option<Seq<char>>, KeyValues, bool);

pub open spec fn before_eq(t: Seq<char>) -> Seq<char> {
    t.take(index_of(t, '='))
}

pub open spec fn after_eq(t: Seq<char>) -> Seq<char> {
    t.skip(index_of(t, '=') + 1)
}

/// One line of the scan: blank lines and `secrets {` are skipped; the first other line
/// ending in `{` opens the secret's section, whose name is what precedes the braces;
/// inside it `}` closes it and `key = value` lines are kept, trimmed on both sides.
pub open spec fn scan_step(st: SecretScan, line: Seq<char>) -> SecretScan {
    let t = trim(line);
    if st.2 || t.len() == 0 || t == "secrets {"@ {
        st
    } else if ends_with(t, "{"@) && st.0 is None {
        (Some(trim(strip_suffix_all(t, "{"@))), st.1, false)
    } else if st.0 is Some && t == "}"@ {
        (st.0, st.1, true)
    } else if st.0 is Some && has_char(t, '=') {
        (st.0, st.1.push((trim(before_eq(t)), trim(after_eq(t)))), false)
    } else {
        st
    }
}

pub open spec fn scan(ls: Seq<Seq<char>>) -> SecretScan
    decreases ls.len(),
{
    if ls.len() == 0 {
        (None, seq![], false)
    } else {
        scan_step(scan(ls.drop_last()), ls.last())
    }
}

/// The type of a written secret: the part of its section's name before the first `-`.
pub open spec fn scanned_type(content: Seq<char>) -> Result<SecretType, Seq<char>> {
    match scan(lines(content)).0 {
        None => Err("No se encontró sección de secret"@),
        Some(name) => if !has_char(name, '-') {
            Err("No se pudo identificar tipo de secret"@)
        } else {
            match secret_type_named(name.take(index_of(name, '-'))) {
                None => Err("Tipo de secret desconocido: '"@ + name.take(index_of(name, '-')) + "'"@),
                Some(t) => Ok(t),
            }
        },
    }
}

pub open spec fn is_hidden_key(k: Seq<char>) -> bool {
    k == "secret"@ || k == "pin"@
}

/// The key of an identity: `id`, or `id` followed by what `str::parse::<u32>`
/// accepts (`id2`, `id3`, ...).
pub open spec fn is_id_key(k: Seq<char>) -> bool {
    k == "id"@ || (starts_with(k, "id"@) && match parse_u64(k.skip(2)) {
        Some(n) => n <= u32::MAX,
        None => false,
    })
}

/// A value shown for a setting: a text, or a list of texts.
pub enum ShownValue {
    Text(Seq<char>),
    List(Seq<Seq<char>>),
}

/// The fields of a shown object, in order.
pub type ShownFields = Seq<(Seq<char>, ShownValue)>;

/// The position of the field `k`, or -1 when there is none.
pub open spec fn key_at(fs: ShownFields, k: Seq<char>) -> int
    decreases fs.len(),
{
    if fs.len() == 0 {
        -1
    } else if fs[0].0 == k {
        0
    } else {
        let r = key_at(fs.drop_first(), k);
        if r < 0 {
            -1
        } else {
            r + 1
        }
    }
}

/// The fields with `x` under `k`: the value under `k` replaced when there is one,
/// else a field added at the end. As in a JSON object's map, a key stands once,
/// with the last value put under it.
pub open spec fn put(fs: ShownFields, k: Seq<char>, x: ShownValue) -> ShownFields {
    let i = key_at(fs, k);
    if i < 0 {
        fs.push((k, x))
    } else {
        fs.update(i, (k, x))
    }
}

/// The fields shown for the settings: `secret` and `pin` redacted, identities left
/// out, every other setting with its value, a later setting replacing an earlier
/// one with the same key.
pub open spec fn shown_fields(asg: KeyValues) -> ShownFields
    decreases asg.len(),
{
    if asg.len() == 0 {
        seq![]
    } else {
        let p = shown_fields(asg.drop_last());
        let kv = asg.last();
        if is_hidden_key(kv.0) {
            put(p, kv.0, ShownValue::Text("***redacted***"@))
        } else if is_id_key(kv.0) {
            p
        } else {
            put(p, kv.0, ShownValue::Text(kv.1))
        }
    }
}

/// The identities of a written secret, in order: the values of the identity keys.
pub open spec fn shown_ids(asg: KeyValues) -> Seq<Seq<char>>
    decreases asg.len(),
{
    if asg.len() == 0 {
        seq![]
    } else {
        let p = shown_ids(asg.drop_last());
        let kv = asg.last();
        if !is_hidden_key(kv.0) && is_id_key(kv.0) {
            p.push(kv.1)
        } else {
            p
        }
    }
}

/// The object shown for a written secret: its fields, then a single identity as
/// `id` or several as the list `ids`.
pub open spec fn shown_object(asg: KeyValues) -> ShownFields {
    let fs = shown_fields(asg);
    let ids = shown_ids(asg);
    if ids.len() == 0 {
        fs
    } else if ids.len() == 1 {
        put(fs, "id"@, ShownValue::Text(ids[0]))
    } else {
        put(fs, "ids"@, ShownValue::List(ids))
    }
}

pub open spec fn json_str_is(v: JsonValue, t: Seq<char>) -> bool {
    match v {
        JsonValue::String(s) => s@ == t,
        _ => false,
    }
}

pub open spec fn string_list_is(v: JsonValue, ts: Seq<Seq<char>>) -> bool {
    match v {
        JsonValue::Array(items) => items@.len() == ts.len() && forall|i: int|
            0 <= i < ts.len() ==> json_str_is(#[trigger] items@[i], ts[i]),
        _ => false,
    }
}

pub open spec fn value_is(v: JsonValue, x: ShownValue) -> bool {
    match x {
        ShownValue::Text(t) => json_str_is(v, t),
        ShownValue::List(ts) => string_list_is(v, ts),
    }
}

/// The entries are the fields: the same keys in the same order, with their values.
pub open spec fn entries_are(es: Seq<(String, JsonValue)>, fs: ShownFields) -> bool {
    &&& es.len() == fs.len()
    &&& forall|i: int| 0 <= i < es.len() ==> (#[trigger] es[i]).0@ == fs[i].0 && value_is(es[i].1, fs[i].1)
}

/// The JSON object shown for the assignments `asg` (see `shown_object`).
pub open spec fn shown_config(v: JsonValue, asg: KeyValues) -> bool {
    match v {
        JsonValue::Object(es) => entries_are(es@, shown_object(asg)),
        _ => false,
    }
}

pub open spec fn opt_chars(o: Option<Vec<char>>) -> Option<Seq<char>> {
    match o {
        Some(v) => Some(v@),
        None => None,
    }
}

fn scan_line(sec: &mut Option<Vec<char>>, asg: &mut Vec<(Vec<char>, Vec<char>)>, done: &mut bool, line: &Vec<char>)
    ensures
        (opt_chars(*final(sec)), pcv(final(asg)@), *final(done)) == scan_step(
            (opt_chars(*old(sec)), pcv(old(asg)@), *old(done)),
            line@,
        ),
{
    let t = trim_chars(line);
    proof {
        crate::text::lemma_has_char_index(t@, '=');
    }
    if *done || t.len() == 0 || chars_eq_str(&t, "secrets {") {
        return;
    }
    if ends_with_str(&t, "{") && sec.is_none() {
        let brace = str_chars("{");
        let stripped = strip_suffix_all_chars(&t, &brace);
        *sec = Some(trim_chars(&stripped));
        return;
    }
    if sec.is_some() && chars_eq_str(&t, "}") {
        *done = true;
        return;
    }
    if sec.is_some() {
        match find_char(&t, '=') {
            Some(q) => {
                let k = trim_chars(&sub_chars(&t, 0, q));
                let v = trim_chars(&sub_chars(&t, q + 1, t.len()));
                assert(t@.subrange(0, q as int) =~= before_eq(t@));
                assert(t@.subrange(q + 1, t.len() as int) =~= after_eq(t@));
                let ghost o = asg@;
                asg.push((k, v));
                assert(pcv(asg@) =~= pcv(o).push((k@, v@)));
            },
            None => {},
        }
    }
}

pub proof fn lemma_key_at(fs: ShownFields, k: Seq<char>)
    ensures
        key_at(fs, k) < fs.len(),
        key_at(fs, k) >= 0 ==> fs[key_at(fs, k)].0 == k,
        forall|j: int| 0 <= j < fs.len() && (key_at(fs, k) < 0 || j < key_at(fs, k)) ==> (#[trigger] fs[j]).0 != k,
    decreases fs.len(),
{
    if fs.len() > 0 && fs[0].0 != k {
        lemma_key_at(fs.drop_first(), k);
        assert forall|j: int| 0 <= j < fs.len() && (key_at(fs, k) < 0 || j < key_at(fs, k)) implies (#[trigger] fs[j]).0 != k by {
            if j > 0 {
                assert(fs[j] == fs.drop_first()[j - 1]);
            }
        }
    }
}

/// The position of the entry with key `k`, found as `key_at` finds it.
fn key_position(es: &Vec<(String, JsonValue)>, k: &Vec<char>, Ghost(fs): Ghost<ShownFields>) -> (r: Option<usize>)
    requires
        entries_are(es@, fs),
    ensures
        match r {
            Some(i) => key_at(fs, k@) == i,
            None => key_at(fs, k@) < 0,
        },
{
    proof {
        lemma_key_at(fs, k@);
    }
    let mut i: usize = 0;
    while i < es.len()
        invariant
            i <= es.len(),
            entries_are(es@, fs),
            forall|j: int| 0 <= j < i ==> (#[trigger] fs[j]).0 != k@,
            key_at(fs, k@) < fs.len(),
            key_at(fs, k@) >= 0 ==> fs[key_at(fs, k@)].0 == k@,
            forall|j: int| 0 <= j < fs.len() && (key_at(fs, k@) < 0 || j < key_at(fs, k@)) ==> (#[trigger] fs[j]).0 != k@,
        decreases es.len() - i,
    {
        assert(es@[i as int].0@ == fs[i as int].0);
        if chars_eq(&str_chars(es[i].0.as_str()), k) {
            return Some(i);
        }
        i += 1;
    }
    None
}

/// Puts `v` under the key `k`, as `put` does.
fn put_entry(es: &mut Vec<(String, JsonValue)>, k: String, v: JsonValue, Ghost(fs): Ghost<ShownFields>, Ghost(x): Ghost<ShownValue>)
    requires
        entries_are(old(es)@, fs),
        value_is(v, x),
    ensures
        entries_are(final(es)@, put(fs, k@, x)),
{
    let kc = str_chars(k.as_str());
    proof {
        lemma_key_at(fs, kc@);
    }
    let pos = key_position(es, &kc, Ghost(fs));
    let ghost o = es@;
    let ghost kv = k@;
    match pos {
        Some(i) => {
            es.set(i, (k, v));
            assert forall|j: int| 0 <= j < es@.len() implies (#[trigger] es@[j]).0@ == put(fs, kv, x)[j].0 && value_is(
                es@[j].1,
                put(fs, kv, x)[j].1,
            ) by {
                if j != i {
                    assert(es@[j] == o[j]);
                }
            }
        },
        None => {
            es.push((k, v));
            assert forall|j: int| 0 <= j < es@.len() implies (#[trigger] es@[j]).0@ == put(fs, kv, x)[j].0 && value_is(
                es@[j].1,
                put(fs, kv, x)[j].1,
            ) by {
                if j < o.len() {
                    assert(es@[j] == o[j]);
                }
            }
        },
    }
}

/// Whether `k` is the key of an identity (see `is_id_key`).
fn is_id_key_exec(k: &Vec<char>) -> (b: bool)
    ensures
        b == is_id_key(k@),
{
    if chars_eq_str(k, "id") {
        return true;
    }
    if !starts_with_str(k, "id") {
        return false;
    }
    proof {
        reveal_strlit("id");
    }
    let rest = sub_chars(k, 2, k.len());
    assert(rest@ =~= k@.skip(2));
    match parse_u64_chars(&rest) {
        Some(n) => n <= 0xffff_ffff,
        None => false,
    }
}

fn string_value(s: &Vec<char>) -> (r: JsonValue)
    ensures
        json_str_is(r, s@),
{
    JsonValue::String(chars_to_string(s))
}

/// The type of a written secret and the JSON shown for its settings (see
/// `scanned_type` and `shown_config`), or why the file cannot be read as a secret.
pub fn parse_secret_config_for_response(content: &str) -> (r: Result<(SecretType, JsonValue), String>)
    ensures
        match r {
            Ok((t, v)) => scanned_type(content@) == Ok::<SecretType, Seq<char>>(t) && shown_config(
                v,
                scan(lines(content@)).1,
            ),
            Err(e) => scanned_type(content@) == Err::<SecretType, Seq<char>>(e@),
        },
{
    let ls = lines_str(content);
    let ghost lv = views(ls@);
    let mut sec: Option<Vec<char>> = None;
    let mut asg: Vec<(Vec<char>, Vec<char>)> = Vec::new();
    let mut done = false;
    let mut i: usize = 0;
    assert(lv.take(0) =~= Seq::<Seq<char>>::empty());
    assert(pcv(asg@) =~= Seq::<(Seq<char>, Seq<char>)>::empty());
    while i < ls.len()
        invariant
            i <= ls.len(),
            lv == views(ls@),
            lv == lines(content@),
            (opt_chars(sec), pcv(asg@), done) == scan(lv.take(i as int)),
        decreases ls.len() - i,
    {
        assert(lv.take(i + 1).drop_last() =~= lv.take(i as int));
        assert(lv.take(i + 1).last() == ls@[i as int]@);
        scan_line(&mut sec, &mut asg, &mut done, &ls[i]);
        i += 1;
    }
    assert(lv.take(ls.len() as int) =~= lv);
    let name = match sec {
        None => return Err(owned("No se encontró sección de secret")),
        Some(n) => n,
    };
    proof {
        crate::text::lemma_has_char_index(name@, '-');
    }
    let dash = match find_char(&name, '-') {
        None => return Err(owned("No se pudo identificar tipo de secret")),
        Some(q) => q,
    };
    let prefix = sub_chars(&name, 0, dash);
    assert(name@.subrange(0, dash as int) =~= name@.take(index_of(name@, '-')));
    let secret_type = match secret_type_from_chars(&prefix) {
        None => {
            let mut m = str_chars("Tipo de secret desconocido: '");
            append_chars(&mut m, &prefix);
            append_str(&mut m, "'");
            return Err(chars_to_string(&m));
        },
        Some(t) => t,
    };
    let ghost av = pcv(asg@);
    let mut entries: Vec<(String, JsonValue)> = Vec::new();
    let mut ids: Vec<JsonValue> = Vec::new();
    let mut j: usize = 0;
    assert(av.take(0) =~= Seq::<(Seq<char>, Seq<char>)>::empty());
    while j < asg.len()
        invariant
            j <= asg.len(),
            av == pcv(asg@),
            entries_are(entries@, shown_fields(av.take(j as int))),
            ids@.len() == shown_ids(av.take(j as int)).len(),
            forall|q: int| 0 <= q < ids@.len() ==> json_str_is(#[trigger] ids@[q], shown_ids(av.take(j as int))[q]),
        decreases asg.len() - j,
    {
        let ghost t = av.take(j + 1);
        assert(t.drop_last() =~= av.take(j as int));
        assert(t.last() == (asg@[j as int].0@, asg@[j as int].1@));
        let ghost pe = shown_fields(av.take(j as int));
        let ghost pi = shown_ids(av.take(j as int));
        let k = &asg[j].0;
        let hidden = chars_eq_str(k, "secret") || chars_eq_str(k, "pin");
        if hidden {
            let red = str_chars("***redacted***");
            put_entry(&mut entries, chars_to_string(k), string_value(&red), Ghost(pe), Ghost(ShownValue::Text(red@)));
            assert(shown_ids(t) == pi);
        } else if is_id_key_exec(k) {
            let ghost o = ids@;
            ids.push(string_value(&asg[j].1));
            assert(shown_ids(t) == pi.push(asg@[j as int].1@));
            assert forall|q: int| 0 <= q < ids@.len() implies json_str_is(#[trigger] ids@[q], shown_ids(t)[q]) by {
                if q < o.len() {
                    assert(ids@[q] == o[q]);
                    assert(json_str_is(o[q], pi[q]));
                }
            }
            assert(shown_fields(t) == pe);
        } else {
            put_entry(
                &mut entries,
                chars_to_string(k),
                string_value(&asg[j].1),
                Ghost(pe),
                Ghost(ShownValue::Text(asg@[j as int].1@)),
            );
            assert(shown_ids(t) == pi);
        }
        j += 1;
    }
    assert(av.take(asg.len() as int) =~= av);
    let ghost fs = shown_fields(av);
    let ghost idv = shown_ids(av);
    if ids.len() == 0 {
        Ok((secret_type, JsonValue::Object(entries)))
    } else if ids.len() == 1 {
        let ghost o = ids@;
        let one = match ids.pop() {
            Some(v) => v,
            None => JsonValue::Null,
        };
        assert(one == o[0]);
        put_entry(&mut entries, owned("id"), one, Ghost(fs), Ghost(ShownValue::Text(idv[0])));
        Ok((secret_type, JsonValue::Object(entries)))
    } else {
        let list = JsonValue::Array(ids);
        put_entry(&mut entries, owned("ids"), list, Ghost(fs), Ghost(ShownValue::List(idv)));
        Ok((secret_type, JsonValue::Object(entries)))
    }
}

} // verus!
