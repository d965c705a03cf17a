//! Connections, secrets and certificates managed in swanctl's configuration:
//! safe names, file locations, and the text of the files written.
use vstd::prelude::*;

use crate::models::{opt_view, owned, res_view};
use crate::text::{
    append_chars, append_str, char_is_alnum, chars_to_string, clone_chars, find, find_sub,
    is_ascii_alnum, join, join_chars, lines, lines_chars, lines_str, rfind_char, rindex_of,
    str_chars, strip_prefix_or_keep, strip_prefix_or_keep_chars, sub_chars, trim, trim_char,
    trim_char_chars, trim_chars, trim_str, views,
};
use crate::text::{
    char_is_ascii_ws, contains_char, count_char, count_char_exec, has_char, index_of,
    is_ascii_ws, lemma_count_char_le, lemma_split_acc_nonempty, split, split_chars,
};
use crate::json::{bool_text, scalar_text, JsonValue};
use crate::types::{
    secret_type_name, CertificateKind, ConnectionCertificateAttachRequest, SecretType,
};

verus! {

// ───────────────────────────── names ─────────────────────────────

/// A character allowed in a managed name: ASCII letters and digits, `-`, `_` and `.`.
pub open spec fn name_char(c: char) -> bool {
    is_ascii_alnum(c) || c == '-' || c == '_' || c == '.'
}

/// The name that `name` stands for, if it is a safe one: `name` trimmed, when that is
/// non-empty and made of letters, digits, `-`, `_` and `.` only.
pub open spec fn safe_name(name: Seq<char>) -> Option<Seq<char>> {
    let t = trim(name);
    if t.len() > 0 && (forall|i: int| 0 <= i < t.len() ==> name_char(#[trigger] t[i])) {
        Some(t)
    } else {
        None
    }
}

pub fn safe_name_chars(name: &Vec<char>) -> (r: Option<Vec<char>>)
    ensures
        crate::models::opt_chars(r) == safe_name(name@),
{
    let t = trim_chars(name);
    if t.len() == 0 {
        return None;
    }
    let mut i: usize = 0;
    while i < t.len()
        invariant
            i <= t.len(),
            t@ == trim(name@),
            forall|k: int| 0 <= k < i ==> name_char(#[trigger] t@[k]),
        decreases t.len() - i,
    {
        let c = t[i];
        if !(char_is_alnum(c) || c == '-' || c == '_' || c == '.') {
            assert(!name_char(t@[i as int]));
            assert(!(forall|k: int| 0 <= k < t@.len() ==> name_char(#[trigger] t@[k])));
            return None;
        }
        i += 1;
    }
    Some(t)
}

fn safe_name_str(name: &str) -> (r: Option<String>)
    ensures
        opt_view(r) == safe_name(name@),
{
    let v = str_chars(name);
    match safe_name_chars(&v) {
        Some(t) => Some(chars_to_string(&t)),
        None => None,
    }
}

/// The managed connection name for `name`, or `None` when it is not a safe name.
pub fn sanitize_connection_name(name: &str) -> (r: Option<String>)
    ensures
        opt_view(r) == safe_name(name@),
{
    safe_name_str(name)
}

/// The managed secret name for `name`, or `None` when it is not a safe name.
pub fn sanitize_secret_name(name: &str) -> (r: Option<String>)
    ensures
        opt_view(r) == safe_name(name@),
{
    sanitize_connection_name(name)
}

/// The managed certificate name for `name`, or `None` when it is not a safe name.
pub fn sanitize_certificate_name(name: &str) -> (r: Option<String>)
    ensures
        opt_view(r) == safe_name(name@),
{
    sanitize_connection_name(name)
}

// ───────────────────────────── paths ─────────────────────────────

fn wrap(prefix: &str, name: &str, suffix: &str) -> (r: String)
    ensures
        r@ == prefix@ + name@ + suffix@,
{
    let mut v = str_chars(prefix);
    append_str(&mut v, name);
    append_str(&mut v, suffix);
    chars_to_string(&v)
}

pub open spec fn connection_path(name: Seq<char>) -> Seq<char> {
    "/etc/swanctl/conf.d/bifrost-"@ + name + ".conf"@
}

pub open spec fn secret_path(name: Seq<char>) -> Seq<char> {
    "/etc/swanctl/conf.d/bifrost-secret-"@ + name + ".conf"@
}

pub open spec fn ca_cert_path(name: Seq<char>) -> Seq<char> {
    "/etc/swanctl/x509ca/bifrost-ca-"@ + name + ".crt"@
}

pub open spec fn ca_key_path(name: Seq<char>) -> Seq<char> {
    "/etc/swanctl/private/bifrost-ca-"@ + name + ".key"@
}

pub open spec fn user_cert_path(name: Seq<char>) -> Seq<char> {
    "/etc/swanctl/x509/bifrost-user-"@ + name + ".crt"@
}

pub open spec fn user_key_path(name: Seq<char>) -> Seq<char> {
    "/etc/swanctl/private/bifrost-user-"@ + name + ".key"@
}

/// File of the managed connection `name`.
pub fn connection_file_path(name: &str) -> (r: String)
    ensures
        r@ == connection_path(name@),
{
    wrap("/etc/swanctl/conf.d/bifrost-", name, ".conf")
}

/// File of the managed secret `name`.
pub fn secret_file_path(name: &str) -> (r: String)
    ensures
        r@ == secret_path(name@),
{
    wrap("/etc/swanctl/conf.d/bifrost-secret-", name, ".conf")
}

/// Certificate file of the CA `name`.
pub fn ca_certificate_cert_path(name: &str) -> (r: String)
    ensures
        r@ == ca_cert_path(name@),
{
    wrap("/etc/swanctl/x509ca/bifrost-ca-", name, ".crt")
}

/// Private key file of the CA `name`.
pub fn ca_certificate_key_path(name: &str) -> (r: String)
    ensures
        r@ == ca_key_path(name@),
{
    wrap("/etc/swanctl/private/bifrost-ca-", name, ".key")
}

/// Certificate file of the user certificate `name`.
pub fn user_certificate_cert_path(name: &str) -> (r: String)
    ensures
        r@ == user_cert_path(name@),
{
    wrap("/etc/swanctl/x509/bifrost-user-", name, ".crt")
}

/// Private key file of the user certificate `name`.
pub fn user_certificate_key_path(name: &str) -> (r: String)
    ensures
        r@ == user_key_path(name@),
{
    wrap("/etc/swanctl/private/bifrost-user-", name, ".key")
}

pub open spec fn cert_path(kind: CertificateKind, name: Seq<char>) -> Seq<char> {
    match kind {
        CertificateKind::Ca => ca_cert_path(name),
        CertificateKind::User => user_cert_path(name),
    }
}

pub open spec fn key_path(kind: CertificateKind, name: Seq<char>) -> Seq<char> {
    match kind {
        CertificateKind::Ca => ca_key_path(name),
        CertificateKind::User => user_key_path(name),
    }
}

/// Certificate file of a certificate of the given kind.
pub fn certificate_cert_path(kind: CertificateKind, name: &str) -> (r: String)
    ensures
        r@ == cert_path(kind, name@),
{
    match kind {
        CertificateKind::Ca => ca_certificate_cert_path(name),
        CertificateKind::User => user_certificate_cert_path(name),
    }
}

/// Private key file of a certificate of the given kind.
pub fn certificate_key_path(kind: CertificateKind, name: &str) -> (r: String)
    ensures
        r@ == key_path(kind, name@),
{
    match kind {
        CertificateKind::Ca => ca_certificate_key_path(name),
        CertificateKind::User => user_certificate_key_path(name),
    }
}

// ───────────────────────────── certificate subject ─────────────────────────────

/// The part of a subject for an optional field: `/KEY=value` with the value trimmed,
/// nothing when the value is absent or blank.
pub open spec fn subject_part(key: Seq<char>, v: Option<Seq<char>>) -> Seq<char> {
    match v {
        Some(x) => if trim(x).len() > 0 {
            key + trim(x)
        } else {
            seq![]
        },
        None => seq![],
    }
}

/// An OpenSSL subject: `/C=` country, `/O=` organization, then `/CN=` common name.
pub open spec fn subject(cn: Seq<char>, org: Option<Seq<char>>, country: Option<Seq<char>>) -> Seq<char> {
    subject_part("/C="@, country) + subject_part("/O="@, org) + "/CN="@ + trim(cn)
}

fn push_subject_part(out: &mut Vec<char>, key: &str, v: Option<&str>)
    ensures
        final(out)@ == old(out)@ + subject_part(
            key@,
            match v {
                Some(x) => Some(x@),
                None => None,
            },
        ),
{
    match v {
        Some(x) => {
            let t = trim_str(x);
            if t.len() > 0 {
                let ghost o = out@;
                append_str(out, key);
                append_chars(out, &t);
                assert(out@ =~= o + (key@ + t@));
            } else {
                assert(out@ =~= old(out)@ + Seq::<char>::empty());
            }
        },
        None => {
            assert(out@ =~= old(out)@ + Seq::<char>::empty());
        },
    }
}

/// The subject of a certificate, from its common name, organization and country.
pub fn build_subject(common_name: &str, organization: Option<&str>, country: Option<&str>) -> (r:
    String)
    ensures
        r@ == subject(
            common_name@,
            match organization {
                Some(x) => Some(x@),
                None => None,
            },
            match country {
                Some(x) => Some(x@),
                None => None,
            },
        ),
{
    let mut out: Vec<char> = Vec::new();
    push_subject_part(&mut out, "/C=", country);
    push_subject_part(&mut out, "/O=", organization);
    append_str(&mut out, "/CN=");
    let cn = trim_str(common_name);
    append_chars(&mut out, &cn);
    assert(out@ =~= Seq::<char>::empty() + subject(
        common_name@,
        match organization {
            Some(x) => Some(x@),
            None => None,
        },
        match country {
            Some(x) => Some(x@),
            None => None,
        },
    ));
    chars_to_string(&out)
}

// ───────────────────────────── configuration files ─────────────────────────────

/// The lines of a section, each indented by four spaces and ended by a newline.
pub open spec fn indented_lines(ls: Seq<Seq<char>>) -> Seq<char>
    decreases ls.len(),
{
    if ls.len() == 0 {
        seq![]
    } else {
        indented_lines(ls.drop_last()) + "    "@ + ls.last() + "\n"@
    }
}

fn push_indented_lines(out: &mut Vec<char>, ls: &Vec<Vec<char>>)
    ensures
        final(out)@ == old(out)@ + indented_lines(views(ls@)),
{
    let mut i: usize = 0;
    assert(views(ls@).take(0) =~= Seq::<Seq<char>>::empty());
    assert(out@ =~= old(out)@ + indented_lines(views(ls@).take(0)));
    while i < ls.len()
        invariant
            i <= ls.len(),
            out@ == old(out)@ + indented_lines(views(ls@).take(i as int)),
        decreases ls.len() - i,
    {
        let ghost t = views(ls@).take(i + 1);
        assert(t.drop_last() =~= views(ls@).take(i as int));
        assert(t.last() == ls@[i as int]@);
        let ghost o = out@;
        append_str(out, "    ");
        append_chars(out, &ls[i]);
        append_str(out, "\n");
        assert(out@ =~= old(out)@ + indented_lines(t));
        i += 1;
    }
    assert(views(ls@).take(ls.len() as int) =~= views(ls@));
}

/// A `connections { name { ... } }` file whose section holds the lines of `body`.
pub open spec fn connection_conf(name: Seq<char>, body: Seq<char>) -> Seq<char> {
    "connections {\n"@ + "  "@ + name + " {\n"@ + indented_lines(lines(body)) + "  }\n}\n"@
}

/// The text of the file of connection `name` with configuration `config_body`.
pub fn build_connection_conf(name: &str, config_body: &str) -> (r: String)
    ensures
        r@ == connection_conf(name@, config_body@),
{
    let mut out = str_chars("connections {\n");
    append_str(&mut out, "  ");
    append_str(&mut out, name);
    append_str(&mut out, " {\n");
    let ls = lines_str(config_body);
    push_indented_lines(&mut out, &ls);
    append_str(&mut out, "  }\n}\n");
    chars_to_string(&out)
}

/// A `secrets { type-name { ... } }` file whose section holds `config_lines`.
pub open spec fn secret_conf(name: Seq<char>, t: SecretType, config_lines: Seq<Seq<char>>) -> Seq<char> {
    "secrets {\n"@ + "  "@ + (secret_type_name(t) + "-"@ + name) + " {\n"@ + indented_lines(
        config_lines,
    ) + "  }\n}\n"@
}

pub fn secret_conf_chars(name: &Vec<char>, secret_type: SecretType, config_lines: &Vec<Vec<char>>) -> (r: Vec<char>)
    ensures
        r@ == secret_conf(name@, secret_type, views(config_lines@)),
{
    let mut out = str_chars("secrets {\n");
    append_str(&mut out, "  ");
    append_str(&mut out, secret_type.as_str());
    append_str(&mut out, "-");
    append_chars(&mut out, name);
    append_str(&mut out, " {\n");
    push_indented_lines(&mut out, config_lines);
    append_str(&mut out, "  }\n}\n");
    assert(out@ =~= secret_conf(name@, secret_type, views(config_lines@)));
    out
}

pub open spec fn string_views(v: Seq<String>) -> Seq<Seq<char>> {
    v.map_values(|s: String| s@)
}

pub fn strings_to_chars(v: &Vec<String>) -> (r: Vec<Vec<char>>)
    ensures
        views(r@) == string_views(v@),
{
    let mut r: Vec<Vec<char>> = Vec::new();
    let mut i: usize = 0;
    while i < v.len()
        invariant
            i <= v.len(),
            views(r@) == string_views(v@).take(i as int),
        decreases v.len() - i,
    {
        let s = str_chars(v[i].as_str());
        assert(s@ == string_views(v@)[i as int]);
        let ghost o = r@;
        r.push(s);
        assert(views(r@) =~= views(o).push(s@));
        assert(string_views(v@).take(i + 1) =~= string_views(v@).take(i as int).push(s@));
        assert(views(r@) =~= string_views(v@).take(i + 1));
        i += 1;
    }
    assert(string_views(v@).take(v.len() as int) =~= string_views(v@));
    r
}

/// The text of the file of secret `name` of type `secret_type` with the given lines.
pub fn build_secret_conf(name: &str, secret_type: SecretType, config_lines: &Vec<String>) -> (r:
    String)
    ensures
        r@ == secret_conf(name@, secret_type, string_views(config_lines@)),
{
    let n = str_chars(name);
    let ls = strings_to_chars(config_lines);
    let out = secret_conf_chars(&n, secret_type, &ls);
    chars_to_string(&out)
}

/// The body of the section `name { ... }` of a connection file: the text after the
/// first `name {` and before the last `}`, without surrounding newlines, each line
/// without one leading four-space indent, trimmed. `None` when either mark is missing.
pub open spec fn connection_body(name: Seq<char>, content: Seq<char>) -> Option<Seq<char>> {
    let needle = name + " {"@;
    let start = find(content, needle);
    if start < 0 {
        None
    } else {
        let after = content.skip(start + needle.len());
        let end = rindex_of(after, '}');
        if end < 0 {
            None
        } else {
            let body = trim_char(after.take(end), '\n');
            Some(
                trim(
                    join(
                        lines(body).map_values(|l: Seq<char>| strip_prefix_or_keep(l, "    "@)),
                        "\n"@,
                    ),
                ),
            )
        }
    }
}

pub fn connection_body_chars(name: &Vec<char>, content: &Vec<char>) -> (r: Option<Vec<char>>)
    ensures
        crate::models::opt_chars(r) == connection_body(name@, content@),
{
    let mut needle = clone_chars(name);
    append_str(&mut needle, " {");
    let start = match find_sub(content, &needle) {
        Some(s) => s,
        None => {
            return None;
        },
    };
    proof {
        crate::text::lemma_find_contains(content@, needle@);
    }
    assert(start + needle.len() <= content.len());
    let after = sub_chars(content, start + needle.len(), content.len());
    assert(after@ =~= content@.skip(start + needle@.len()));
    let end = match rfind_char(&after, '}') {
        Some(e) => e,
        None => {
            return None;
        },
    };
    let head = sub_chars(&after, 0, end);
    assert(head@ =~= after@.take(end as int));
    let body = trim_char_chars(&head, '\n');
    let ls = lines_chars(&body);
    let mut cleaned: Vec<Vec<char>> = Vec::new();
    let mut i: usize = 0;
    while i < ls.len()
        invariant
            i <= ls.len(),
            views(cleaned@) == views(ls@).take(i as int).map_values(
                |l: Seq<char>| strip_prefix_or_keep(l, "    "@),
            ),
        decreases ls.len() - i,
    {
        let l = strip_prefix_or_keep_chars(&ls[i], "    ");
        let ghost o = cleaned@;
        cleaned.push(l);
        assert(views(cleaned@) =~= views(o).push(l@));
        assert(views(ls@).take(i + 1) =~= views(ls@).take(i as int).push(ls@[i as int]@));
        assert(views(cleaned@) =~= views(ls@).take(i + 1).map_values(
            |l: Seq<char>| strip_prefix_or_keep(l, "    "@),
        ));
        i += 1;
    }
    assert(views(ls@).take(ls.len() as int) =~= views(ls@));
    let nl = str_chars("\n");
    let joined = join_chars(&cleaned, &nl);
    Some(trim_chars(&joined))
}

/// The configuration body of the connection `name` in the text of its file.
pub fn extract_connection_body(name: &str, content: &str) -> (r: Option<String>)
    ensures
        opt_view(r) == connection_body(name@, content@),
{
    let n = str_chars(name);
    let c = str_chars(content);
    match connection_body_chars(&n, &c) {
        Some(b) => Some(chars_to_string(&b)),
        None => None,
    }
}


// ───────────────────────────── sections ─────────────────────────────

/// Opening minus closing braces of a line.
pub open spec fn brace_balance(line: Seq<char>) -> int {
    count_char(line, '{') - count_char(line, '}')
}

/// Brace depth before line `i`: the balance of `ls[..i]`.
pub open spec fn depth(ls: Seq<Seq<char>>, i: int) -> int
    decreases i,
{
    if i <= 0 {
        0
    } else {
        depth(ls, i - 1) + brace_balance(ls[i - 1])
    }
}

/// Lines whose brace counts and depths fit the 32-bit counters used to track them.
pub open spec fn depths_fit(ls: Seq<Seq<char>>) -> bool {
    &&& forall|k: int| 0 <= k < ls.len() ==> (#[trigger] ls[k]).len() <= i32::MAX
    &&& forall|i: int| 0 <= i <= ls.len() ==> i32::MIN <= #[trigger] depth(ls, i) <= i32::MAX
}

/// First line at or after `i` at depth 0 whose trimmed text is `label`, or -1.
pub open spec fn section_start(ls: Seq<Seq<char>>, label: Seq<char>, i: int) -> int
    decreases ls.len() - i,
{
    if i < 0 || i >= ls.len() {
        -1
    } else if depth(ls, i) == 0 && trim(ls[i]) == label {
        i
    } else {
        section_start(ls, label, i + 1)
    }
}

/// First line at or after `j` after which the depth is back to 0; `s` when none is.
pub open spec fn section_end(ls: Seq<Seq<char>>, s: int, j: int) -> int
    decreases ls.len() - j,
{
    if j < 0 || j >= ls.len() {
        s
    } else if depth(ls, j + 1) == 0 {
        j
    } else {
        section_end(ls, s, j + 1)
    }
}

/// The leading ASCII whitespace of a line.
pub open spec fn indent_of(l: Seq<char>) -> Seq<char>
    decreases l.len(),
{
    if l.len() > 0 && is_ascii_ws(l[0]) {
        seq![l[0]] + indent_of(l.drop_first())
    } else {
        seq![]
    }
}

/// The top-level section labelled `label`: its first line, its closing line (the
/// first after which the depth returns to 0, or the first line itself when none
/// does) and the indent of its first line.
pub open spec fn section_range(ls: Seq<Seq<char>>, label: Seq<char>) -> Option<(int, int, Seq<char>)> {
    let s = section_start(ls, label, 0);
    if s < 0 {
        None
    } else {
        Some((s, section_end(ls, s, s + 1), indent_of(ls[s])))
    }
}

pub proof fn lemma_section_start_bounds(ls: Seq<Seq<char>>, label: Seq<char>, i: int)
    ensures
        section_start(ls, label, i) == -1 || (i <= section_start(ls, label, i) < ls.len()),
    decreases ls.len() - i,
{
    if 0 <= i < ls.len() && !(depth(ls, i) == 0 && trim(ls[i]) == label) {
        lemma_section_start_bounds(ls, label, i + 1);
    }
}

pub proof fn lemma_section_end_bounds(ls: Seq<Seq<char>>, s: int, j: int)
    ensures
        section_end(ls, s, j) == s || (j <= section_end(ls, s, j) < ls.len()),
    decreases ls.len() - j,
{
    if 0 <= j < ls.len() && depth(ls, j + 1) != 0 {
        lemma_section_end_bounds(ls, s, j + 1);
    }
}

/// Opening minus closing braces of `line`.
pub fn brace_delta(line: &str) -> (r: i32)
    requires
        line@.len() <= i32::MAX,
    ensures
        r == brace_balance(line@),
{
    let v = str_chars(line);
    brace_delta_chars(&v)
}

fn brace_delta_chars(line: &Vec<char>) -> (r: i32)
    requires
        line@.len() <= i32::MAX,
    ensures
        r == brace_balance(line@),
{
    let open = count_char_exec(line, '{');
    let close = count_char_exec(line, '}');
    proof {
        lemma_count_char_le(line@, '{');
        lemma_count_char_le(line@, '}');
    }
    (open as i32) - (close as i32)
}

fn indent_chars(l: &Vec<char>) -> (r: Vec<char>)
    ensures
        r@ == indent_of(l@),
{
    let mut i: usize = 0;
    assert(l@.skip(0) =~= l@);
    assert(indent_of(l@) =~= l@.take(0) + indent_of(l@.skip(0)));
    while i < l.len() && char_is_ascii_ws(l[i])
        invariant
            i <= l.len(),
            forall|k: int| 0 <= k < i ==> is_ascii_ws(#[trigger] l@[k]),
            indent_of(l@) == l@.take(i as int) + indent_of(l@.skip(i as int)),
        decreases l.len() - i,
    {
        let ghost r = l@.skip(i as int);
        assert(r.drop_first() =~= l@.skip(i + 1));
        assert(r[0] == l@[i as int]);
        assert(l@.take(i + 1) =~= l@.take(i as int) + seq![l@[i as int]]);
        assert(l@.take(i as int) + (seq![r[0]] + indent_of(r.drop_first())) =~= l@.take(i + 1) + indent_of(l@.skip(i + 1)));
        i += 1;
    }
    if i < l.len() {
        assert(l@.skip(i as int)[0] == l@[i as int]);
    }
    assert(l@.take(i as int) + indent_of(l@.skip(i as int)) =~= l@.take(i as int));
    sub_chars(l, 0, i)
}

fn section_range_chars(ls: &Vec<Vec<char>>, label: &Vec<char>) -> (r: Option<(usize, usize, Vec<char>)>)
    requires
        depths_fit(views(ls@)),
    ensures
        match r {
            Some((s, e, ind)) => section_range(views(ls@), label@) == Some((s as int, e as int, ind@)),
            None => section_range(views(ls@), label@) == None::<(int, int, Seq<char>)>,
        },
{
    let ghost lv = views(ls@);
    let mut d: i32 = 0;
    let mut idx: usize = 0;
    while idx < ls.len()
        invariant
            idx <= ls.len(),
            lv == views(ls@),
            depths_fit(lv),
            d == depth(lv, idx as int),
            section_start(lv, label@, 0) == section_start(lv, label@, idx as int),
        decreases ls.len() - idx,
    {
        let line = &ls[idx];
        assert(lv[idx as int] == line@);
        let t = trim_chars(line);
        assert(lv[idx as int].len() <= i32::MAX);
        assert(i32::MIN <= depth(lv, idx + 1) <= i32::MAX);
        if d == 0 && crate::text::chars_eq(&t, label) {
            let ind = indent_chars(line);
            d = d + brace_delta_chars(line);
            let mut end = idx;
            let mut j = idx + 1;
            let mut found = false;
            while j < ls.len() && !found
                invariant
                    idx < j <= ls.len(),
                    lv == views(ls@),
                    depths_fit(lv),
                    !found ==> end == idx,
                    !found ==> d == depth(lv, j as int),
                    !found ==> section_end(lv, idx as int, idx + 1) == section_end(lv, idx as int, j as int),
                    found ==> end == section_end(lv, idx as int, idx + 1),
                decreases ls.len() - j + (if found { 0int } else { 1int }),
            {
                assert(lv[j as int] == ls@[j as int]@);
                assert(lv[j as int].len() <= i32::MAX);
                assert(i32::MIN <= depth(lv, j + 1) <= i32::MAX);
                d = d + brace_delta_chars(&ls[j]);
                if d == 0 {
                    end = j;
                    found = true;
                } else {
                    j += 1;
                }
            }
            return Some((idx, end, ind));
        }
        d = d + brace_delta_chars(line);
        idx += 1;
    }
    None
}

/// The first line, closing line and indent of the top-level section `section_label`.
pub fn find_top_level_section_range(lines: &Vec<String>, section_label: &str) -> (r: Option<(usize, usize, String)>)
    requires
        depths_fit(string_views(lines@)),
    ensures
        match r {
            Some((s, e, ind)) => section_range(string_views(lines@), section_label@) == Some(
                (s as int, e as int, ind@),
            ),
            None => section_range(string_views(lines@), section_label@) == None::<
                (int, int, Seq<char>),
            >,
        },
{
    let ls = strings_to_chars(lines);
    let label = str_chars(section_label);
    match section_range_chars(&ls, &label) {
        Some((s, e, ind)) => Some((s, e, chars_to_string(&ind))),
        None => None,
    }
}

// ───────────────────────────── section upsert ─────────────────────────────

pub open spec fn pair_views(v: Seq<(String, String)>) -> Seq<(Seq<char>, Seq<char>)> {
    v.map_values(|p: (String, String)| (p.0@, p.1@))
}

/// A line `key = value` with the given prefix.
pub open spec fn assignment(prefix: Seq<char>, kv: (Seq<char>, Seq<char>)) -> Seq<char> {
    prefix + kv.0 + " = "@ + kv.1
}

/// The line assigns one of `keys`: its text up to the first `=`, trimmed, is one of them.
pub open spec fn assigns_key(line: Seq<char>, keys: Seq<Seq<char>>) -> bool {
    let t = trim(line);
    has_char(t, '=') && keys.contains(trim(split(t, '=')[0]))
}

/// The lines that assign none of `keys`, in order.
pub open spec fn kept_lines(ls: Seq<Seq<char>>, keys: Seq<Seq<char>>) -> Seq<Seq<char>>
    decreases ls.len(),
{
    if ls.len() == 0 {
        seq![]
    } else {
        let p = kept_lines(ls.drop_last(), keys);
        if assigns_key(ls.last(), keys) {
            p
        } else {
            p.push(ls.last())
        }
    }
}

pub open spec fn value_keys(values: Seq<(Seq<char>, Seq<char>)>) -> Seq<Seq<char>> {
    values.map_values(|kv: (Seq<char>, Seq<char>)| kv.0)
}

/// The configuration with the `section` section holding `values`: an existing
/// top-level section gets the values first and keeps its other lines (the lines that
/// assign one of the keys are dropped); otherwise a new section is appended after an
/// empty line.
pub open spec fn upserted(body: Seq<char>, section: Seq<char>, values: Seq<(Seq<char>, Seq<char>)>) -> Seq<char> {
    let label = section + " {"@;
    let ls = lines(body);
    match section_range(ls, label) {
        Some((s, e, ind)) => join(
            ls.take(s) + (seq![ind + label] + values.map_values(
                |kv: (Seq<char>, Seq<char>)| assignment(ind + "  "@, kv),
            ) + kept_lines(ls.subrange(s + 1, e), value_keys(values)) + seq![ind + "}"@])
                + ls.skip(e + 1),
            "\n"@,
        ),
        None => join(
            ls + (if ls.len() > 0 {
                seq![seq![]]
            } else {
                seq![]
            }) + seq![label] + values.map_values(
                |kv: (Seq<char>, Seq<char>)| assignment("  "@, kv),
            ) + seq!["}"@],
            "\n"@,
        ),
    }
}

/// The upsert can be done: brace counts fit, and a found section is closed.
pub open spec fn upsert_ok(body: Seq<char>, section: Seq<char>) -> bool {
    let ls = lines(body);
    &&& depths_fit(ls)
    &&& match section_range(ls, section + " {"@) {
        Some((s, e, ind)) => s < e,
        None => true,
    }
}

fn assigns_key_exec(line: &Vec<char>, keys: &Vec<Vec<char>>) -> (b: bool)
    ensures
        b == assigns_key(line@, views(keys@)),
{
    let t = trim_chars(line);
    if !contains_char(&t, '=') {
        return false;
    }
    let parts = split_chars(&t, '=');
    proof {
        lemma_split_acc_nonempty(t@, '=', seq![]);
    }
    assert(views(parts@)[0] == parts@[0]@);
    let k = trim_chars(&parts[0]);
    crate::text::vec_contains_chars(keys, &k)
}

fn assignment_chars(prefix: &Vec<char>, k: &Vec<char>, v: &Vec<char>) -> (r: Vec<char>)
    ensures
        r@ == assignment(prefix@, (k@, v@)),
{
    let mut r = clone_chars(prefix);
    append_chars(&mut r, k);
    append_str(&mut r, " = ");
    append_chars(&mut r, v);
    r
}

fn pairs_to_chars(values: &Vec<(String, String)>) -> (r: Vec<(Vec<char>, Vec<char>)>)
    ensures
        r@.map_values(|p: (Vec<char>, Vec<char>)| (p.0@, p.1@)) == pair_views(values@),
{
    let mut r: Vec<(Vec<char>, Vec<char>)> = Vec::new();
    let mut i: usize = 0;
    while i < values.len()
        invariant
            i <= values.len(),
            r@.map_values(|p: (Vec<char>, Vec<char>)| (p.0@, p.1@)) == pair_views(values@).take(i as int),
        decreases values.len() - i,
    {
        let k = str_chars(values[i].0.as_str());
        let v = str_chars(values[i].1.as_str());
        let ghost pk = (k@, v@);
        assert(pair_views(values@)[i as int] == pk);
        let ghost o = r@;
        r.push((k, v));
        assert(r@.map_values(|p: (Vec<char>, Vec<char>)| (p.0@, p.1@)) =~= o.map_values(|p: (Vec<char>, Vec<char>)| (p.0@, p.1@)).push(pk));
        assert(pair_views(values@).take(i + 1) =~= pair_views(values@).take(i as int).push(pk));
        i += 1;
    }
    assert(pair_views(values@).take(values.len() as int) =~= pair_views(values@));
    r
}

pub open spec fn pcv(v: Seq<(Vec<char>, Vec<char>)>) -> Seq<(Seq<char>, Seq<char>)> {
    v.map_values(|p: (Vec<char>, Vec<char>)| (p.0@, p.1@))
}

fn push_assignments(out: &mut Vec<Vec<char>>, prefix: &Vec<char>, values: &Vec<(Vec<char>, Vec<char>)>)
    ensures
        views(final(out)@) == views(old(out)@) + pcv(values@).map_values(
            |kv: (Seq<char>, Seq<char>)| assignment(prefix@, kv),
        ),
{
    let mut i: usize = 0;
    assert(views(out@) =~= views(old(out)@) + pcv(values@).take(0).map_values(
        |kv: (Seq<char>, Seq<char>)| assignment(prefix@, kv),
    ));
    while i < values.len()
        invariant
            i <= values.len(),
            views(out@) == views(old(out)@) + pcv(values@).take(i as int).map_values(
                |kv: (Seq<char>, Seq<char>)| assignment(prefix@, kv),
            ),
        decreases values.len() - i,
    {
        let a = assignment_chars(prefix, &values[i].0, &values[i].1);
        assert(pcv(values@)[i as int] == (values@[i as int].0@, values@[i as int].1@));
        let ghost o = out@;
        out.push(a);
        assert(views(out@) =~= views(o).push(a@));
        assert(pcv(values@).take(i + 1) =~= pcv(values@).take(i as int).push(pcv(values@)[i as int]));
        assert(views(out@) =~= views(old(out)@) + pcv(values@).take(i + 1).map_values(
            |kv: (Seq<char>, Seq<char>)| assignment(prefix@, kv),
        ));
        i += 1;
    }
    assert(pcv(values@).take(values.len() as int) =~= pcv(values@));
}

fn push_line(out: &mut Vec<Vec<char>>, l: Vec<char>)
    ensures
        views(final(out)@) == views(old(out)@).push(l@),
{
    out.push(l);
    assert(views(out@) =~= views(old(out)@).push(l@));
}

fn upsert_chars(body: &Vec<char>, section: &Vec<char>, values: &Vec<(Vec<char>, Vec<char>)>) -> (r: Vec<char>)
    requires
        upsert_ok(body@, section@),
    ensures
        r@ == upserted(body@, section@, pcv(values@)),
{
    let ls = lines_chars(body);
    let ghost lv = views(ls@);
    let mut label = clone_chars(section);
    append_str(&mut label, " {");
    let mut keys: Vec<Vec<char>> = Vec::new();
    let mut q: usize = 0;
    while q < values.len()
        invariant
            q <= values.len(),
            views(keys@) == value_keys(pcv(values@)).take(q as int),
        decreases values.len() - q,
    {
        let kq = clone_chars(&values[q].0);
        assert(value_keys(pcv(values@))[q as int] == kq@);
        let ghost o = keys@;
        keys.push(kq);
        assert(views(keys@) =~= views(o).push(kq@));
        assert(value_keys(pcv(values@)).take(q + 1) =~= value_keys(pcv(values@)).take(q as int).push(kq@));
        q += 1;
    }
    assert(value_keys(pcv(values@)).take(values.len() as int) =~= value_keys(pcv(values@)));
    let nl = str_chars("\n");
    proof {
        lemma_section_start_bounds(lv, label@, 0);
        let st = section_start(lv, label@, 0);
        if st >= 0 {
            lemma_section_end_bounds(lv, st, st + 1);
        }
    }
    match section_range_chars(&ls, &label) {
        Some((s, e, ind)) => {
            let mut out: Vec<Vec<char>> = Vec::new();
            let mut i: usize = 0;
            while i < s
                invariant
                    i <= s < e < ls.len(),
                    views(out@) == lv.take(i as int),
                    lv == views(ls@),
                decreases s - i,
            {
                push_line(&mut out, clone_chars(&ls[i]));
                assert(lv.take(i + 1) =~= lv.take(i as int).push(lv[i as int]));
                i += 1;
            }
            let mut head = clone_chars(&ind);
            append_chars(&mut head, &label);
            push_line(&mut out, head);
            let mut inner = clone_chars(&ind);
            append_str(&mut inner, "  ");
            push_assignments(&mut out, &inner, values);
            let ghost before_kept = views(out@);
            let mut k: usize = s + 1;
            assert(kept_lines(lv.subrange(s + 1, s + 1), views(keys@)) =~= Seq::<Seq<char>>::empty());
            assert(views(out@) =~= before_kept + kept_lines(lv.subrange(s + 1, s + 1), views(keys@)));
            while k < e
                invariant
                    s < k <= e < ls.len(),
                    lv == views(ls@),
                    views(out@) == before_kept + kept_lines(lv.subrange(s + 1, k as int), views(keys@)),
                decreases e - k,
            {
                assert(lv.subrange(s + 1, k + 1).drop_last() =~= lv.subrange(s + 1, k as int));
                assert(lv.subrange(s + 1, k + 1).last() == ls@[k as int]@);
                if !assigns_key_exec(&ls[k], &keys) {
                    let ghost o = views(out@);
                    push_line(&mut out, clone_chars(&ls[k]));
                    assert(views(out@) =~= before_kept + kept_lines(lv.subrange(s + 1, k + 1), views(keys@)));
                }
                k += 1;
            }
            let mut close = clone_chars(&ind);
            append_str(&mut close, "}");
            push_line(&mut out, close);
            let ghost before_tail = views(out@);
            let mut m: usize = e + 1;
            assert(views(out@) =~= before_tail + lv.subrange(e + 1, e + 1));
            while m < ls.len()
                invariant
                    e < m <= ls.len(),
                    lv == views(ls@),
                    views(out@) == before_tail + lv.subrange(e + 1, m as int),
                decreases ls.len() - m,
            {
                push_line(&mut out, clone_chars(&ls[m]));
                assert(lv.subrange(e + 1, m + 1) =~= lv.subrange(e + 1, m as int).push(lv[m as int]));
                m += 1;
            }
            assert(lv.subrange(e + 1, ls.len() as int) =~= lv.skip(e + 1));
            assert(views(out@) =~= lv.take(s as int) + (seq![ind@ + label@] + pcv(values@).map_values(
                |kv: (Seq<char>, Seq<char>)| assignment(ind@ + "  "@, kv),
            ) + kept_lines(lv.subrange(s + 1, e as int), value_keys(pcv(values@))) + seq![ind@ + "}"@])
                + lv.skip(e + 1));
            join_chars(&out, &nl)
        },
        None => {
            let mut out: Vec<Vec<char>> = Vec::new();
            let mut i: usize = 0;
            while i < ls.len()
                invariant
                    i <= ls.len(),
                    views(out@) == lv.take(i as int),
                    lv == views(ls@),
                decreases ls.len() - i,
            {
                push_line(&mut out, clone_chars(&ls[i]));
                assert(lv.take(i + 1) =~= lv.take(i as int).push(lv[i as int]));
                i += 1;
            }
            assert(lv.take(ls.len() as int) =~= lv);
            if ls.len() > 0 {
                push_line(&mut out, Vec::new());
            }
            push_line(&mut out, clone_chars(&label));
            let two = str_chars("  ");
            push_assignments(&mut out, &two, values);
            push_line(&mut out, str_chars("}"));
            assert(views(out@) =~= lv + (if lv.len() > 0 {
                seq![Seq::<char>::empty()]
            } else {
                Seq::<Seq<char>>::empty()
            }) + seq![label@] + pcv(values@).map_values(
                |kv: (Seq<char>, Seq<char>)| assignment("  "@, kv),
            ) + seq!["}"@]);
            join_chars(&out, &nl)
        },
    }
}

/// The configuration with the section `section` holding `values` (see `upserted`).
pub fn upsert_connection_section_values(config_body: &str, section: &str, values: &Vec<(String, String)>) -> (r: String)
    requires
        upsert_ok(config_body@, section@),
    ensures
        r@ == upserted(config_body@, section@, pair_views(values@)),
{
    let b = str_chars(config_body);
    let s = str_chars(section);
    let v = pairs_to_chars(values);
    let r = upsert_chars(&b, &s, &v);
    chars_to_string(&r)
}


// ───────────────────────────── certificate attachment ─────────────────────────────

pub type KeyValues = Seq<(Seq<char>, Seq<char>)>;

/// What attaching a certificate writes: the values of the `local` section and those
/// of the `remote` section, or the reason the request is refused.
pub open spec fn attach_plan(p: ConnectionCertificateAttachRequest) -> Result<(KeyValues, KeyValues), Seq<char>> {
    match safe_name(p.certificate_name@) {
        None => Err("certificate_name inválido"@),
        Some(cert) => {
            let base: KeyValues = seq![
                ("auth"@, "pubkey"@),
                ("certs"@, "x509/bifrost-user-"@ + cert + ".crt"@),
            ];
            let id_ok = match p.local_id {
                Some(id) => trim(id@).len() > 0,
                None => true,
            };
            if !id_ok {
                Err("local_id no puede ser vacío"@)
            } else {
                let local = match p.local_id {
                    Some(id) => base.push(("id"@, trim(id@))),
                    None => base,
                };
                let auth = match p.set_remote_auth_pubkey {
                    Some(b) => b,
                    None => true,
                };
                let remote: KeyValues = if auth {
                    seq![("auth"@, "pubkey"@)]
                } else {
                    seq![]
                };
                match p.remote_ca_name {
                    None => Ok((local, remote)),
                    Some(ca) => match safe_name(ca@) {
                        None => Err("remote_ca_name inválido"@),
                        Some(c) => Ok((local, remote.push(("cacerts"@, "x509ca/bifrost-ca-"@ + c + ".crt"@)))),
                    },
                }
            }
        },
    }
}

/// The configuration body once the certificate is attached (see `attach_plan`): the
/// `local` section upserted, then the `remote` one when it has values.
pub open spec fn attached(body: Seq<char>, p: ConnectionCertificateAttachRequest) -> Result<Seq<char>, Seq<char>> {
    match attach_plan(p) {
        Err(e) => Err(e),
        Ok((local, remote)) => {
            let out = upserted(body, "local"@, local);
            if remote.len() == 0 {
                Ok(out)
            } else {
                Ok(upserted(out, "remote"@, remote))
            }
        },
    }
}

/// The sections that attaching touches can be rewritten (see `upsert_ok`).
pub open spec fn attach_ok(body: Seq<char>, p: ConnectionCertificateAttachRequest) -> bool {
    match attach_plan(p) {
        Err(_) => true,
        Ok((local, remote)) => upsert_ok(body, "local"@) && (remote.len() > 0 ==> upsert_ok(
            upserted(body, "local"@, local),
            "remote"@,
        )),
    }
}

fn file_ref(prefix: &str, name: &String) -> (r: String)
    ensures
        r@ == prefix@ + name@ + ".crt"@,
{
    let mut v = str_chars(prefix);
    append_str(&mut v, name.as_str());
    append_str(&mut v, ".crt");
    chars_to_string(&v)
}

fn push_pair(v: &mut Vec<(String, String)>, k: &str, val: String)
    ensures
        pair_views(final(v)@) == pair_views(old(v)@).push((k@, val@)),
{
    let ghost o = v@;
    v.push((owned(k), val));
    assert(pair_views(v@) =~= pair_views(o).push((k@, val@)));
}

fn attach_plan_exec(p: &ConnectionCertificateAttachRequest) -> (r: Result<(Vec<(String, String)>, Vec<(String, String)>), String>)
    ensures
        match (r, attach_plan(*p)) {
            (Ok((l, m)), Ok((sl, sm))) => pair_views(l@) == sl && pair_views(m@) == sm,
            (Err(e), Err(se)) => e@ == se,
            _ => false,
        },
{
    let cert = match sanitize_certificate_name(p.certificate_name.as_str()) {
        Some(c) => c,
        None => return Err(owned("certificate_name inválido")),
    };
    let mut local: Vec<(String, String)> = Vec::new();
    push_pair(&mut local, "auth", owned("pubkey"));
    push_pair(&mut local, "certs", file_ref("x509/bifrost-user-", &cert));
    match &p.local_id {
        Some(id) => {
            let t = trim_str(id.as_str());
            if t.len() == 0 {
                return Err(owned("local_id no puede ser vacío"));
            }
            push_pair(&mut local, "id", chars_to_string(&t));
        },
        None => {},
    }
    let auth = match p.set_remote_auth_pubkey {
        Some(b) => b,
        None => true,
    };
    let mut remote: Vec<(String, String)> = Vec::new();
    if auth {
        push_pair(&mut remote, "auth", owned("pubkey"));
    }
    match &p.remote_ca_name {
        Some(ca) => match sanitize_certificate_name(ca.as_str()) {
            Some(c) => {
                push_pair(&mut remote, "cacerts", file_ref("x509ca/bifrost-ca-", &c));
            },
            None => return Err(owned("remote_ca_name inválido")),
        },
        None => {},
    }
    Ok((local, remote))
}

/// Points the connection's `local` section at the user certificate (public-key
/// authentication, the certificate file and, if given, the trimmed local id) and its
/// `remote` section at the CA certificate and public-key authentication, as asked.
pub fn apply_certificate_to_connection_config(
    config_body: &str,
    payload: &ConnectionCertificateAttachRequest,
) -> (r: Result<String, String>)
    requires
        attach_ok(config_body@, *payload),
    ensures
        res_view(r) == attached(config_body@, *payload),
{
    match attach_plan_exec(payload) {
        Err(e) => Err(e),
        Ok((local, remote)) => {
            let out = upsert_connection_section_values(config_body, "local", &local);
            if remote.len() == 0 {
                Ok(out)
            } else {
                Ok(upsert_connection_section_values(out.as_str(), "remote", &remote))
            }
        },
    }
}


// ───────────────────────────── connection bodies from JSON ─────────────────────────────

/// `a` followed by the lines of `r`, or the error of `r`.
pub open spec fn prepend(a: Seq<Seq<char>>, r: Result<Seq<Seq<char>>, Seq<char>>) -> Result<Seq<Seq<char>>, Seq<char>> {
    match r {
        Ok(b) => Ok(a + b),
        Err(e) => Err(e),
    }
}

proof fn lemma_prepend_assoc(o: Seq<Seq<char>>, a: Seq<Seq<char>>, r: Result<Seq<Seq<char>>, Seq<char>>)
    ensures
        prepend(o, prepend(a, r)) == prepend(o + a, r),
{
    if let Ok(b) = r {
        assert(o + (a + b) =~= (o + a) + b);
    }
}

/// The texts of the items of a list, when all are strings, numbers or booleans.
pub open spec fn scalar_texts(items: Seq<JsonValue>) -> Option<Seq<Seq<char>>>
    decreases items.len(),
{
    if items.len() == 0 {
        Some(seq![])
    } else {
        match (scalar_texts(items.drop_last()), scalar_text(items.last())) {
            (Some(a), Some(t)) => Some(a.push(t)),
            _ => None,
        }
    }
}

/// The lines of one entry `key: v` at the given indentation; `inner` is what the
/// entries of `v` render to when `v` is an object.
pub open spec fn entry_lines(
    prefix: Seq<char>,
    key: Seq<char>,
    v: JsonValue,
    inner: Result<Seq<Seq<char>>, Seq<char>>,
) -> Result<Seq<Seq<char>>, Seq<char>> {
    if trim(key).len() == 0 {
        Err("config contiene una clave vacía"@)
    } else {
        match v {
            JsonValue::Object(_) => match inner {
                Err(e) => Err(e),
                Ok(ls) => Ok(seq![prefix + key + " {"@] + ls + seq![prefix + "}"@]),
            },
            JsonValue::Array(items) => if items@.len() == 0 {
                Err("config."@ + key + " no puede ser una lista vacía"@)
            } else {
                match scalar_texts(items@) {
                    None => Err("config."@ + key + " solo permite strings, numeros o booleanos en listas"@),
                    Some(ts) => Ok(seq![prefix + key + " = "@ + join(ts, ", "@)]),
                }
            },
            JsonValue::String(t) => Ok(seq![prefix + key + " = "@ + t@]),
            JsonValue::Number(n) => Ok(seq![prefix + key + " = "@ + n@]),
            JsonValue::Bool(b) => Ok(seq![prefix + key + " = "@ + bool_text(b)]),
            JsonValue::Null => Err("config."@ + key + " no puede ser null"@),
        }
    }
}

/// The swanctl lines of the entries of an object, each line starting with `prefix`:
/// `key {`, the nested entries two spaces deeper and `}` for an object; `key = a, b`
/// for a list of scalars; `key = value` for a scalar. The first entry that cannot be
/// written stops it with its reason.
pub open spec fn render_entries(entries: Seq<(String, JsonValue)>, prefix: Seq<char>) -> Result<Seq<Seq<char>>, Seq<char>>
    decreases entries,
{
    if entries.len() == 0 {
        Ok(seq![])
    } else {
        let inner = match entries[0].1 {
            JsonValue::Object(obj) => render_entries(obj@, prefix + "  "@),
            _ => Ok(seq![]),
        };
        match entry_lines(prefix, entries[0].0@, entries[0].1, inner) {
            Err(e) => Err(e),
            Ok(a) => prepend(a, render_entries(entries.drop_first(), prefix)),
        }
    }
}

/// The body of a connection written from its JSON configuration.
pub open spec fn body_from_json(config: JsonValue) -> Result<Seq<char>, Seq<char>> {
    match config {
        JsonValue::Object(entries) => if entries@.len() == 0 {
            Ok(seq![])
        } else {
            match render_entries(entries@, seq![]) {
                Ok(ls) => Ok(join(ls, "\n"@)),
                Err(e) => Err(e),
            }
        },
        _ => Err("config debe ser un objeto JSON"@),
    }
}

fn bool_chars(b: bool) -> (r: Vec<char>)
    ensures
        r@ == bool_text(b),
{
    if b {
        str_chars("true")
    } else {
        str_chars("false")
    }
}

fn scalar_chars(v: &JsonValue) -> (r: Option<Vec<char>>)
    ensures
        match r {
            Some(t) => scalar_text(*v) == Some(t@),
            None => scalar_text(*v).is_none(),
        },
{
    match v {
        JsonValue::String(t) => Some(str_chars(t.as_str())),
        JsonValue::Number(n) => Some(str_chars(n.as_str())),
        JsonValue::Bool(b) => Some(bool_chars(*b)),
        _ => None,
    }
}

fn scalar_texts_exec(items: &Vec<JsonValue>) -> (r: Option<Vec<Vec<char>>>)
    ensures
        match r {
            Some(ts) => scalar_texts(items@) == Some(views(ts@)),
            None => scalar_texts(items@).is_none(),
        },
{
    let mut out: Vec<Vec<char>> = Vec::new();
    let mut i: usize = 0;
    while i < items.len()
        invariant
            i <= items.len(),
            scalar_texts(items@.take(i as int)) == Some(views(out@)),
        decreases items.len() - i,
    {
        let ghost t = items@.take(i + 1);
        assert(t.drop_last() =~= items@.take(i as int));
        assert(t.last() == items@[i as int]);
        match scalar_chars(&items[i]) {
            Some(c) => {
                let ghost o = out@;
                out.push(c);
                assert(views(out@) =~= views(o).push(c@));
            },
            None => {
                proof {
                    lemma_scalar_texts_none(items@, i as int);
                }
                return None;
            },
        }
        i += 1;
    }
    assert(items@.take(items.len() as int) =~= items@);
    Some(out)
}

proof fn lemma_scalar_texts_none(items: Seq<JsonValue>, i: int)
    requires
        0 <= i < items.len(),
        scalar_texts(items.take(i + 1)).is_none(),
    ensures
        scalar_texts(items).is_none(),
    decreases items.len(),
{
    if items.len() > i + 1 {
        assert(items.drop_last().take(i + 1) =~= items.take(i + 1));
        lemma_scalar_texts_none(items.drop_last(), i);
    } else {
        assert(items.take(i + 1) =~= items);
    }
}

fn render_entries_exec(entries: &Vec<(String, JsonValue)>, prefix: &Vec<char>) -> (r: Result<Vec<Vec<char>>, Vec<char>>)
    ensures
        match r {
            Ok(ls) => render_entries(entries@, prefix@) == Ok::<Seq<Seq<char>>, Seq<char>>(views(ls@)),
            Err(e) => render_entries(entries@, prefix@) == Err::<Seq<Seq<char>>, Seq<char>>(e@),
        },
    decreases entries@,
{
    let mut out: Vec<Vec<char>> = Vec::new();
    let mut i: usize = 0;
    assert(entries@.skip(0) =~= entries@);
    assert(views(out@) =~= Seq::<Seq<char>>::empty());
    while i < entries.len()
        invariant
            i <= entries.len(),
            render_entries(entries@, prefix@) == prepend(views(out@), render_entries(entries@.skip(i as int), prefix@)),
        decreases entries.len() - i,
    {
        let ghost rest = entries@.skip(i as int);
        assert(rest[0] == entries@[i as int]);
        assert(rest.drop_first() =~= entries@.skip(i + 1));
        let key = str_chars(entries[i].0.as_str());
        let t = trim_chars(&key);
        if t.len() == 0 {
            return Err(str_chars("config contiene una clave vacía"));
        }
        let ghost o = views(out@);
        let ghost mut a: Seq<Seq<char>> = seq![];
        match &entries[i].1 {
            JsonValue::Object(obj) => {
                let mut inner_prefix = clone_chars(prefix);
                append_str(&mut inner_prefix, "  ");
                proof {
                    assert(decreases_to!(entries@ => entries@[i as int]));
                }
                match render_entries_exec(obj, &inner_prefix) {
                    Err(e) => {
                        return Err(e);
                    },
                    Ok(inner) => {
                        let mut head = clone_chars(prefix);
                        append_chars(&mut head, &key);
                        append_str(&mut head, " {");
                        push_line(&mut out, head);
                        let mut k: usize = 0;
                        while k < inner.len()
                            invariant
                                k <= inner.len(),
                                views(out@) == o.push(prefix@ + key@ + " {"@) + views(inner@).take(k as int),
                            decreases inner.len() - k,
                        {
                            push_line(&mut out, clone_chars(&inner[k]));
                            assert(views(inner@).take(k + 1) =~= views(inner@).take(k as int).push(inner@[k as int]@));
                            k += 1;
                        }
                        assert(views(inner@).take(inner.len() as int) =~= views(inner@));
                        let mut close = clone_chars(prefix);
                        append_str(&mut close, "}");
                        push_line(&mut out, close);
                        proof {
                            a = seq![prefix@ + key@ + " {"@] + views(inner@) + seq![prefix@ + "}"@];
                        }
                        assert(views(out@) =~= o + a);
                    },
                }
            },
            JsonValue::Array(items) => {
                if items.len() == 0 {
                    let mut e = str_chars("config.");
                    append_chars(&mut e, &key);
                    append_str(&mut e, " no puede ser una lista vacía");
                    return Err(e);
                }
                match scalar_texts_exec(items) {
                    None => {
                        let mut e = str_chars("config.");
                        append_chars(&mut e, &key);
                        append_str(&mut e, " solo permite strings, numeros o booleanos en listas");
                        return Err(e);
                    },
                    Some(ts) => {
                        let mut l = clone_chars(prefix);
                        append_chars(&mut l, &key);
                        append_str(&mut l, " = ");
                        let sep = str_chars(", ");
                        let joined = join_chars(&ts, &sep);
                        append_chars(&mut l, &joined);
                        push_line(&mut out, l);
                        proof {
                            a = seq![prefix@ + key@ + " = "@ + join(views(ts@), ", "@)];
                        }
                        assert(views(out@) =~= o + a);
                    },
                }
            },
            JsonValue::Null => {
                let mut e = str_chars("config.");
                append_chars(&mut e, &key);
                append_str(&mut e, " no puede ser null");
                return Err(e);
            },
            _ => {
                let v = scalar_chars(&entries[i].1);
                assert(entries@[i as int].1 == entries[i as int].1);
                match v {
                    Some(tv) => {
                        let mut l = clone_chars(prefix);
                        append_chars(&mut l, &key);
                        append_str(&mut l, " = ");
                        append_chars(&mut l, &tv);
                        push_line(&mut out, l);
                        proof {
                            a = seq![prefix@ + key@ + " = "@ + tv@];
                        }
                        assert(views(out@) =~= o + a);
                    },
                    None => {
                        assert(false);
                    },
                }
            },
        }
        proof {
            let inner_spec = match rest[0].1 {
                JsonValue::Object(obj) => render_entries(obj@, prefix@ + "  "@),
                _ => Ok(seq![]),
            };
            assert(entry_lines(prefix@, rest[0].0@, rest[0].1, inner_spec) == Ok::<Seq<Seq<char>>, Seq<char>>(a));
            lemma_prepend_assoc(o, a, render_entries(rest.drop_first(), prefix@));
        }
        i += 1;
    }
    assert(entries@.skip(entries.len() as int) =~= Seq::<(String, JsonValue)>::empty());
    assert(views(out@) + Seq::<Seq<char>>::empty() =~= views(out@));
    Ok(out)
}

/// The connection body that a JSON configuration object stands for (see
/// `body_from_json`): its entries as swanctl lines joined by newlines.
pub fn render_connection_body_from_json(config: &JsonValue) -> (r: Result<String, String>)
    ensures
        res_view(r) == body_from_json(*config),
{
    match config {
        JsonValue::Object(entries) => {
            if entries.len() == 0 {
                return Ok(String::new());
            }
            let empty: Vec<char> = Vec::new();
            match render_entries_exec(entries, &empty) {
                Ok(ls) => {
                    let nl = str_chars("\n");
                    Ok(chars_to_string(&join_chars(&ls, &nl)))
                },
                Err(e) => Err(chars_to_string(&e)),
            }
        },
        _ => Err(owned("config debe ser un objeto JSON")),
    }
}


// ───────────────────────────── feasibility ─────────────────────────────

fn depths_fit_exec(ls: &Vec<Vec<char>>) -> (b: bool)
    ensures
        b == depths_fit(views(ls@)),
{
    let ghost lv = views(ls@);
    let mut d: i64 = 0;
    let mut i: usize = 0;
    while i < ls.len()
        invariant
            i <= ls.len(),
            lv == views(ls@),
            forall|k: int| 0 <= k < i ==> (#[trigger] lv[k]).len() <= i32::MAX,
            forall|j: int| 0 <= j <= i ==> i32::MIN <= #[trigger] depth(lv, j) <= i32::MAX,
            d == depth(lv, i as int),
        decreases ls.len() - i,
    {
        assert(lv[i as int] == ls@[i as int]@);
        if ls[i].len() > 0x7fff_ffff {
            return false;
        }
        let open = count_char_exec(&ls[i], '{');
        let close = count_char_exec(&ls[i], '}');
        proof {
            lemma_count_char_le(ls@[i as int]@, '{');
            lemma_count_char_le(ls@[i as int]@, '}');
        }
        let nd: i64 = d + (open as i64) - (close as i64);
        assert(nd == depth(lv, i + 1));
        if nd < -0x8000_0000 || nd > 0x7fff_ffff {
            return false;
        }
        d = nd;
        i += 1;
    }
    true
}

/// Whether the section `section` of `body` can be upserted (see `upsert_ok`).
pub fn upsert_possible(body: &str, section: &str) -> (b: bool)
    ensures
        b == upsert_ok(body@, section@),
{
    let ls = lines_str(body);
    if !depths_fit_exec(&ls) {
        return false;
    }
    let mut label = str_chars(section);
    append_str(&mut label, " {");
    match section_range_chars(&ls, &label) {
        Some((s, e, _)) => s < e,
        None => true,
    }
}

/// Whether a certificate can be attached to the body (see `attach_ok`).
pub fn attach_possible(config_body: &str, payload: &ConnectionCertificateAttachRequest) -> (b: bool)
    ensures
        b == attach_ok(config_body@, *payload),
{
    match attach_plan_exec(payload) {
        Err(_) => true,
        Ok((local, remote)) => {
            if !upsert_possible(config_body, "local") {
                return false;
            }
            if remote.len() == 0 {
                return true;
            }
            let out = upsert_connection_section_values(config_body, "local", &local);
            upsert_possible(out.as_str(), "remote")
        },
    }
}

/// The body of a connection file as shown and edited: the body of its section, or
/// the whole file when that cannot be found.
pub open spec fn editable_body(name: Seq<char>, content: Seq<char>) -> Seq<char> {
    match connection_body(name, content) {
        Some(b) => b,
        None => content,
    }
}

/// The new text of the file of connection `conn_name` once the certificate is
/// attached to its body (see `attached`), or why the request is refused.
pub fn attach_certificate_file(
    conn_name: &str,
    content: &str,
    payload: &ConnectionCertificateAttachRequest,
) -> (r: Result<String, String>)
    requires
        attach_ok(editable_body(conn_name@, content@), *payload),
    ensures
        res_view(r) == match attached(editable_body(conn_name@, content@), *payload) {
            Ok(u) => Ok(connection_conf(conn_name@, u)),
            Err(e) => Err(e),
        },
{
    let body = match extract_connection_body(conn_name, content) {
        Some(b) => b,
        None => owned(content),
    };
    match apply_certificate_to_connection_config(body.as_str(), payload) {
        Ok(u) => Ok(build_connection_conf(conn_name, u.as_str())),
        Err(e) => Err(e),
    }
}

} // verus!
