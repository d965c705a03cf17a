//! The command line of `bifrostctl`: what each invocation asks for, or why it is
//! refused.
use vstd::prelude::*;

use crate::models::owned;
use crate::text::{
    append_chars, append_str, chars_eq_str, decimal_signed, i64_decimal, chars_to_string, join, join_chars, lower, lower_chars, parse_i64,
    parse_i64_chars, str_chars, trim, trim_str, views,
};

verus! {

/// What an invocation of `bifrostctl` asks for.
#[derive(Debug)]
pub enum CtlCommand {
    /// Print the version.
    Version,
    /// Print the usage.
    Usage,
    /// Print the message, then the usage.
    Unknown { message: String },
    /// Print the message as an error.
    Invalid { message: String },
    ApiKeyList,
    ApiKeyCreate { user_name: String },
    ApiKeySetActive { api_key: String, active: bool },
    ApiKeyDelete { api_key: String },
    DocsUserList,
    DocsUserCreate { username: String, password: String },
    DocsUserPasswd { username: String, password: String },
    DocsUserSetActive { username: String, active: bool },
    DocsUserDelete { username: String },
    DocsUserSetManage { username: String, manage: bool },
    ResponseList { lang: Option<String> },
    ResponseAdd { code: i64, kind: String, message_en: String },
    ResponseSetEn { code: i64, message_en: String },
    ResponseSetType { code: i64, kind: String },
    ResponseSetLang { code: i64, lang: String, message: String },
    ResponseDelLang { code: i64, lang: String },
    ResponseDelete { code: i64 },
}

/// A command as values.
pub enum CtlModel {
    Version,
    Usage,
    Unknown(Seq<char>),
    Invalid(Seq<char>),
    ApiKeyList,
    ApiKeyCreate(Seq<char>),
    ApiKeySetActive(Seq<char>, bool),
    ApiKeyDelete(Seq<char>),
    DocsUserList,
    DocsUserCreate(Seq<char>, Seq<char>),
    DocsUserPasswd(Seq<char>, Seq<char>),
    DocsUserSetActive(Seq<char>, bool),
    DocsUserDelete(Seq<char>),
    DocsUserSetManage(Seq<char>, bool),
    ResponseList(Option<Seq<char>>),
    ResponseAdd(i64, Seq<char>, Seq<char>),
    ResponseSetEn(i64, Seq<char>),
    ResponseSetType(i64, Seq<char>),
    ResponseSetLang(i64, Seq<char>, Seq<char>),
    ResponseDelLang(i64, Seq<char>),
    ResponseDelete(i64),
}

impl View for CtlCommand {
    type V = CtlModel;

    open spec fn view(&self) -> CtlModel {
        match self {
            CtlCommand::Version => CtlModel::Version,
            CtlCommand::Usage => CtlModel::Usage,
            CtlCommand::Unknown { message } => CtlModel::Unknown(message@),
            CtlCommand::Invalid { message } => CtlModel::Invalid(message@),
            CtlCommand::ApiKeyList => CtlModel::ApiKeyList,
            CtlCommand::ApiKeyCreate { user_name } => CtlModel::ApiKeyCreate(user_name@),
            CtlCommand::ApiKeySetActive { api_key, active } => CtlModel::ApiKeySetActive(api_key@, *active),
            CtlCommand::ApiKeyDelete { api_key } => CtlModel::ApiKeyDelete(api_key@),
            CtlCommand::DocsUserList => CtlModel::DocsUserList,
            CtlCommand::DocsUserCreate { username, password } => CtlModel::DocsUserCreate(username@, password@),
            CtlCommand::DocsUserPasswd { username, password } => CtlModel::DocsUserPasswd(username@, password@),
            CtlCommand::DocsUserSetActive { username, active } => CtlModel::DocsUserSetActive(username@, *active),
            CtlCommand::DocsUserDelete { username } => CtlModel::DocsUserDelete(username@),
            CtlCommand::DocsUserSetManage { username, manage } => CtlModel::DocsUserSetManage(username@, *manage),
            CtlCommand::ResponseList { lang } => CtlModel::ResponseList(
                match lang {
                    Some(l) => Some(l@),
                    None => None,
                },
            ),
            CtlCommand::ResponseAdd { code, kind, message_en } => CtlModel::ResponseAdd(*code, kind@, message_en@),
            CtlCommand::ResponseSetEn { code, message_en } => CtlModel::ResponseSetEn(*code, message_en@),
            CtlCommand::ResponseSetType { code, kind } => CtlModel::ResponseSetType(*code, kind@),
            CtlCommand::ResponseSetLang { code, lang, message } => CtlModel::ResponseSetLang(*code, lang@, message@),
            CtlCommand::ResponseDelLang { code, lang } => CtlModel::ResponseDelLang(*code, lang@),
            CtlCommand::ResponseDelete { code } => CtlModel::ResponseDelete(*code),
        }
    }
}

pub open spec fn arg_views(args: Seq<String>) -> Seq<Seq<char>> {
    args.map_values(|s: String| s@)
}

/// The words from `start` on, joined by spaces; empty when there are none.
pub open spec fn joined_from(args: Seq<Seq<char>>, start: int) -> Seq<char> {
    if args.len() <= start {
        seq![]
    } else {
        join(args.skip(start), " "@)
    }
}

/// A code given on the command line: trimmed, then read as an `i64`.
pub open spec fn code_of(a: Seq<char>) -> Option<i64> {
    parse_i64(trim(a))
}

pub open spec fn bad_code(a: Seq<char>) -> CtlModel {
    CtlModel::Invalid("code inválido: '"@ + a + "'"@)
}

pub open spec fn unknown_sub(group: Seq<char>, sub: Seq<char>) -> CtlModel {
    CtlModel::Unknown("Subcomando "@ + group + " desconocido '"@ + sub + "'."@)
}

pub open spec fn apikey_command(args: Seq<Seq<char>>) -> CtlModel {
    if args.len() < 3 {
        CtlModel::Usage
    } else {
        let sub = args[2];
        if sub == "list"@ {
            CtlModel::ApiKeyList
        } else if sub == "create"@ {
            if args.len() < 4 {
                CtlModel::Invalid("Falta user_name. Uso: bifrostctl apikey create <user_name>"@)
            } else if trim(args[3]).len() == 0 {
                CtlModel::Invalid("user_name no puede estar vacio"@)
            } else {
                CtlModel::ApiKeyCreate(trim(args[3]))
            }
        } else if sub == "enable"@ || sub == "disable"@ || sub == "delete"@ {
            if args.len() < 4 {
                CtlModel::Invalid("Falta api_key. Uso: bifrostctl apikey "@ + sub + " <api_key>"@)
            } else if sub == "delete"@ {
                CtlModel::ApiKeyDelete(trim(args[3]))
            } else {
                CtlModel::ApiKeySetActive(trim(args[3]), sub == "enable"@)
            }
        } else {
            unknown_sub("apikey"@, sub)
        }
    }
}

pub open spec fn is_docs_user_single(sub: Seq<char>) -> bool {
    sub == "enable"@ || sub == "disable"@ || sub == "delete"@ || sub == "grant-responses-manage"@ || sub
        == "revoke-responses-manage"@
}

pub open spec fn docs_user_command(args: Seq<Seq<char>>) -> CtlModel {
    if args.len() < 3 {
        CtlModel::Usage
    } else {
        let sub = args[2];
        if sub == "list"@ {
            CtlModel::DocsUserList
        } else if sub == "create"@ || sub == "passwd"@ {
            let create = sub == "create"@;
            if args.len() < 5 {
                CtlModel::Invalid(
                    if create {
                        "Uso: bifrostctl docs-user create <username> <password>"@
                    } else {
                        "Uso: bifrostctl docs-user passwd <username> <new_password>"@
                    },
                )
            } else if trim(args[3]).len() == 0 || trim(args[4]).len() == 0 {
                CtlModel::Invalid(
                    if create {
                        "username y password no pueden estar vacíos"@
                    } else {
                        "username y new_password no pueden estar vacíos"@
                    },
                )
            } else if create {
                CtlModel::DocsUserCreate(trim(args[3]), trim(args[4]))
            } else {
                CtlModel::DocsUserPasswd(trim(args[3]), trim(args[4]))
            }
        } else if is_docs_user_single(sub) {
            if args.len() < 4 {
                CtlModel::Invalid("Uso: bifrostctl docs-user "@ + sub + " <username>"@)
            } else {
                let u = trim(args[3]);
                if sub == "enable"@ {
                    CtlModel::DocsUserSetActive(u, true)
                } else if sub == "disable"@ {
                    CtlModel::DocsUserSetActive(u, false)
                } else if sub == "delete"@ {
                    CtlModel::DocsUserDelete(u)
                } else {
                    CtlModel::DocsUserSetManage(u, sub == "grant-responses-manage"@)
                }
            }
        } else if sub == "help"@ || sub == "--help"@ || sub == "-h"@ {
            CtlModel::Usage
        } else {
            unknown_sub("docs-user"@, sub)
        }
    }
}

/// The language of a translation: trimmed and in ASCII lowercase.
pub open spec fn lang_arg(a: Seq<char>) -> Seq<char> {
    lower(trim(a))
}

pub open spec fn response_command(args: Seq<Seq<char>>) -> CtlModel {
    if args.len() < 3 {
        CtlModel::Usage
    } else {
        let sub = args[2];
        if sub == "list"@ {
            CtlModel::ResponseList(
                if args.len() > 3 {
                    Some(args[3])
                } else {
                    None
                },
            )
        } else if sub == "add"@ {
            if args.len() < 6 {
                CtlModel::Invalid("Uso: bifrostctl response add <code> <type> <message_en>"@)
            } else {
                match code_of(args[3]) {
                    None => bad_code(args[3]),
                    Some(code) => {
                        let msg = joined_from(args, 5);
                        if trim(args[4]).len() == 0 || trim(msg).len() == 0 {
                            CtlModel::Invalid("type y message_en son requeridos"@)
                        } else {
                            CtlModel::ResponseAdd(code, trim(args[4]), trim(msg))
                        }
                    },
                }
            }
        } else if sub == "set-en"@ {
            if args.len() < 5 {
                CtlModel::Invalid("Uso: bifrostctl response set-en <code> <message_en>"@)
            } else {
                match code_of(args[3]) {
                    None => bad_code(args[3]),
                    Some(code) => {
                        let msg = joined_from(args, 4);
                        if trim(msg).len() == 0 {
                            CtlModel::Invalid("message_en no puede estar vacío"@)
                        } else {
                            CtlModel::ResponseSetEn(code, trim(msg))
                        }
                    },
                }
            }
        } else if sub == "set-type"@ {
            if args.len() < 5 {
                CtlModel::Invalid("Uso: bifrostctl response set-type <code> <type>"@)
            } else {
                match code_of(args[3]) {
                    None => bad_code(args[3]),
                    Some(code) => if trim(args[4]).len() == 0 {
                        CtlModel::Invalid("type no puede estar vacío"@)
                    } else {
                        CtlModel::ResponseSetType(code, trim(args[4]))
                    },
                }
            }
        } else if sub == "set-lang"@ {
            if args.len() < 6 {
                CtlModel::Invalid("Uso: bifrostctl response set-lang <code> <lang> <message>"@)
            } else {
                match code_of(args[3]) {
                    None => bad_code(args[3]),
                    Some(code) => {
                        let lang = lang_arg(args[4]);
                        let msg = joined_from(args, 5);
                        if lang.len() == 0 || lang == "en"@ {
                            CtlModel::Invalid(
                                "lang debe ser distinto de 'en' para traducciones (usa set-en para inglés)"@,
                            )
                        } else if trim(msg).len() == 0 {
                            CtlModel::Invalid("message no puede estar vacío"@)
                        } else {
                            CtlModel::ResponseSetLang(code, lang, trim(msg))
                        }
                    },
                }
            }
        } else if sub == "del-lang"@ {
            if args.len() < 5 {
                CtlModel::Invalid("Uso: bifrostctl response del-lang <code> <lang>"@)
            } else {
                match code_of(args[3]) {
                    None => bad_code(args[3]),
                    Some(code) => {
                        let lang = lang_arg(args[4]);
                        if lang.len() == 0 || lang == "en"@ {
                            CtlModel::Invalid("lang debe ser distinto de 'en'"@)
                        } else {
                            CtlModel::ResponseDelLang(code, lang)
                        }
                    },
                }
            }
        } else if sub == "delete"@ {
            if args.len() < 4 {
                CtlModel::Invalid("Uso: bifrostctl response delete <code>"@)
            } else {
                match code_of(args[3]) {
                    None => bad_code(args[3]),
                    Some(code) => CtlModel::ResponseDelete(code),
                }
            }
        } else if sub == "help"@ || sub == "--help"@ || sub == "-h"@ {
            CtlModel::Usage
        } else {
            unknown_sub("response"@, sub)
        }
    }
}

/// What the words of an invocation (the program's name first) ask for, once the
/// version flag has been ruled out.
pub open spec fn ctl_command(args: Seq<Seq<char>>) -> CtlModel {
    if args.len() < 2 {
        CtlModel::Usage
    } else {
        let group = args[1];
        if group == "apikey"@ {
            apikey_command(args)
        } else if group == "docs-user"@ {
            docs_user_command(args)
        } else if group == "response"@ {
            response_command(args)
        } else if group == "version"@ {
            CtlModel::Version
        } else if group == "help"@ || group == "--help"@ || group == "-h"@ {
            CtlModel::Usage
        } else {
            CtlModel::Unknown("Comando desconocido '"@ + group + "'."@)
        }
    }
}

/// Whether one of the words is `--version` or `-V`.
pub open spec fn asks_version(args: Seq<Seq<char>>) -> bool {
    exists|i: int| 0 <= i < args.len() && (args[i] == "--version"@ || args[i] == "-V"@)
}

pub fn wants_version(args: &Vec<String>) -> (b: bool)
    ensures
        b == asks_version(arg_views(args@)),
{
    let mut i: usize = 0;
    while i < args.len()
        invariant
            i <= args.len(),
            forall|j: int| 0 <= j < i ==> !(#[trigger] arg_views(args@)[j] == "--version"@ || arg_views(args@)[j] == "-V"@),
        decreases args.len() - i,
    {
        let a = str_chars(args[i].as_str());
        if chars_eq_str(&a, "--version") || chars_eq_str(&a, "-V") {
            assert(arg_views(args@)[i as int] == args@[i as int]@);
            return true;
        }
        i += 1;
    }
    false
}

/// A code given on the command line (see `code_of`).
pub fn parse_code(value: &str) -> (r: Option<i64>)
    ensures
        r == code_of(value@),
{
    parse_i64_chars(&trim_str(value))
}

/// The words from `start` on, joined by spaces (see `joined_from`).
pub fn join_args(args: &Vec<String>, start: usize) -> (r: String)
    ensures
        r@ == joined_from(arg_views(args@), start as int),
{
    if args.len() <= start {
        return String::new();
    }
    let mut pieces: Vec<Vec<char>> = Vec::new();
    let mut i: usize = start;
    while i < args.len()
        invariant
            start <= i <= args.len(),
            views(pieces@) == arg_views(args@).subrange(start as int, i as int),
        decreases args.len() - i,
    {
        let ghost o = views(pieces@);
        pieces.push(str_chars(args[i].as_str()));
        assert(views(pieces@) =~= o.push(args@[i as int]@));
        assert(arg_views(args@).subrange(start as int, i + 1) =~= arg_views(args@).subrange(start as int, i as int).push(
            args@[i as int]@,
        ));
        i += 1;
    }
    assert(arg_views(args@).subrange(start as int, args.len() as int) =~= arg_views(args@).skip(start as int));
    chars_to_string(&join_chars(&pieces, &str_chars(" ")))
}

fn arg_is(args: &Vec<String>, i: usize, lit: &str) -> (b: bool)
    requires
        i < args.len(),
    ensures
        b == (arg_views(args@)[i as int] == lit@),
{
    chars_eq_str(&str_chars(args[i].as_str()), lit)
}

fn trimmed_arg(args: &Vec<String>, i: usize) -> (r: String)
    requires
        i < args.len(),
    ensures
        r@ == trim(arg_views(args@)[i as int]),
{
    chars_to_string(&trim_str(args[i].as_str()))
}

fn invalid(m: &str) -> (r: CtlCommand)
    ensures
        r@ == CtlModel::Invalid(m@),
{
    CtlCommand::Invalid { message: owned(m) }
}

fn message3(a: &str, b: &String, c: &str) -> (r: String)
    ensures
        r@ == a@ + b@ + c@,
{
    let mut v = str_chars(a);
    append_str(&mut v, b.as_str());
    append_str(&mut v, c);
    chars_to_string(&v)
}

fn unknown_sub_exec(group: &str, sub: &String) -> (r: CtlCommand)
    ensures
        r@ == unknown_sub(group@, sub@),
{
    let mut v = str_chars("Subcomando ");
    append_str(&mut v, group);
    append_str(&mut v, " desconocido '");
    append_str(&mut v, sub.as_str());
    append_str(&mut v, "'.");
    CtlCommand::Unknown { message: chars_to_string(&v) }
}

fn apikey_exec(args: &Vec<String>) -> (r: CtlCommand)
    requires
        args.len() >= 2,
    ensures
        r@ == apikey_command(arg_views(args@)),
{
    if args.len() < 3 {
        return CtlCommand::Usage;
    }
    let ghost a = arg_views(args@);
    if arg_is(args, 2, "list") {
        CtlCommand::ApiKeyList
    } else if arg_is(args, 2, "create") {
        if args.len() < 4 {
            invalid("Falta user_name. Uso: bifrostctl apikey create <user_name>")
        } else {
            let u = trimmed_arg(args, 3);
            if u.as_str().is_empty() {
                invalid("user_name no puede estar vacio")
            } else {
                CtlCommand::ApiKeyCreate { user_name: u }
            }
        }
    } else if arg_is(args, 2, "enable") || arg_is(args, 2, "disable") || arg_is(args, 2, "delete") {
        if args.len() < 4 {
            CtlCommand::Invalid { message: message3("Falta api_key. Uso: bifrostctl apikey ", &args[2], " <api_key>") }
        } else if arg_is(args, 2, "delete") {
            CtlCommand::ApiKeyDelete { api_key: trimmed_arg(args, 3) }
        } else {
            CtlCommand::ApiKeySetActive { api_key: trimmed_arg(args, 3), active: arg_is(args, 2, "enable") }
        }
    } else {
        unknown_sub_exec("apikey", &args[2])
    }
}

fn docs_user_exec(args: &Vec<String>) -> (r: CtlCommand)
    requires
        args.len() >= 2,
    ensures
        r@ == docs_user_command(arg_views(args@)),
{
    if args.len() < 3 {
        return CtlCommand::Usage;
    }
    if arg_is(args, 2, "list") {
        CtlCommand::DocsUserList
    } else if arg_is(args, 2, "create") || arg_is(args, 2, "passwd") {
        let create = arg_is(args, 2, "create");
        if args.len() < 5 {
            if create {
                invalid("Uso: bifrostctl docs-user create <username> <password>")
            } else {
                invalid("Uso: bifrostctl docs-user passwd <username> <new_password>")
            }
        } else {
            let u = trimmed_arg(args, 3);
            let p = trimmed_arg(args, 4);
            if u.as_str().is_empty() || p.as_str().is_empty() {
                if create {
                    invalid("username y password no pueden estar vacíos")
                } else {
                    invalid("username y new_password no pueden estar vacíos")
                }
            } else if create {
                CtlCommand::DocsUserCreate { username: u, password: p }
            } else {
                CtlCommand::DocsUserPasswd { username: u, password: p }
            }
        }
    } else if arg_is(args, 2, "enable") || arg_is(args, 2, "disable") || arg_is(args, 2, "delete") || arg_is(
        args,
        2,
        "grant-responses-manage",
    ) || arg_is(args, 2, "revoke-responses-manage") {
        if args.len() < 4 {
            CtlCommand::Invalid { message: message3("Uso: bifrostctl docs-user ", &args[2], " <username>") }
        } else {
            let u = trimmed_arg(args, 3);
            if arg_is(args, 2, "enable") {
                CtlCommand::DocsUserSetActive { username: u, active: true }
            } else if arg_is(args, 2, "disable") {
                CtlCommand::DocsUserSetActive { username: u, active: false }
            } else if arg_is(args, 2, "delete") {
                CtlCommand::DocsUserDelete { username: u }
            } else {
                CtlCommand::DocsUserSetManage { username: u, manage: arg_is(args, 2, "grant-responses-manage") }
            }
        }
    } else if arg_is(args, 2, "help") || arg_is(args, 2, "--help") || arg_is(args, 2, "-h") {
        CtlCommand::Usage
    } else {
        unknown_sub_exec("docs-user", &args[2])
    }
}

fn bad_code_exec(args: &Vec<String>) -> (r: CtlCommand)
    requires
        args.len() > 3,
    ensures
        r@ == bad_code(arg_views(args@)[3]),
{
    CtlCommand::Invalid { message: message3("code inválido: '", &args[3], "'") }
}

fn lang_exec(args: &Vec<String>, i: usize) -> (r: String)
    requires
        i < args.len(),
    ensures
        r@ == lang_arg(arg_views(args@)[i as int]),
{
    chars_to_string(&lower_chars(&trim_str(args[i].as_str())))
}

fn response_exec(args: &Vec<String>) -> (r: CtlCommand)
    requires
        args.len() >= 2,
    ensures
        r@ == response_command(arg_views(args@)),
{
    if args.len() < 3 {
        return CtlCommand::Usage;
    }
    if arg_is(args, 2, "list") {
        let lang = if args.len() > 3 {
            Some(args[3].clone())
        } else {
            None
        };
        CtlCommand::ResponseList { lang }
    } else if arg_is(args, 2, "add") {
        if args.len() < 6 {
            return invalid("Uso: bifrostctl response add <code> <type> <message_en>");
        }
        match parse_code(args[3].as_str()) {
            None => bad_code_exec(args),
            Some(code) => {
                let kind = trimmed_arg(args, 4);
                let msg = chars_to_string(&trim_str(join_args(args, 5).as_str()));
                if kind.as_str().is_empty() || msg.as_str().is_empty() {
                    invalid("type y message_en son requeridos")
                } else {
                    CtlCommand::ResponseAdd { code, kind, message_en: msg }
                }
            },
        }
    } else if arg_is(args, 2, "set-en") {
        if args.len() < 5 {
            return invalid("Uso: bifrostctl response set-en <code> <message_en>");
        }
        match parse_code(args[3].as_str()) {
            None => bad_code_exec(args),
            Some(code) => {
                let msg = chars_to_string(&trim_str(join_args(args, 4).as_str()));
                if msg.as_str().is_empty() {
                    invalid("message_en no puede estar vacío")
                } else {
                    CtlCommand::ResponseSetEn { code, message_en: msg }
                }
            },
        }
    } else if arg_is(args, 2, "set-type") {
        if args.len() < 5 {
            return invalid("Uso: bifrostctl response set-type <code> <type>");
        }
        match parse_code(args[3].as_str()) {
            None => bad_code_exec(args),
            Some(code) => {
                let kind = trimmed_arg(args, 4);
                if kind.as_str().is_empty() {
                    invalid("type no puede estar vacío")
                } else {
                    CtlCommand::ResponseSetType { code, kind }
                }
            },
        }
    } else if arg_is(args, 2, "set-lang") {
        if args.len() < 6 {
            return invalid("Uso: bifrostctl response set-lang <code> <lang> <message>");
        }
        match parse_code(args[3].as_str()) {
            None => bad_code_exec(args),
            Some(code) => {
                let lang = lang_exec(args, 4);
                let msg = chars_to_string(&trim_str(join_args(args, 5).as_str()));
                if lang.as_str().is_empty() || chars_eq_str(&str_chars(lang.as_str()), "en") {
                    invalid("lang debe ser distinto de 'en' para traducciones (usa set-en para inglés)")
                } else if msg.as_str().is_empty() {
                    invalid("message no puede estar vacío")
                } else {
                    CtlCommand::ResponseSetLang { code, lang, message: msg }
                }
            },
        }
    } else if arg_is(args, 2, "del-lang") {
        if args.len() < 5 {
            return invalid("Uso: bifrostctl response del-lang <code> <lang>");
        }
        match parse_code(args[3].as_str()) {
            None => bad_code_exec(args),
            Some(code) => {
                let lang = lang_exec(args, 4);
                if lang.as_str().is_empty() || chars_eq_str(&str_chars(lang.as_str()), "en") {
                    invalid("lang debe ser distinto de 'en'")
                } else {
                    CtlCommand::ResponseDelLang { code, lang }
                }
            },
        }
    } else if arg_is(args, 2, "delete") {
        if args.len() < 4 {
            return invalid("Uso: bifrostctl response delete <code>");
        }
        match parse_code(args[3].as_str()) {
            None => bad_code_exec(args),
            Some(code) => CtlCommand::ResponseDelete { code },
        }
    } else if arg_is(args, 2, "help") || arg_is(args, 2, "--help") || arg_is(args, 2, "-h") {
        CtlCommand::Usage
    } else {
        unknown_sub_exec("response", &args[2])
    }
}

/// What an invocation asks for (see `ctl_command`).
pub fn parse_command(args: &Vec<String>) -> (r: CtlCommand)
    ensures
        r@ == ctl_command(arg_views(args@)),
{
    if args.len() < 2 {
        return CtlCommand::Usage;
    }
    if arg_is(args, 1, "apikey") {
        apikey_exec(args)
    } else if arg_is(args, 1, "docs-user") {
        docs_user_exec(args)
    } else if arg_is(args, 1, "response") {
        response_exec(args)
    } else if arg_is(args, 1, "version") {
        CtlCommand::Version
    } else if arg_is(args, 1, "help") || arg_is(args, 1, "--help") || arg_is(args, 1, "-h") {
        CtlCommand::Usage
    } else {
        CtlCommand::Unknown { message: message3("Comando desconocido '", &args[1], "'.") }
    }
}

/// Whether a command writes to the database (its outcome is then reported by
/// `write_report`).
pub open spec fn writes(c: CtlModel) -> bool {
    match c {
        CtlModel::ApiKeyCreate(_) | CtlModel::ApiKeySetActive(_, _) | CtlModel::ApiKeyDelete(_)
        | CtlModel::DocsUserCreate(_, _) | CtlModel::DocsUserPasswd(_, _) | CtlModel::DocsUserSetActive(_, _)
        | CtlModel::DocsUserDelete(_) | CtlModel::DocsUserSetManage(_, _) | CtlModel::ResponseAdd(_, _, _)
        | CtlModel::ResponseSetEn(_, _) | CtlModel::ResponseSetType(_, _) | CtlModel::ResponseSetLang(_, _, _)
        | CtlModel::ResponseDelLang(_, _) | CtlModel::ResponseDelete(_) => true,
        _ => false,
    }
}

/// The start of the message for a write that the database refused.
pub open spec fn write_error_lead(c: CtlModel) -> Seq<char> {
    match c {
        CtlModel::ApiKeyCreate(_) => "Error creando API key: "@,
        CtlModel::ApiKeySetActive(_, a) => if a {
            "Error habilitando API key: "@
        } else {
            "Error deshabilitando API key: "@
        },
        CtlModel::ApiKeyDelete(_) => "Error eliminando API key: "@,
        CtlModel::DocsUserCreate(_, _) => "Error creando usuario de documentación: "@,
        CtlModel::DocsUserPasswd(_, _) => "Error actualizando password: "@,
        CtlModel::DocsUserSetActive(_, a) => if a {
            "Error habilitando usuario: "@
        } else {
            "Error deshabilitando usuario: "@
        },
        CtlModel::DocsUserDelete(_) => "Error eliminando usuario: "@,
        CtlModel::DocsUserSetManage(_, _) => "Error actualizando permisos: "@,
        CtlModel::ResponseAdd(c, _, _) => "Error guardando código "@ + decimal_signed(c as int) + ": "@,
        CtlModel::ResponseSetEn(_, _) => "Error actualizando message_en: "@,
        CtlModel::ResponseSetType(_, _) => "Error actualizando type: "@,
        CtlModel::ResponseSetLang(_, _, _) => "Error guardando traducción: "@,
        CtlModel::ResponseDelLang(_, _) => "Error eliminando traducción: "@,
        CtlModel::ResponseDelete(c) => "Error eliminando code "@ + decimal_signed(c as int) + ": "@,
        _ => seq![],
    }
}

/// The message for a write that touched no row; `None` for the writes that always
/// insert one.
pub open spec fn nothing_written(c: CtlModel) -> Option<Seq<char>> {
    match c {
        CtlModel::ApiKeySetActive(_, _) | CtlModel::ApiKeyDelete(_) => Some("No se encontro la API key indicada."@),
        CtlModel::DocsUserPasswd(_, _) | CtlModel::DocsUserSetActive(_, _) | CtlModel::DocsUserDelete(_)
        | CtlModel::DocsUserSetManage(_, _) => Some("No se encontró el usuario indicado."@),
        CtlModel::ResponseSetEn(c, _) | CtlModel::ResponseSetType(c, _) | CtlModel::ResponseDelete(c) => Some(
            "No existe el code "@ + decimal_signed(c as int) + "."@,
        ),
        CtlModel::ResponseDelLang(c, l) => Some("No existe traducción "@ + l + " para code "@ + decimal_signed(c as int) + "."@),
        _ => None,
    }
}

/// The confirmation of a write; `api_key` is the key that a creation made.
pub open spec fn written(c: CtlModel, api_key: Seq<char>) -> Seq<char> {
    match c {
        CtlModel::ApiKeyCreate(u) => "API key creada para '"@ + u + "': "@ + api_key,
        CtlModel::ApiKeySetActive(_, a) => if a {
            "API key habilitada."@
        } else {
            "API key deshabilitada."@
        },
        CtlModel::ApiKeyDelete(_) => "API key eliminada."@,
        CtlModel::DocsUserCreate(u, _) => "Usuario de documentación '"@ + u + "' creado."@,
        CtlModel::DocsUserPasswd(u, _) => "Password actualizado para '"@ + u + "'."@,
        CtlModel::DocsUserSetActive(u, a) => "Usuario '"@ + u + (if a {
            "' habilitado."@
        } else {
            "' deshabilitado."@
        }),
        CtlModel::DocsUserDelete(u) => "Usuario '"@ + u + "' eliminado."@,
        CtlModel::DocsUserSetManage(u, m) => if m {
            "Permiso de administración de response codes concedido a '"@ + u + "'."@
        } else {
            "Permiso de administración de response codes revocado para '"@ + u + "'."@
        },
        CtlModel::ResponseAdd(c, _, _) => "Código "@ + decimal_signed(c as int) + " guardado/actualizado."@,
        CtlModel::ResponseSetEn(c, _) => "Mensaje base (en) actualizado para code "@ + decimal_signed(c as int) + "."@,
        CtlModel::ResponseSetType(c, _) => "Type actualizado para code "@ + decimal_signed(c as int) + "."@,
        CtlModel::ResponseSetLang(c, l, _) => "Traducción "@ + l + " guardada para code "@ + decimal_signed(c as int) + "."@,
        CtlModel::ResponseDelLang(c, l) => "Traducción "@ + l + " eliminada para code "@ + decimal_signed(c as int) + "."@,
        CtlModel::ResponseDelete(c) => "Code "@ + decimal_signed(c as int) + " eliminado."@,
        _ => seq![],
    }
}

/// What is printed once the database did a write: whether it goes to standard
/// error, and the text.
pub open spec fn report(c: CtlModel, error: Option<Seq<char>>, affected: u64, api_key: Seq<char>) -> (bool, Seq<char>) {
    match error {
        Some(e) => (true, write_error_lead(c) + e),
        None => if affected == 0 && nothing_written(c) is Some {
            (true, nothing_written(c)->0)
        } else {
            (false, written(c, api_key))
        },
    }
}

fn cat(v: &mut Vec<char>, s: &str)
    ensures
        final(v)@ == old(v)@ + s@,
{
    append_str(v, s);
}

fn code_text(c: i64) -> (r: Vec<char>)
    ensures
        r@ == decimal_signed(c as int),
{
    i64_decimal(c)
}

fn lead_chars(cmd: &CtlCommand) -> (r: Vec<char>)
    requires
        writes(cmd@),
    ensures
        r@ == write_error_lead(cmd@),
{
    match cmd {
        CtlCommand::ApiKeyCreate { .. } => str_chars("Error creando API key: "),
        CtlCommand::ApiKeySetActive { active, .. } => if *active {
            str_chars("Error habilitando API key: ")
        } else {
            str_chars("Error deshabilitando API key: ")
        },
        CtlCommand::ApiKeyDelete { .. } => str_chars("Error eliminando API key: "),
        CtlCommand::DocsUserCreate { .. } => str_chars("Error creando usuario de documentación: "),
        CtlCommand::DocsUserPasswd { .. } => str_chars("Error actualizando password: "),
        CtlCommand::DocsUserSetActive { active, .. } => if *active {
            str_chars("Error habilitando usuario: ")
        } else {
            str_chars("Error deshabilitando usuario: ")
        },
        CtlCommand::DocsUserDelete { .. } => str_chars("Error eliminando usuario: "),
        CtlCommand::DocsUserSetManage { .. } => str_chars("Error actualizando permisos: "),
        CtlCommand::ResponseAdd { code, .. } => {
            let mut v = str_chars("Error guardando código ");
            append_chars(&mut v, &code_text(*code));
            cat(&mut v, ": ");
            v
        },
        CtlCommand::ResponseSetEn { .. } => str_chars("Error actualizando message_en: "),
        CtlCommand::ResponseSetType { .. } => str_chars("Error actualizando type: "),
        CtlCommand::ResponseSetLang { .. } => str_chars("Error guardando traducción: "),
        CtlCommand::ResponseDelLang { .. } => str_chars("Error eliminando traducción: "),
        CtlCommand::ResponseDelete { code } => {
            let mut v = str_chars("Error eliminando code ");
            append_chars(&mut v, &code_text(*code));
            cat(&mut v, ": ");
            v
        },
        _ => Vec::new(),
    }
}

fn nothing_chars(cmd: &CtlCommand) -> (r: Option<Vec<char>>)
    ensures
        match r {
            Some(v) => nothing_written(cmd@) == Some(v@),
            None => nothing_written(cmd@) is None,
        },
{
    match cmd {
        CtlCommand::ApiKeySetActive { .. } | CtlCommand::ApiKeyDelete { .. } => Some(
            str_chars("No se encontro la API key indicada."),
        ),
        CtlCommand::DocsUserPasswd { .. } | CtlCommand::DocsUserSetActive { .. } | CtlCommand::DocsUserDelete { .. }
        | CtlCommand::DocsUserSetManage { .. } => Some(str_chars("No se encontró el usuario indicado.")),
        CtlCommand::ResponseSetEn { code, .. } | CtlCommand::ResponseSetType { code, .. } | CtlCommand::ResponseDelete {
            code,
        } => {
            let mut v = str_chars("No existe el code ");
            append_chars(&mut v, &code_text(*code));
            cat(&mut v, ".");
            Some(v)
        },
        CtlCommand::ResponseDelLang { code, lang } => {
            let mut v = str_chars("No existe traducción ");
            cat(&mut v, lang.as_str());
            cat(&mut v, " para code ");
            append_chars(&mut v, &code_text(*code));
            cat(&mut v, ".");
            Some(v)
        },
        _ => None,
    }
}

fn written_chars(cmd: &CtlCommand, api_key: &str) -> (r: Vec<char>)
    requires
        writes(cmd@),
    ensures
        r@ == written(cmd@, api_key@),
{
    match cmd {
        CtlCommand::ApiKeyCreate { user_name } => {
            let mut v = str_chars("API key creada para '");
            cat(&mut v, user_name.as_str());
            cat(&mut v, "': ");
            cat(&mut v, api_key);
            v
        },
        CtlCommand::ApiKeySetActive { active, .. } => if *active {
            str_chars("API key habilitada.")
        } else {
            str_chars("API key deshabilitada.")
        },
        CtlCommand::ApiKeyDelete { .. } => str_chars("API key eliminada."),
        CtlCommand::DocsUserCreate { username, .. } => {
            let mut v = str_chars("Usuario de documentación '");
            cat(&mut v, username.as_str());
            cat(&mut v, "' creado.");
            v
        },
        CtlCommand::DocsUserPasswd { username, .. } => {
            let mut v = str_chars("Password actualizado para '");
            cat(&mut v, username.as_str());
            cat(&mut v, "'.");
            v
        },
        CtlCommand::DocsUserSetActive { username, active } => {
            let mut v = str_chars("Usuario '");
            cat(&mut v, username.as_str());
            if *active {
                cat(&mut v, "' habilitado.");
            } else {
                cat(&mut v, "' deshabilitado.");
            }
            v
        },
        CtlCommand::DocsUserDelete { username } => {
            let mut v = str_chars("Usuario '");
            cat(&mut v, username.as_str());
            cat(&mut v, "' eliminado.");
            v
        },
        CtlCommand::DocsUserSetManage { username, manage } => {
            let mut v = if *manage {
                str_chars("Permiso de administración de response codes concedido a '")
            } else {
                str_chars("Permiso de administración de response codes revocado para '")
            };
            cat(&mut v, username.as_str());
            cat(&mut v, "'.");
            v
        },
        CtlCommand::ResponseAdd { code, .. } => {
            let mut v = str_chars("Código ");
            append_chars(&mut v, &code_text(*code));
            cat(&mut v, " guardado/actualizado.");
            v
        },
        CtlCommand::ResponseSetEn { code, .. } => {
            let mut v = str_chars("Mensaje base (en) actualizado para code ");
            append_chars(&mut v, &code_text(*code));
            cat(&mut v, ".");
            v
        },
        CtlCommand::ResponseSetType { code, .. } => {
            let mut v = str_chars("Type actualizado para code ");
            append_chars(&mut v, &code_text(*code));
            cat(&mut v, ".");
            v
        },
        CtlCommand::ResponseSetLang { code, lang, .. } => {
            let mut v = str_chars("Traducción ");
            cat(&mut v, lang.as_str());
            cat(&mut v, " guardada para code ");
            append_chars(&mut v, &code_text(*code));
            cat(&mut v, ".");
            v
        },
        CtlCommand::ResponseDelLang { code, lang } => {
            let mut v = str_chars("Traducción ");
            cat(&mut v, lang.as_str());
            cat(&mut v, " eliminada para code ");
            append_chars(&mut v, &code_text(*code));
            cat(&mut v, ".");
            v
        },
        CtlCommand::ResponseDelete { code } => {
            let mut v = str_chars("Code ");
            append_chars(&mut v, &code_text(*code));
            cat(&mut v, " eliminado.");
            v
        },
        _ => Vec::new(),
    }
}

/// What `bifrostctl` prints once the database did a command's write (see `report`):
/// whether it goes to standard error, and the text.
pub fn write_report(cmd: &CtlCommand, error: Option<&str>, affected: u64, api_key: &str) -> (r: (bool, String))
    requires
        writes(cmd@),
    ensures
        (r.0, r.1@) == report(
            cmd@,
            match error {
                Some(e) => Some(e@),
                None => None,
            },
            affected,
            api_key@,
        ),
{
    match error {
        Some(e) => {
            let mut v = lead_chars(cmd);
            cat(&mut v, e);
            (true, chars_to_string(&v))
        },
        None => {
            if affected == 0 {
                match nothing_chars(cmd) {
                    Some(v) => return (true, chars_to_string(&v)),
                    None => {},
                }
            }
            (false, chars_to_string(&written_chars(cmd, api_key)))
        },
    }
}

/// Whether the command writes to the database (see `writes`).
pub fn is_write(cmd: &CtlCommand) -> (b: bool)
    ensures
        b == writes(cmd@),
{
    match cmd {
        CtlCommand::ApiKeyCreate { .. } | CtlCommand::ApiKeySetActive { .. } | CtlCommand::ApiKeyDelete { .. }
        | CtlCommand::DocsUserCreate { .. } | CtlCommand::DocsUserPasswd { .. } | CtlCommand::DocsUserSetActive { .. }
        | CtlCommand::DocsUserDelete { .. } | CtlCommand::DocsUserSetManage { .. } | CtlCommand::ResponseAdd { .. }
        | CtlCommand::ResponseSetEn { .. } | CtlCommand::ResponseSetType { .. } | CtlCommand::ResponseSetLang { .. }
        | CtlCommand::ResponseDelLang { .. } | CtlCommand::ResponseDelete { .. } => true,
        _ => false,
    }
}

} // verus!
