//! The service's logging: levels, the lines written, and where each line goes.
use vstd::prelude::*;

use crate::models::owned;
use crate::text::{
    append_str, chars_eq_str, chars_to_string, contains, contains_str, decimal, split,
    split_chars, str_chars, trim, trim_chars, u64_decimal, views,
};

verus! {

/// How much is logged: nothing, information and errors, or errors only.
#[derive(Debug, Clone, Copy, PartialEq, Eq, Structural)]
pub enum LogLevel {
    Off,
    Info,
    Error,
}

impl LogLevel {
    /// The level configured by a number: 1 is `Info`, 3 is `Error`, anything else `Off`.
    pub fn from_u8(level: u8) -> (r: LogLevel)
        ensures
            r == (if level == 1 {
                LogLevel::Info
            } else if level == 3 {
                LogLevel::Error
            } else {
                LogLevel::Off
            }),
    {
        if level == 1 {
            LogLevel::Info
        } else if level == 3 {
            LogLevel::Error
        } else {
            LogLevel::Off
        }
    }

    pub open spec fn rank_of(self) -> u8 {
        match self {
            LogLevel::Off => 0,
            LogLevel::Info => 1,
            LogLevel::Error => 3,
        }
    }

    /// The level's number: 0, 1 or 3.
    pub fn rank(self) -> (r: u8)
        ensures
            r == self.rank_of(),
    {
        match self {
            LogLevel::Off => 0,
            LogLevel::Info => 1,
            LogLevel::Error => 3,
        }
    }

    /// Whether information lines are written: at `Info` and above.
    pub fn logs_info(self) -> (b: bool)
        ensures
            b == (self.rank_of() >= 1),
    {
        self.rank() >= 1
    }

    /// Whether error lines are written: at `Error` only.
    pub fn logs_errors(self) -> (b: bool)
        ensures
            b == (self.rank_of() >= 3),
    {
        self.rank() >= 3
    }
}

/// A line of the log: `[time] [LEVEL] [context] [trace id] [thread] message`.
pub open spec fn log_line(timestamp: Seq<char>, level: Seq<char>, context: Seq<char>, trace_id: Seq<char>, thread_id: Seq<char>, message: Seq<char>) -> Seq<char> {
    "["@ + timestamp + "] ["@ + level + "] ["@ + context + "] ["@ + trace_id + "] ["@ + thread_id + "] "@ + message
}

pub fn format_log_line(timestamp: &str, level: &str, context: &str, trace_id: &str, thread_id: &str, message: &str) -> (r: String)
    ensures
        r@ == log_line(timestamp@, level@, context@, trace_id@, thread_id@, message@),
{
    let mut v = str_chars("[");
    append_str(&mut v, timestamp);
    append_str(&mut v, "] [");
    append_str(&mut v, level);
    append_str(&mut v, "] [");
    append_str(&mut v, context);
    append_str(&mut v, "] [");
    append_str(&mut v, trace_id);
    append_str(&mut v, "] [");
    append_str(&mut v, thread_id);
    append_str(&mut v, "] ");
    append_str(&mut v, message);
    chars_to_string(&v)
}

/// The line logged for an API request.
pub fn api_request_message(method: &str, path: &str, status: u16, duration_ms: u64) -> (r: String)
    ensures
        r@ == "API_REQUEST: "@ + method@ + " "@ + path@ + " | Status: "@ + decimal(status as nat) + " | Duration: "@
            + decimal(duration_ms as nat) + "ms"@,
{
    let mut v = str_chars("API_REQUEST: ");
    append_str(&mut v, method);
    append_str(&mut v, " ");
    append_str(&mut v, path);
    append_str(&mut v, " | Status: ");
    let s = u64_decimal(status as u64);
    crate::text::append_chars(&mut v, &s);
    append_str(&mut v, " | Duration: ");
    let d = u64_decimal(duration_ms);
    crate::text::append_chars(&mut v, &d);
    append_str(&mut v, "ms");
    chars_to_string(&v)
}

/// The line logged for a failed API request.
pub fn api_error_message(method: &str, path: &str, status: u16, error: &str) -> (r: String)
    ensures
        r@ == "API_ERROR: "@ + method@ + " "@ + path@ + " | Status: "@ + decimal(status as nat) + " | Error: "@ + error@,
{
    let mut v = str_chars("API_ERROR: ");
    append_str(&mut v, method);
    append_str(&mut v, " ");
    append_str(&mut v, path);
    append_str(&mut v, " | Status: ");
    let s = u64_decimal(status as u64);
    crate::text::append_chars(&mut v, &s);
    append_str(&mut v, " | Error: ");
    append_str(&mut v, error);
    chars_to_string(&v)
}

/// The line logged for a worker's activity, or for its error.
pub fn worker_message(worker_id: &str, text: &str, is_error: bool) -> (r: String)
    ensures
        r@ == (if is_error {
            "WORKER_ERROR["@
        } else {
            "WORKER["@
        }) + worker_id@ + "]: "@ + text@,
{
    let mut v = if is_error {
        str_chars("WORKER_ERROR[")
    } else {
        str_chars("WORKER[")
    };
    append_str(&mut v, worker_id);
    append_str(&mut v, "]: ");
    append_str(&mut v, text);
    chars_to_string(&v)
}

/// The file a logger writes to when the journal is not used.
pub open spec fn log_path(context: Seq<char>, access: Option<Seq<char>>, worker: Option<Seq<char>>) -> Seq<char> {
    if context == "service"@ {
        match access {
            Some(p) => p,
            None => "/var/log/bifrost-service-access.log"@,
        }
    } else if context == "worker"@ {
        match worker {
            Some(p) => p,
            None => "/var/log/bifrost-worker.log"@,
        }
    } else {
        "/var/log/bifrost.log"@
    }
}

pub open spec fn opt_str(o: Option<&str>) -> Option<Seq<char>> {
    match o {
        Some(s) => Some(s@),
        None => None,
    }
}

pub fn log_file_path(context: &str, access_log_path: Option<&str>, worker_log_path: Option<&str>) -> (r: String)
    ensures
        r@ == log_path(context@, opt_str(access_log_path), opt_str(worker_log_path)),
{
    let c = str_chars(context);
    if chars_eq_str(&c, "service") {
        match access_log_path {
            Some(p) => owned(p),
            None => owned("/var/log/bifrost-service-access.log"),
        }
    } else if chars_eq_str(&c, "worker") {
        match worker_log_path {
            Some(p) => owned(p),
            None => owned("/var/log/bifrost-worker.log"),
        }
    } else {
        owned("/var/log/bifrost.log")
    }
}

/// The separate error file: only the service has one.
pub fn error_log_file_path(context: &str, error_log_path: Option<&str>) -> (r: Option<String>)
    ensures
        match r {
            Some(p) => context@ == "service"@ && p@ == match error_log_path {
                Some(e) => e@,
                None => "/var/log/bifrost-service-error.log"@,
            },
            None => context@ != "service"@,
        },
{
    if chars_eq_str(&str_chars(context), "service") {
        match error_log_path {
            Some(p) => Some(owned(p)),
            None => Some(owned("/var/log/bifrost-service-error.log")),
        }
    } else {
        None
    }
}

/// Whether a line of the given level goes to the service's error file rather than
/// its main file.
pub fn goes_to_error_file(level: &str, context: &str) -> (b: bool)
    ensures
        b == ((level@ == "ERROR"@ || level@ == "EXCEPTION"@) && context@ == "service"@),
{
    let l = str_chars(level);
    (chars_eq_str(&l, "ERROR") || chars_eq_str(&l, "EXCEPTION")) && chars_eq_str(&str_chars(context), "service")
}

/// The syslog priority of a level in the journal: 6 for information, 3 for errors,
/// 2 for exceptions.
pub fn journal_priority(level: &str) -> (r: &'static str)
    ensures
        r@ == (if level@ == "ERROR"@ {
            "3"@
        } else if level@ == "EXCEPTION"@ {
            "2"@
        } else {
            "6"@
        }),
{
    let l = str_chars(level);
    if chars_eq_str(&l, "ERROR") {
        "3"
    } else if chars_eq_str(&l, "EXCEPTION") {
        "2"
    } else {
        "6"
    }
}

/// The file a queued line is written to, from the context and level it carries:
/// the service's error or access file, the worker's file, or else the access file
/// and failing that the worker's.
pub open spec fn queued_destination(msg: Seq<char>, access: Option<Seq<char>>, error: Option<Seq<char>>, worker: Option<Seq<char>>) -> Option<Seq<char>> {
    if contains(msg, "[service]"@) {
        if contains(msg, "[ERROR]"@) || contains(msg, "[EXCEPTION]"@) {
            error
        } else {
            access
        }
    } else if contains(msg, "[worker]"@) {
        worker
    } else if access.is_some() {
        access
    } else {
        worker
    }
}

pub fn queued_log_destination(msg: &str, access: Option<&str>, error: Option<&str>, worker: Option<&str>) -> (r: Option<String>)
    ensures
        match r {
            Some(p) => queued_destination(msg@, opt_str(access), opt_str(error), opt_str(worker)) == Some(p@),
            None => queued_destination(msg@, opt_str(access), opt_str(error), opt_str(worker)).is_none(),
        },
{
    let m = str_chars(msg);
    let pick = if contains_str(&m, "[service]") {
        if contains_str(&m, "[ERROR]") || contains_str(&m, "[EXCEPTION]") {
            error
        } else {
            access
        }
    } else if contains_str(&m, "[worker]") {
        worker
    } else if access.is_some() {
        access
    } else {
        worker
    };
    match pick {
        Some(p) => Some(owned(p)),
        None => None,
    }
}

/// Whether a log file has grown past the rotation size.
pub fn needs_rotation(file_len: u64, rotate_size_bytes: u64) -> (b: bool)
    ensures
        b == (file_len > rotate_size_bytes),
{
    file_len > rotate_size_bytes
}

/// The name a rotated file is given: the path, a dot and the time stamp.
pub fn rotated_name(path: &str, timestamp: &str) -> (r: String)
    ensures
        r@ == path@ + "."@ + timestamp@,
{
    let mut v = str_chars(path);
    append_str(&mut v, ".");
    append_str(&mut v, timestamp);
    chars_to_string(&v)
}

/// Forwards the output of the `tracing` library to the log, one line at a time.
#[derive(Debug)]
pub struct TracingWriter;

/// The lines logged for output of the tracing library: each non-blank line,
/// trimmed, marked as a trace of the service.
pub open spec fn trace_lines(text: Seq<char>) -> Seq<Seq<char>> {
    split(text, '\n').filter(|l: Seq<char>| trim(l).len() > 0).map_values(
        |l: Seq<char>| "[service] [TRACE] "@ + trim(l),
    )
}

impl TracingWriter {
    pub fn new() -> (r: Self) {
        TracingWriter
    }

    /// The log lines for `text` (see `trace_lines`).
    pub fn messages(&self, text: &str) -> (r: Vec<String>)
        ensures
            r@.map_values(|s: String| s@) == trace_lines(text@),
    {
        let pieces = split_chars(&str_chars(text), '\n');
        let ghost pv = views(pieces@);
        let mut out: Vec<String> = Vec::new();
        let mut i: usize = 0;
        let ghost keep = |l: Seq<char>| trim(l).len() > 0;
        let ghost f = |l: Seq<char>| "[service] [TRACE] "@ + trim(l);
        assert(pv.take(0).filter(keep) =~= Seq::<Seq<char>>::empty());
        while i < pieces.len()
            invariant
                i <= pieces.len(),
                pv == views(pieces@),
                pv == split(text@, '\n'),
                keep == (|l: Seq<char>| trim(l).len() > 0),
                f == (|l: Seq<char>| "[service] [TRACE] "@ + trim(l)),
                out@.map_values(|s: String| s@) == pv.take(i as int).filter(keep).map_values(f),
            decreases pieces.len() - i,
        {
            let ghost t = pv.take(i + 1);
            assert(t.drop_last() =~= pv.take(i as int));
            assert(t.last() == pieces@[i as int]@);
            proof {
                pv.take(i as int).lemma_filter_push(pieces@[i as int]@, keep);
                assert(t =~= pv.take(i as int).push(pieces@[i as int]@));
            }
            let tl = trim_chars(&pieces[i]);
            if tl.len() > 0 {
                let mut v = str_chars("[service] [TRACE] ");
                crate::text::append_chars(&mut v, &tl);
                let ghost o = out@;
                out.push(chars_to_string(&v));
                assert(out@.map_values(|s: String| s@) =~= o.map_values(|s: String| s@).push(f(pieces@[i as int]@)));
                assert(pv.take(i + 1).filter(keep).map_values(f) =~= pv.take(i as int).filter(keep).map_values(f).push(
                    f(pieces@[i as int]@),
                ));
            } else {
                assert(pv.take(i + 1).filter(keep) =~= pv.take(i as int).filter(keep));
            }
            i += 1;
        }
        assert(pv.take(pieces.len() as int) =~= pv);
        out
    }
}

} // verus!
