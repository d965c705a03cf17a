//! Running outside programs: the limits that apply, what a finished run gives
//! back, and how long output is cut.
use vstd::prelude::*;

use crate::models::owned;
use crate::text::{
    append_str, char_utf8_width, chars_to_string, str_chars, sub_chars, trim, trim_str, utf8_width,
};

verus! {

/// Limits for running a program: the time it may take, in seconds, unless the
/// caller gives another, and the most bytes of output accepted on each stream.
#[derive(Debug, Clone, Copy)]
pub struct ExecConfig {
    pub default_timeout_secs: u64,
    pub max_output_bytes: usize,
}

impl Default for ExecConfig {
    fn default() -> (r: Self)
        ensures
            r.default_timeout_secs == 15,
            r.max_output_bytes == 64 * 1024,
    {
        ExecConfig { default_timeout_secs: 15, max_output_bytes: 64 * 1024 }
    }
}

/// What a finished program gave back: its exit code, if it exited, and its output.
#[derive(Debug, Clone)]
pub struct ExecOutput {
    pub status_code: Option<i32>,
    pub stdout: String,
    pub stderr: String,
}

/// Why running a program gave nothing back.
#[derive(Debug)]
pub enum ExecError {
    Timeout { program: String },
    Spawn { program: String, message: String },
    OutputTooLarge { program: String },
}

/// Number of bytes of the UTF-8 encoding of `s`.
pub open spec fn utf8_len(s: Seq<char>) -> nat
    decreases s.len(),
{
    if s.len() == 0 {
        0
    } else {
        utf8_len(s.drop_last()) + utf8_width(s.last())
    }
}

/// The longest prefix of `s` whose encoding takes at most `max` bytes.
pub open spec fn fitting_prefix(s: Seq<char>, max: nat) -> Seq<char>
    decreases s.len(),
{
    if utf8_len(s) <= max || s.len() == 0 {
        s
    } else {
        fitting_prefix(s.drop_last(), max)
    }
}

/// `s` when its encoding fits in `max` bytes; otherwise its longest prefix that
/// fits, marked as cut.
pub open spec fn truncated(s: Seq<char>, max: nat) -> Seq<char> {
    if utf8_len(s) <= max {
        s
    } else {
        fitting_prefix(s, max) + "…[truncado]"@
    }
}

pub proof fn lemma_utf8_len_prefix(s: Seq<char>, j: int)
    requires
        0 <= j <= s.len(),
    ensures
        utf8_len(s.take(j)) <= utf8_len(s),
    decreases s.len(),
{
    if j < s.len() {
        assert(s.drop_last().take(j) =~= s.take(j));
        lemma_utf8_len_prefix(s.drop_last(), j);
    } else {
        assert(s.take(j) =~= s);
    }
}

proof fn lemma_fitting_prefix(s: Seq<char>, max: nat, i: int)
    requires
        0 <= i < s.len(),
        utf8_len(s.take(i)) <= max < utf8_len(s.take(i + 1)),
    ensures
        fitting_prefix(s, max) == s.take(i),
    decreases s.len(),
{
    lemma_utf8_len_prefix(s, i + 1);
    if s.len() == i + 1 {
        assert(s.take(i + 1) =~= s);
        assert(s.drop_last() =~= s.take(i));
        assert(fitting_prefix(s.take(i), max) == s.take(i));
        assert(fitting_prefix(s, max) == fitting_prefix(s.drop_last(), max));
    } else {
        assert(s.drop_last().take(i) =~= s.take(i));
        assert(s.drop_last().take(i + 1) =~= s.take(i + 1));
        lemma_fitting_prefix(s.drop_last(), max, i);
        assert(fitting_prefix(s, max) == fitting_prefix(s.drop_last(), max));
    }
}

/// The number of leading characters of `cs` whose encoding fits in `max` bytes.
fn fitting_len(cs: &Vec<char>, max: usize) -> (r: usize)
    ensures
        r <= cs.len(),
        utf8_len(cs@.take(r as int)) <= max,
        r < cs.len() ==> utf8_len(cs@.take(r + 1)) > max,
{
    let mut acc: usize = 0;
    let mut i: usize = 0;
    let mut full = false;
    assert(cs@.take(0) =~= Seq::<char>::empty());
    while i < cs.len() && !full
        invariant
            i <= cs.len(),
            acc == utf8_len(cs@.take(i as int)),
            acc <= max,
            full ==> i < cs.len() && utf8_len(cs@.take(i + 1)) > max,
        decreases (cs.len() - i) * 2 + (if full { 0int } else { 1int }),
    {
        let w = char_utf8_width(cs[i]);
        assert(cs@.take(i + 1).drop_last() =~= cs@.take(i as int));
        if w > max - acc {
            full = true;
        } else {
            acc = acc + w;
            i = i + 1;
        }
    }
    i
}

/// `s` cut to at most `max_bytes` bytes of UTF-8 at a character boundary, marked
/// `…[truncado]` when cut (see `truncated`).
pub fn truncate_to_bytes(s: &str, max_bytes: usize) -> (r: String)
    ensures
        r@ == truncated(s@, max_bytes as nat),
{
    let cs = str_chars(s);
    let n = fitting_len(&cs, max_bytes);
    if n == cs.len() {
        assert(cs@.take(n as int) =~= cs@);
        return owned(s);
    }
    proof {
        lemma_utf8_len_prefix(cs@, n + 1);
        lemma_fitting_prefix(cs@, max_bytes as nat, n as int);
    }
    let mut out = sub_chars(&cs, 0, n);
    assert(out@ =~= cs@.take(n as int));
    append_str(&mut out, "…[truncado]");
    chars_to_string(&out)
}

/// Whether the encoding of `s` fits in `max` bytes.
pub fn fits_in_bytes(s: &str, max: usize) -> (b: bool)
    ensures
        b == (utf8_len(s@) <= max),
{
    let cs = str_chars(s);
    let n = fitting_len(&cs, max);
    if n == cs.len() {
        assert(cs@.take(n as int) =~= cs@);
        true
    } else {
        proof {
            lemma_utf8_len_prefix(cs@, n + 1);
        }
        false
    }
}

/// What a finished run gives back, from the program's exit code and its output
/// read as text: refused when either stream is longer than allowed, else the
/// output trimmed (and cut to the limit).
pub fn finish_command(
    cfg: &ExecConfig,
    program: &str,
    status_code: Option<i32>,
    stdout_raw: &str,
    stderr_raw: &str,
) -> (r: Result<ExecOutput, ExecError>)
    ensures
        match r {
            Ok(out) => {
                &&& utf8_len(stdout_raw@) <= cfg.max_output_bytes
                &&& utf8_len(stderr_raw@) <= cfg.max_output_bytes
                &&& out.status_code == status_code
                &&& out.stdout@ == truncated(trim(stdout_raw@), cfg.max_output_bytes as nat)
                &&& out.stderr@ == truncated(trim(stderr_raw@), cfg.max_output_bytes as nat)
            },
            Err(ExecError::OutputTooLarge { program: p }) => {
                &&& p@ == program@
                &&& (utf8_len(stdout_raw@) > cfg.max_output_bytes || utf8_len(stderr_raw@) > cfg.max_output_bytes)
            },
            Err(_) => false,
        },
{
    if !fits_in_bytes(stdout_raw, cfg.max_output_bytes) || !fits_in_bytes(stderr_raw, cfg.max_output_bytes) {
        return Err(ExecError::OutputTooLarge { program: owned(program) });
    }
    let out_trim = chars_to_string(&trim_str(stdout_raw));
    let err_trim = chars_to_string(&trim_str(stderr_raw));
    Ok(ExecOutput {
        status_code,
        stdout: truncate_to_bytes(out_trim.as_str(), cfg.max_output_bytes),
        stderr: truncate_to_bytes(err_trim.as_str(), cfg.max_output_bytes),
    })
}

} // verus!
