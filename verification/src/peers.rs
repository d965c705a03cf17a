//! Runtime status of peers: parsing of `swanctl --list-sas` per IKE SA and
//! CHILD SA, and the status report of a peer.
use vstd::prelude::*;

use crate::engine::{
    after_first, after_first_exec, header_name, header_name_exec, is_top_level, is_top_level_exec,
    sa_state, sa_state_exec,
};
use crate::models::{opt_view, owned};
use crate::text::{
    chars_eq, chars_eq_str, chars_to_string, contains, contains_char, contains_str, has_char,
    index_of, is_ascii_alnum, lemma_split_acc_nonempty, lemma_trim_nonalnum_shape, lines,
    lines_str, lower, lower_chars, parse_u64, parse_u64_chars, split, split_chars, starts_with,
    starts_with_str, str_chars, tokens, tokens_chars, trim, trim_chars, trim_nonalnum,
    trim_nonalnum_chars, trim_start, trim_start_chars, views,
};
use crate::types::{
    ChildRuntimeStatus, ChildSaStatusResponse, FirewallRulesResponse, FirewallRulesSnapshot,
    PeerPhaseStatusResponse, PeerRuntimeStatus, PeerStatusResponse,
};

verus! {

pub struct ChildModel {
    pub name: Seq<char>,
    pub state: Seq<char>,
    pub active: bool,
    pub active_for_seconds: Option<u64>,
    pub packets_in: u64,
    pub packets_out: u64,
}

pub struct PeerModel {
    pub peer_name: Seq<char>,
    pub phase1_state: Seq<char>,
    pub phase1_active: bool,
    pub phase1_active_for_seconds: Option<u64>,
    pub phase1_packets_in: u64,
    pub phase1_packets_out: u64,
    pub child_sas: Seq<ChildModel>,
}

impl View for ChildRuntimeStatus {
    type V = ChildModel;

    open spec fn view(&self) -> ChildModel {
        ChildModel {
            name: self.name@,
            state: self.state@,
            active: self.active,
            active_for_seconds: self.active_for_seconds,
            packets_in: self.packets_in,
            packets_out: self.packets_out,
        }
    }
}

pub open spec fn child_views(v: Seq<ChildRuntimeStatus>) -> Seq<ChildModel> {
    v.map_values(|c: ChildRuntimeStatus| c@)
}

impl View for PeerRuntimeStatus {
    type V = PeerModel;

    open spec fn view(&self) -> PeerModel {
        PeerModel {
            peer_name: self.peer_name@,
            phase1_state: self.phase1_state@,
            phase1_active: self.phase1_active,
            phase1_active_for_seconds: self.phase1_active_for_seconds,
            phase1_packets_in: self.phase1_packets_in,
            phase1_packets_out: self.phase1_packets_out,
            child_sas: child_views(self.child_sas@),
        }
    }
}

pub open spec fn peer_views(v: Seq<PeerRuntimeStatus>) -> Seq<PeerModel> {
    v.map_values(|p: PeerRuntimeStatus| p@)
}

// ───────────────────────────── states ─────────────────────────────

/// An SA in this state carries traffic.
pub open spec fn active_state(state: Seq<char>) -> bool {
    state == "ESTABLISHED"@ || state == "INSTALLED"@ || state == "REKEYED"@
}

pub fn is_sa_active_state_chars(state: &Vec<char>) -> (b: bool)
    ensures
        b == active_state(state@),
{
    chars_eq_str(state, "ESTABLISHED") || chars_eq_str(state, "INSTALLED") || chars_eq_str(
        state,
        "REKEYED",
    )
}

/// Whether an SA in `state` is active: `ESTABLISHED`, `INSTALLED` or `REKEYED`.
pub fn is_sa_active_state(state: &str) -> (b: bool)
    ensures
        b == active_state(state@),
{
    let v = str_chars(state);
    is_sa_active_state_chars(&v)
}

// ───────────────────────────── durations ─────────────────────────────

/// `a * b`, or `u64::MAX` when it does not fit.
pub open spec fn sat_mul(a: u64, b: u64) -> u64 {
    if a * b > u64::MAX {
        u64::MAX
    } else {
        (a * b) as u64
    }
}

/// Seconds in one unit written by its single-letter suffix.
pub open spec fn suffix_seconds(c: char) -> Option<u64> {
    if c == 's' {
        Some(1)
    } else if c == 'm' {
        Some(60)
    } else if c == 'h' {
        Some(3600)
    } else if c == 'd' {
        Some(86400)
    } else {
        None
    }
}

/// A token whose parse cannot panic: empty, or ending in an ASCII character.
pub open spec fn ends_ascii(token: Seq<char>) -> bool {
    token.len() == 0 || (token.last() as u32) < 128
}

/// A compact duration such as `21s`, `5m`, `2h` or `3d`: a count and a one-letter unit,
/// in either case; the seconds it stands for, saturating.
pub open spec fn compact_duration(token: Seq<char>) -> Option<u64> {
    if token.len() < 2 {
        None
    } else {
        match (parse_u64(token.drop_last()), suffix_seconds(crate::text::lower_char(token.last()))) {
            (Some(n), Some(m)) => Some(sat_mul(n, m)),
            _ => None,
        }
    }
}

fn sat_mul_exec(a: u64, b: u64) -> (r: u64)
    ensures
        r == sat_mul(a, b),
{
    proof {
        if b > 0 {
            assert(a * b >= a) by (nonlinear_arith)
                requires
                    b > 0,
                    a >= 0,
            ;
        }
    }
    match a.checked_mul(b) {
        Some(v) => v,
        None => u64::MAX,
    }
}

fn suffix_seconds_exec(c: char) -> (r: Option<u64>)
    ensures
        r == suffix_seconds(c),
{
    if c == 's' {
        Some(1)
    } else if c == 'm' {
        Some(60)
    } else if c == 'h' {
        Some(3600)
    } else if c == 'd' {
        Some(86400)
    } else {
        None
    }
}

pub fn compact_duration_chars(token: &Vec<char>) -> (r: Option<u64>)
    ensures
        r == compact_duration(token@),
{
    if token.len() < 2 {
        return None;
    }
    let number = crate::text::sub_chars(token, 0, token.len() - 1);
    assert(number@ =~= token@.drop_last());
    let unit = crate::text::char_lower(token[token.len() - 1]);
    match (parse_u64_chars(&number), suffix_seconds_exec(unit)) {
        (Some(n), Some(m)) => Some(sat_mul_exec(n, m)),
        _ => None,
    }
}

/// Seconds of a compact duration token such as `21s` or `3d`. The token must be
/// empty or end in an ASCII character (the byte split of the original panics otherwise).
pub fn parse_compact_duration_seconds(token: &str) -> (r: Option<u64>)
    requires
        ends_ascii(token@),
    ensures
        r == compact_duration(token@),
{
    let v = str_chars(token);
    compact_duration_chars(&v)
}

/// Seconds in one unit written as a word (`sec`, `min`, `hour`, `day` and longer forms).
pub open spec fn unit_seconds(unit: Seq<char>) -> Option<u64> {
    if starts_with(unit, "sec"@) || starts_with(unit, "second"@) {
        Some(1)
    } else if starts_with(unit, "min"@) || starts_with(unit, "minute"@) {
        Some(60)
    } else if starts_with(unit, "hour"@) {
        Some(3600)
    } else if starts_with(unit, "day"@) {
        Some(86400)
    } else {
        None
    }
}

/// The tokens of `text`: its whitespace-separated words without leading or trailing
/// non-alphanumeric characters.
pub open spec fn duration_tokens(text: Seq<char>) -> Seq<Seq<char>> {
    tokens(text).map_values(|t: Seq<char>| trim_nonalnum(t))
}

/// The first compact duration among `toks[i..]`.
pub open spec fn compact_from(toks: Seq<Seq<char>>, i: int) -> Option<u64>
    decreases toks.len() - i,
{
    if i < 0 || i >= toks.len() {
        None
    } else {
        match compact_duration(toks[i]) {
            Some(v) => Some(v),
            None => compact_from(toks, i + 1),
        }
    }
}

/// The first pair `count unit` among `toks[i..]`.
pub open spec fn pair_from(toks: Seq<Seq<char>>, i: int) -> Option<u64>
    decreases toks.len() - i,
{
    if i < 0 || i + 1 >= toks.len() {
        None
    } else {
        match (parse_u64(toks[i]), unit_seconds(lower(toks[i + 1]))) {
            (Some(n), Some(m)) => Some(sat_mul(n, m)),
            _ => pair_from(toks, i + 1),
        }
    }
}

/// How long an SA has been up, read from its status text: the first compact
/// duration (`1215s`), else the first `count unit` pair (`5 minutes`).
pub open spec fn active_for_seconds(text: Seq<char>) -> Option<u64> {
    let toks = duration_tokens(text);
    match compact_from(toks, 0) {
        Some(v) => Some(v),
        None => pair_from(toks, 0),
    }
}

fn unit_seconds_exec(unit: &Vec<char>) -> (r: Option<u64>)
    ensures
        r == unit_seconds(unit@),
{
    if starts_with_str(unit, "sec") || starts_with_str(unit, "second") {
        Some(1)
    } else if starts_with_str(unit, "min") || starts_with_str(unit, "minute") {
        Some(60)
    } else if starts_with_str(unit, "hour") {
        Some(3600)
    } else if starts_with_str(unit, "day") {
        Some(86400)
    } else {
        None
    }
}

pub fn active_for_seconds_chars(text: &Vec<char>) -> (r: Option<u64>)
    ensures
        r == active_for_seconds(text@),
{
    let words = tokens_chars(text);
    let mut toks: Vec<Vec<char>> = Vec::new();
    let mut i: usize = 0;
    while i < words.len()
        invariant
            i <= words.len(),
            views(toks@) == views(words@).take(i as int).map_values(|t: Seq<char>| trim_nonalnum(t)),
        decreases words.len() - i,
    {
        let t = trim_nonalnum_chars(&words[i]);
        let ghost old = toks@;
        toks.push(t);
        assert(views(toks@) =~= views(old).push(t@));
        assert(views(words@).take(i + 1) =~= views(words@).take(i as int).push(words@[i as int]@));
        assert(views(toks@) =~= views(words@).take(i + 1).map_values(|t: Seq<char>| trim_nonalnum(t)));
        i += 1;
    }
    assert(views(words@).take(words.len() as int) =~= views(words@));
    let ghost tv = views(toks@);
    assert(tv == duration_tokens(text@));
    let mut j: usize = 0;
    while j < toks.len()
        invariant
            j <= toks.len(),
            tv == views(toks@),
            tv == duration_tokens(text@),
            compact_from(tv, 0) == compact_from(tv, j as int),
        decreases toks.len() - j,
    {
        assert(tv[j as int] == toks@[j as int]@);
        match compact_duration_chars(&toks[j]) {
            Some(v) => {
                return Some(v);
            },
            None => {},
        }
        j += 1;
    }
    let mut k: usize = 0;
    while k < toks.len() && k + 1 < toks.len()
        invariant
            tv == views(toks@),
            tv == duration_tokens(text@),
            compact_from(tv, 0) == None::<u64>,
            pair_from(tv, 0) == pair_from(tv, k as int),
        decreases toks.len() - k,
    {
        assert(tv[k as int] == toks@[k as int]@);
        assert(tv[k + 1] == toks@[k + 1]@);
        match parse_u64_chars(&toks[k]) {
            Some(n) => {
                let unit = lower_chars(&toks[k + 1]);
                match unit_seconds_exec(&unit) {
                    Some(m) => {
                        return Some(sat_mul_exec(n, m));
                    },
                    None => {},
                }
            },
            None => {},
        }
        k += 1;
    }
    None
}

/// How long an SA has been up, in seconds, read from its status text.
pub fn parse_active_for_seconds(text: &str) -> (r: Option<u64>)
    ensures
        r == active_for_seconds(text@),
{
    let v = str_chars(text);
    active_for_seconds_chars(&v)
}

// ───────────────────────────── counters ─────────────────────────────

/// The first token of `toks[j..]` that reads as a `u64`.
pub open spec fn first_number_from(toks: Seq<Seq<char>>, j: int) -> Option<u64>
    decreases toks.len() - j,
{
    if j < 0 || j >= toks.len() {
        None
    } else {
        match parse_u64(toks[j]) {
            Some(v) => Some(v),
            None => first_number_from(toks, j + 1),
        }
    }
}

/// The value of the counter `marker` among the comma-separated parts `parts[i..]`.
pub open spec fn counter_from(parts: Seq<Seq<char>>, marker: Seq<char>, i: int) -> u64
    decreases parts.len() - i,
{
    if i < 0 || i >= parts.len() {
        0
    } else {
        let t = trim(parts[i]);
        if contains(t, marker) {
            match first_number_from(tokens(t), 0) {
                Some(v) => v,
                None => counter_from(parts, marker, i + 1),
            }
        } else {
            counter_from(parts, marker, i + 1)
        }
    }
}

/// The value of a counter in a status line: the first number of the first
/// comma-separated part that mentions `marker` and has one; 0 when none does.
pub open spec fn counter_value(text: Seq<char>, marker: Seq<char>) -> u64 {
    counter_from(split(text, ','), marker, 0)
}

fn first_number_exec(toks: &Vec<Vec<char>>) -> (r: Option<u64>)
    ensures
        r == first_number_from(views(toks@), 0),
{
    let mut j: usize = 0;
    while j < toks.len()
        invariant
            j <= toks.len(),
            first_number_from(views(toks@), 0) == first_number_from(views(toks@), j as int),
        decreases toks.len() - j,
    {
        assert(views(toks@)[j as int] == toks@[j as int]@);
        match parse_u64_chars(&toks[j]) {
            Some(v) => {
                return Some(v);
            },
            None => {},
        }
        j += 1;
    }
    None
}

pub fn counter_value_chars(text: &Vec<char>, marker: &Vec<char>) -> (r: u64)
    ensures
        r == counter_value(text@, marker@),
{
    let parts = split_chars(text, ',');
    let ghost pv = views(parts@);
    let mut i: usize = 0;
    while i < parts.len()
        invariant
            i <= parts.len(),
            pv == views(parts@),
            counter_value(text@, marker@) == counter_from(pv, marker@, i as int),
        decreases parts.len() - i,
    {
        assert(pv[i as int] == parts@[i as int]@);
        let t = trim_chars(&parts[i]);
        if crate::text::contains_sub(&t, marker) {
            let toks = tokens_chars(&t);
            match first_number_exec(&toks) {
                Some(v) => {
                    return v;
                },
                None => {},
            }
        }
        i += 1;
    }
    0
}

/// The value of the counter `marker` (such as `packets_i`) in a status line, or 0.
pub fn parse_counter_value(text: &str, marker: &str) -> (r: u64)
    ensures
        r == counter_value(text@, marker@),
{
    let t = str_chars(text);
    let m = str_chars(marker);
    counter_value_chars(&t, &m)
}


// ───────────────────────────── SA lines ─────────────────────────────

/// Name and state of an IKE SA header line `name: #N, STATE, ...`: the text before the
/// first `:`, trimmed, and the second comma-separated field after it, trimmed
/// (`UNKNOWN` when there is none).
pub open spec fn ike_header(line: Seq<char>) -> (Seq<char>, Seq<char>) {
    let rest = if has_char(line, ':') {
        after_first(line, ':')
    } else {
        seq![]
    };
    (header_name(line), sa_state(rest))
}

pub fn ike_header_chars(line: &Vec<char>) -> (r: (Vec<char>, Vec<char>))
    ensures
        (r.0@, r.1@) == ike_header(line@),
{
    let name = header_name_exec(line);
    let rest = if contains_char(line, ':') {
        after_first_exec(line, ':')
    } else {
        Vec::new()
    };
    assert(!has_char(line@, ':') ==> rest@ =~= Seq::<char>::empty());
    let state = sa_state_exec(&rest);
    (name, state)
}

/// Splits an IKE SA header line into the peer name and the IKE state.
pub fn parse_ike_header_line(line: &str) -> (r: (String, String))
    ensures
        (r.0@, r.1@) == ike_header(line@),
{
    let v = str_chars(line);
    let (n, st) = ike_header_chars(&v);
    (chars_to_string(&n), chars_to_string(&st))
}

pub open spec fn child_model(name: Seq<char>, state: Seq<char>, line: Seq<char>) -> ChildModel {
    ChildModel {
        name,
        state,
        active: active_state(state),
        active_for_seconds: active_for_seconds(line),
        packets_in: counter_value(line, "packets_i"@),
        packets_out: counter_value(line, "packets_o"@),
    }
}

/// The CHILD SA of `peer` that a status line describes, in either of two forms:
/// the older `peer{N}: STATE, ...` and the newer `peer: #N, reqid X, STATE, ...`.
pub open spec fn child_line(line: Seq<char>, peer: Seq<char>) -> Option<ChildModel> {
    if !has_char(line, ':') {
        None
    } else {
        let left = header_name(line);
        let right = after_first(line, ':');
        if has_char(left, '{') && has_char(left, '}') {
            if trim(split(left, '{')[0]) != peer {
                None
            } else {
                Some(child_model(left, trim(split(right, ',')[0]), line))
            }
        } else if left == peer && starts_with(trim_start(right), "#"@) && contains(
            right,
            "reqid"@,
        ) {
            let p = split(right, ',');
            Some(
                child_model(
                    left,
                    if p.len() > 2 {
                        trim(p[2])
                    } else {
                        "UNKNOWN"@
                    },
                    line,
                ),
            )
        } else {
            None
        }
    }
}

fn make_child(name: &Vec<char>, state: &Vec<char>, line: &Vec<char>) -> (c: ChildRuntimeStatus)
    ensures
        c@ == child_model(name@, state@, line@),
{
    let pi = str_chars("packets_i");
    let po = str_chars("packets_o");
    ChildRuntimeStatus {
        name: chars_to_string(name),
        state: chars_to_string(state),
        active: is_sa_active_state_chars(state),
        active_for_seconds: active_for_seconds_chars(line),
        packets_in: counter_value_chars(line, &pi),
        packets_out: counter_value_chars(line, &po),
    }
}

pub fn child_line_chars(line: &Vec<char>, peer: &Vec<char>) -> (r: Option<ChildRuntimeStatus>)
    ensures
        match r {
            Some(c) => child_line(line@, peer@) == Some(c@),
            None => child_line(line@, peer@) == None::<ChildModel>,
        },
{
    if !contains_char(line, ':') {
        return None;
    }
    let left = header_name_exec(line);
    let right = after_first_exec(line, ':');
    if contains_char(&left, '{') && contains_char(&left, '}') {
        let parts = split_chars(&left, '{');
        proof {
            lemma_split_acc_nonempty(left@, '{', seq![]);
        }
        assert(views(parts@)[0] == parts@[0]@);
        let prefix = trim_chars(&parts[0]);
        if !chars_eq(&prefix, peer) {
            return None;
        }
        let rparts = split_chars(&right, ',');
        proof {
            lemma_split_acc_nonempty(right@, ',', seq![]);
        }
        assert(views(rparts@)[0] == rparts@[0]@);
        let state = trim_chars(&rparts[0]);
        Some(make_child(&left, &state, line))
    } else {
        let rt = trim_start_chars(&right);
        if chars_eq(&left, peer) && starts_with_str(&rt, "#") && contains_str(&right, "reqid") {
            let p = split_chars(&right, ',');
            let state = if p.len() > 2 {
                assert(views(p@)[2] == p@[2]@);
                trim_chars(&p[2])
            } else {
                str_chars("UNKNOWN")
            };
            Some(make_child(&left, &state, line))
        } else {
            None
        }
    }
}

/// The CHILD SA of `peer_name` that a status line describes, if it describes one.
pub fn parse_child_sa_line(line: &str, peer_name: &str) -> (r: Option<ChildRuntimeStatus>)
    ensures
        match r {
            Some(c) => child_line(line@, peer_name@) == Some(c@),
            None => child_line(line@, peer_name@) == None::<ChildModel>,
        },
{
    let l = str_chars(line);
    let p = str_chars(peer_name);
    child_line_chars(&l, &p)
}

// ───────────────────────────── peers ─────────────────────────────

pub struct PeersState {
    pub peers: Seq<PeerModel>,
    pub cur: Option<PeerModel>,
}

pub open spec fn peer_header(t: Seq<char>) -> PeerModel {
    let (name, state) = ike_header(t);
    PeerModel {
        peer_name: name,
        phase1_state: state,
        phase1_active: active_state(state),
        phase1_active_for_seconds: active_for_seconds(t),
        phase1_packets_in: counter_value(t, "packets_i"@),
        phase1_packets_out: counter_value(t, "packets_o"@),
        child_sas: seq![],
    }
}

/// How one line of `--list-sas` output changes the parse: a header line (not indented,
/// with `: #`) opens a peer; any other line may add a CHILD SA to the open peer.
pub open spec fn peers_step(st: PeersState, raw: Seq<char>) -> PeersState {
    let t = trim(raw);
    if t.len() == 0 {
        st
    } else if is_top_level(raw) && contains(t, ": #"@) {
        let peers = match st.cur {
            Some(p) => st.peers.push(p),
            None => st.peers,
        };
        PeersState { peers, cur: Some(peer_header(t)) }
    } else {
        match st.cur {
            Some(p) => match child_line(t, p.peer_name) {
                Some(c) => PeersState {
                    peers: st.peers,
                    cur: Some(PeerModel { child_sas: p.child_sas.push(c), ..p }),
                },
                None => st,
            },
            None => st,
        }
    }
}

pub open spec fn peers_fold(ls: Seq<Seq<char>>) -> PeersState
    decreases ls.len(),
{
    if ls.len() == 0 {
        PeersState { peers: seq![], cur: None }
    } else {
        peers_step(peers_fold(ls.drop_last()), ls.last())
    }
}

/// The IKE SAs of `--list-sas` output, each with its CHILD SAs, in order.
pub open spec fn runtime_statuses(output: Seq<char>) -> Seq<PeerModel> {
    let st = peers_fold(lines(output));
    match st.cur {
        Some(p) => st.peers.push(p),
        None => st.peers,
    }
}

fn make_peer(
    name: &Vec<char>,
    state: &Vec<char>,
    afs: Option<u64>,
    pin: u64,
    pout: u64,
    children: Vec<ChildRuntimeStatus>,
) -> (p: PeerRuntimeStatus)
    ensures
        p@ == (PeerModel {
            peer_name: name@,
            phase1_state: state@,
            phase1_active: active_state(state@),
            phase1_active_for_seconds: afs,
            phase1_packets_in: pin,
            phase1_packets_out: pout,
            child_sas: child_views(children@),
        }),
{
    PeerRuntimeStatus {
        peer_name: chars_to_string(name),
        phase1_state: chars_to_string(state),
        phase1_active: is_sa_active_state_chars(state),
        phase1_active_for_seconds: afs,
        phase1_packets_in: pin,
        phase1_packets_out: pout,
        child_sas: children,
    }
}

/// Parses `swanctl --list-sas` output into the runtime status of each IKE SA.
pub fn parse_peer_runtime_statuses(output: &str) -> (r: Vec<PeerRuntimeStatus>)
    ensures
        peer_views(r@) == runtime_statuses(output@),
{
    let ls = lines_str(output);
    let pi = str_chars("packets_i");
    let po = str_chars("packets_o");
    let mut peers: Vec<PeerRuntimeStatus> = Vec::new();
    let mut have = false;
    let mut name: Vec<char> = Vec::new();
    let mut state: Vec<char> = Vec::new();
    let mut afs: Option<u64> = None;
    let mut pin: u64 = 0;
    let mut pout: u64 = 0;
    let mut children: Vec<ChildRuntimeStatus> = Vec::new();
    let mut i: usize = 0;
    assert(peer_views(peers@) =~= Seq::<PeerModel>::empty());
    assert(views(ls@).take(0) =~= Seq::<Seq<char>>::empty());
    while i < ls.len()
        invariant
            i <= ls.len(),
            pi@ == "packets_i"@,
            po@ == "packets_o"@,
            peers_fold(views(ls@).take(i as int)) == (PeersState {
                peers: peer_views(peers@),
                cur: if have {
                    Some(
                        PeerModel {
                            peer_name: name@,
                            phase1_state: state@,
                            phase1_active: active_state(state@),
                            phase1_active_for_seconds: afs,
                            phase1_packets_in: pin,
                            phase1_packets_out: pout,
                            child_sas: child_views(children@),
                        },
                    )
                } else {
                    None
                },
            }),
        decreases ls.len() - i,
    {
        let raw = &ls[i];
        assert(views(ls@).take(i + 1).drop_last() =~= views(ls@).take(i as int));
        assert(views(ls@).take(i + 1).last() == raw@);
        let t = trim_chars(raw);
        if t.len() == 0 {
        } else if is_top_level_exec(raw) && contains_str(&t, ": #") {
            if have {
                let ghost old = peers@;
                let done = make_peer(&name, &state, afs, pin, pout, children);
                peers.push(done);
                assert(peer_views(peers@) =~= peer_views(old).push(done@));
            }
            let (n, st) = ike_header_chars(&t);
            name = n;
            state = st;
            afs = active_for_seconds_chars(&t);
            pin = counter_value_chars(&t, &pi);
            pout = counter_value_chars(&t, &po);
            children = Vec::new();
            have = true;
            assert(child_views(children@) =~= Seq::<ChildModel>::empty());
        } else if have {
            match child_line_chars(&t, &name) {
                Some(c) => {
                    let ghost old = children@;
                    children.push(c);
                    assert(child_views(children@) =~= child_views(old).push(c@));
                },
                None => {},
            }
        }
        i += 1;
    }
    assert(views(ls@).take(ls.len() as int) =~= views(ls@));
    if have {
        let ghost old = peers@;
        let done = make_peer(&name, &state, afs, pin, pout, children);
        peers.push(done);
        assert(peer_views(peers@) =~= peer_views(old).push(done@));
    }
    peers
}


// ───────────────────────────── status report ─────────────────────────────

pub struct PhaseModel {
    pub state: Seq<char>,
    pub active: bool,
    pub active_for_seconds: Option<u64>,
    pub packets_in: u64,
    pub packets_out: u64,
}

pub struct RulesModel {
    pub firewall: Seq<Seq<char>>,
    pub filter: Seq<Seq<char>>,
    pub nat: Seq<Seq<char>>,
}

pub struct StatusModel {
    pub peer_name: Seq<char>,
    pub phase1: PhaseModel,
    pub phase2: PhaseModel,
    pub child_sas: Seq<ChildModel>,
    pub firewall_rules: RulesModel,
}

pub open spec fn strings(v: Seq<String>) -> Seq<Seq<char>> {
    v.map_values(|s: String| s@)
}

impl View for PeerPhaseStatusResponse {
    type V = PhaseModel;

    open spec fn view(&self) -> PhaseModel {
        PhaseModel {
            state: self.state@,
            active: self.active,
            active_for_seconds: self.active_for_seconds,
            packets_in: self.packets_in,
            packets_out: self.packets_out,
        }
    }
}

impl View for ChildSaStatusResponse {
    type V = ChildModel;

    open spec fn view(&self) -> ChildModel {
        ChildModel {
            name: self.name@,
            state: self.state@,
            active: self.active,
            active_for_seconds: self.active_for_seconds,
            packets_in: self.packets_in,
            packets_out: self.packets_out,
        }
    }
}

impl View for FirewallRulesResponse {
    type V = RulesModel;

    open spec fn view(&self) -> RulesModel {
        RulesModel {
            firewall: strings(self.firewall@),
            filter: strings(self.filter@),
            nat: strings(self.nat@),
        }
    }
}

impl View for FirewallRulesSnapshot {
    type V = RulesModel;

    open spec fn view(&self) -> RulesModel {
        RulesModel {
            firewall: strings(self.firewall@),
            filter: strings(self.filter@),
            nat: strings(self.nat@),
        }
    }
}

impl View for PeerStatusResponse {
    type V = StatusModel;

    open spec fn view(&self) -> StatusModel {
        StatusModel {
            peer_name: self.peer_name@,
            phase1: self.phase1@,
            phase2: self.phase2@,
            child_sas: self.child_sas@.map_values(|c: ChildSaStatusResponse| c@),
            firewall_rules: self.firewall_rules@,
        }
    }
}

/// `a + b`, or `u64::MAX` when it does not fit.
pub open spec fn sat_add(a: u64, b: u64) -> u64 {
    if a + b > u64::MAX {
        u64::MAX
    } else {
        (a + b) as u64
    }
}

/// The longer of two optional durations; a known one wins over an unknown one.
pub open spec fn max_duration(a: Option<u64>, b: Option<u64>) -> Option<u64> {
    match (a, b) {
        (Some(x), Some(y)) => Some(if x >= y { x } else { y }),
        (None, Some(y)) => Some(y),
        (x, None) => x,
    }
}

/// Phase 2 summary after one more CHILD SA: packet counts add up (saturating);
/// an active child makes the phase `INSTALLED` and active; otherwise a phase still
/// `DOWN` takes the child's state.
pub open spec fn phase2_step(p: PhaseModel, c: ChildModel) -> PhaseModel {
    PhaseModel {
        packets_in: sat_add(p.packets_in, c.packets_in),
        packets_out: sat_add(p.packets_out, c.packets_out),
        active: p.active || c.active,
        state: if c.active {
            "INSTALLED"@
        } else if p.state == "DOWN"@ {
            c.state
        } else {
            p.state
        },
        active_for_seconds: max_duration(p.active_for_seconds, c.active_for_seconds),
    }
}

pub open spec fn phase2_fold(children: Seq<ChildModel>) -> PhaseModel
    decreases children.len(),
{
    if children.len() == 0 {
        PhaseModel {
            state: "DOWN"@,
            active: false,
            active_for_seconds: None,
            packets_in: 0,
            packets_out: 0,
        }
    } else {
        phase2_step(phase2_fold(children.drop_last()), children.last())
    }
}

/// The lines that mention `peer`, ignoring ASCII case, in order.
pub open spec fn lines_mentioning(ls: Seq<Seq<char>>, peer: Seq<char>) -> Seq<Seq<char>>
    decreases ls.len(),
{
    if ls.len() == 0 {
        seq![]
    } else {
        let p = lines_mentioning(ls.drop_last(), peer);
        if contains(lower(ls.last()), lower(peer)) {
            p.push(ls.last())
        } else {
            p
        }
    }
}

pub open spec fn rules_for_peer(snapshot: RulesModel, peer: Seq<char>) -> RulesModel {
    RulesModel {
        firewall: lines_mentioning(snapshot.firewall, peer),
        filter: lines_mentioning(snapshot.filter, peer),
        nat: lines_mentioning(snapshot.nat, peer),
    }
}

/// The status report of a peer: phase 1 as the IKE SA reports it, phase 2 summed
/// over the CHILD SAs, the CHILD SAs themselves, and the firewall rules that mention
/// the peer.
pub open spec fn peer_status(runtime: PeerModel, snapshot: RulesModel) -> StatusModel {
    StatusModel {
        peer_name: runtime.peer_name,
        phase1: PhaseModel {
            state: runtime.phase1_state,
            active: runtime.phase1_active,
            active_for_seconds: runtime.phase1_active_for_seconds,
            packets_in: runtime.phase1_packets_in,
            packets_out: runtime.phase1_packets_out,
        },
        phase2: phase2_fold(runtime.child_sas),
        child_sas: runtime.child_sas,
        firewall_rules: rules_for_peer(snapshot, runtime.peer_name),
    }
}

fn filter_lines(ls: &Vec<String>, needle: &Vec<char>, peer: Ghost<Seq<char>>) -> (r: Vec<String>)
    requires
        needle@ == lower(peer@),
    ensures
        strings(r@) == lines_mentioning(strings(ls@), peer@),
{
    let mut out: Vec<String> = Vec::new();
    let mut i: usize = 0;
    assert(strings(out@) =~= lines_mentioning(strings(ls@).take(0), peer@));
    while i < ls.len()
        invariant
            i <= ls.len(),
            needle@ == lower(peer@),
            strings(out@) == lines_mentioning(strings(ls@).take(i as int), peer@),
        decreases ls.len() - i,
    {
        let line = &ls[i];
        let lc = str_chars(line.as_str());
        let low = lower_chars(&lc);
        assert(strings(ls@).take(i + 1).drop_last() =~= strings(ls@).take(i as int));
        assert(strings(ls@).take(i + 1).last() == line@);
        if crate::text::contains_sub(&low, needle) {
            let ghost old = out@;
            out.push(line.clone());
            assert(strings(out@) =~= strings(old).push(line@));
        }
        i += 1;
    }
    assert(strings(ls@).take(ls.len() as int) =~= strings(ls@));
    out
}

/// The lines of each firewall table that mention `peer_name`, ignoring ASCII case.
pub fn filter_rules_for_peer(snapshot: &FirewallRulesSnapshot, peer_name: &str) -> (r:
    FirewallRulesResponse)
    ensures
        r@ == rules_for_peer(snapshot@, peer_name@),
{
    let p = str_chars(peer_name);
    let needle = lower_chars(&p);
    FirewallRulesResponse {
        firewall: filter_lines(&snapshot.firewall, &needle, Ghost(peer_name@)),
        filter: filter_lines(&snapshot.filter, &needle, Ghost(peer_name@)),
        nat: filter_lines(&snapshot.nat, &needle, Ghost(peer_name@)),
    }
}

/// Builds the status report of a peer from its runtime status and the firewall rules.
pub fn build_peer_status_response(runtime: PeerRuntimeStatus, firewall_snapshot: &FirewallRulesSnapshot) -> (r:
    PeerStatusResponse)
    ensures
        r@ == peer_status(runtime@, firewall_snapshot@),
{
    let ghost cv = child_views(runtime.child_sas@);
    let mut p_in: u64 = 0;
    let mut p_out: u64 = 0;
    let mut afs: Option<u64> = None;
    let mut active = false;
    let mut state = str_chars("DOWN");
    let mut children: Vec<ChildSaStatusResponse> = Vec::new();
    let mut i: usize = 0;
    assert(children@.map_values(|c: ChildSaStatusResponse| c@) =~= cv.take(0));
    while i < runtime.child_sas.len()
        invariant
            i <= runtime.child_sas.len(),
            cv == child_views(runtime.child_sas@),
            phase2_fold(cv.take(i as int)) == (PhaseModel {
                state: state@,
                active,
                active_for_seconds: afs,
                packets_in: p_in,
                packets_out: p_out,
            }),
            children@.map_values(|c: ChildSaStatusResponse| c@) == cv.take(i as int),
        decreases runtime.child_sas.len() - i,
    {
        let child = &runtime.child_sas[i];
        assert(cv.take(i + 1).drop_last() =~= cv.take(i as int));
        assert(cv.take(i + 1).last() == child@);
        p_in = p_in.saturating_add(child.packets_in);
        p_out = p_out.saturating_add(child.packets_out);
        if child.active {
            active = true;
            state = str_chars("INSTALLED");
        } else if chars_eq_str(&state, "DOWN") {
            state = str_chars(child.state.as_str());
        }
        afs = match (afs, child.active_for_seconds) {
            (Some(x), Some(y)) => Some(if x >= y { x } else { y }),
            (None, Some(y)) => Some(y),
            (x, None) => x,
        };
        let ghost old = children@;
        children.push(ChildSaStatusResponse {
            name: child.name.clone(),
            state: child.state.clone(),
            active: child.active,
            active_for_seconds: child.active_for_seconds,
            packets_in: child.packets_in,
            packets_out: child.packets_out,
        });
        assert(children@.map_values(|c: ChildSaStatusResponse| c@) =~= old.map_values(|c: ChildSaStatusResponse| c@).push(child@));
        i += 1;
    }
    assert(cv.take(runtime.child_sas.len() as int) =~= cv);
    let rules = filter_rules_for_peer(firewall_snapshot, runtime.peer_name.as_str());
    PeerStatusResponse {
        peer_name: runtime.peer_name,
        phase1: PeerPhaseStatusResponse {
            state: runtime.phase1_state,
            active: runtime.phase1_active,
            active_for_seconds: runtime.phase1_active_for_seconds,
            packets_in: runtime.phase1_packets_in,
            packets_out: runtime.phase1_packets_out,
        },
        phase2: PeerPhaseStatusResponse {
            state: chars_to_string(&state),
            active,
            active_for_seconds: afs,
            packets_in: p_in,
            packets_out: p_out,
        },
        child_sas: children,
        firewall_rules: rules,
    }
}


// ───────────────────────────── the status of peers ─────────────────────────────

/// A peer with no IKE SA: down, inactive, without counters or CHILD SAs.
pub open spec fn down_model(name: Seq<char>) -> PeerModel {
    PeerModel {
        peer_name: name,
        phase1_state: "DOWN"@,
        phase1_active: false,
        phase1_active_for_seconds: None,
        phase1_packets_in: 0,
        phase1_packets_out: 0,
        child_sas: seq![],
    }
}

pub fn down_status(name: &str) -> (p: PeerRuntimeStatus)
    ensures
        p@ == down_model(name@),
{
    let p = PeerRuntimeStatus {
        peer_name: owned(name),
        phase1_state: owned("DOWN"),
        phase1_active: false,
        phase1_active_for_seconds: None,
        phase1_packets_in: 0,
        phase1_packets_out: 0,
        child_sas: Vec::new(),
    };
    assert(child_views(p.child_sas@) =~= Seq::<ChildModel>::empty());
    p
}

/// The first IKE SA named `name`, if any.
pub open spec fn first_named(ps: Seq<PeerModel>, name: Seq<char>) -> Option<PeerModel>
    decreases ps.len(),
{
    if ps.len() == 0 {
        None
    } else if ps[0].peer_name == name {
        Some(ps[0])
    } else {
        first_named(ps.drop_first(), name)
    }
}

/// The status of peer `name` from the run of `swanctl --list-sas --ike <name>`: a
/// failed run with no output that says `not found` means the peer is down; any
/// other failure is an error (its error output, or a generic message); a
/// successful run gives the first IKE SA of that name, or down without one.
pub open spec fn peer_status_of(name: Seq<char>, status_code: Option<i32>, stdout: Seq<char>, stderr: Seq<char>) -> Result<PeerModel, Seq<char>> {
    if status_code != Some(0i32) {
        if stdout.len() == 0 && contains(lower(stderr), "not found"@) {
            Ok(down_model(name))
        } else if stderr.len() == 0 {
            Err("swanctl --list-sas --ike "@ + name + " fallo sin detalle"@)
        } else {
            Err(stderr)
        }
    } else {
        match first_named(runtime_statuses(stdout), name) {
            Some(p) => Ok(p),
            None => Ok(down_model(name)),
        }
    }
}

pub fn peer_status_from_output(peer_name: &str, status_code: Option<i32>, stdout: &str, stderr: &str) -> (r: Result<PeerRuntimeStatus, String>)
    ensures
        match r {
            Ok(p) => peer_status_of(peer_name@, status_code, stdout@, stderr@) == Ok::<PeerModel, Seq<char>>(p@),
            Err(e) => peer_status_of(peer_name@, status_code, stdout@, stderr@) == Err::<PeerModel, Seq<char>>(e@),
        },
{
    if status_code != Some(0i32) {
        let low = lower_chars(&str_chars(stderr));
        if stdout.is_empty() && contains_str(&low, "not found") {
            return Ok(down_status(peer_name));
        }
        if stderr.is_empty() {
            let mut m = str_chars("swanctl --list-sas --ike ");
            crate::text::append_str(&mut m, peer_name);
            crate::text::append_str(&mut m, " fallo sin detalle");
            return Err(chars_to_string(&m));
        }
        return Err(owned(stderr));
    }
    let parsed = parse_peer_runtime_statuses(stdout);
    let ghost pv = peer_views(parsed@);
    let want = str_chars(peer_name);
    let mut i: usize = 0;
    assert(pv.skip(0) =~= pv);
    while i < parsed.len()
        invariant
            i <= parsed.len(),
            pv == peer_views(parsed@),
            pv == runtime_statuses(stdout@),
            status_code == Some(0i32),
            want@ == peer_name@,
            first_named(pv, peer_name@) == first_named(pv.skip(i as int), peer_name@),
        decreases parsed.len() - i,
    {
        assert(pv.skip(i as int).drop_first() =~= pv.skip(i + 1));
        assert(pv.skip(i as int)[0] == parsed@[i as int]@);
        if chars_eq(&str_chars(parsed[i].peer_name.as_str()), &want) {
            let p = clone_peer(&parsed[i]);
            return Ok(p);
        }
        i += 1;
    }
    Ok(down_status(peer_name))
}

fn clone_child(c: &ChildRuntimeStatus) -> (r: ChildRuntimeStatus)
    ensures
        r@ == c@,
{
    ChildRuntimeStatus {
        name: c.name.clone(),
        state: c.state.clone(),
        active: c.active,
        active_for_seconds: c.active_for_seconds,
        packets_in: c.packets_in,
        packets_out: c.packets_out,
    }
}

fn clone_peer(p: &PeerRuntimeStatus) -> (r: PeerRuntimeStatus)
    ensures
        r@ == p@,
{
    let mut children: Vec<ChildRuntimeStatus> = Vec::new();
    let mut i: usize = 0;
    while i < p.child_sas.len()
        invariant
            i <= p.child_sas.len(),
            child_views(children@) == child_views(p.child_sas@).take(i as int),
        decreases p.child_sas.len() - i,
    {
        let ghost o = children@;
        children.push(clone_child(&p.child_sas[i]));
        assert(child_views(children@) =~= child_views(o).push(p.child_sas@[i as int]@));
        assert(child_views(p.child_sas@).take(i + 1) =~= child_views(p.child_sas@).take(i as int).push(p.child_sas@[i as int]@));
        i += 1;
    }
    assert(child_views(p.child_sas@).take(p.child_sas.len() as int) =~= child_views(p.child_sas@));
    PeerRuntimeStatus {
        peer_name: p.peer_name.clone(),
        phase1_state: p.phase1_state.clone(),
        phase1_active: p.phase1_active,
        phase1_active_for_seconds: p.phase1_active_for_seconds,
        phase1_packets_in: p.phase1_packets_in,
        phase1_packets_out: p.phase1_packets_out,
        child_sas: children,
    }
}

/// The name a line of `swanctl --list-conns` declares: a line that is not indented
/// and holds a colon declares the trimmed text before it, when that is not empty.
pub open spec fn declared_name(raw: Seq<char>) -> Option<Seq<char>> {
    let t = trim(raw);
    if t.len() == 0 || (raw.len() > 0 && (raw[0] == ' ' || raw[0] == '\t')) || !has_char(t, ':') {
        None
    } else {
        let n = trim(split(t, ':')[0]);
        if n.len() > 0 {
            Some(n)
        } else {
            None
        }
    }
}

/// The names declared by the lines, in order.
pub open spec fn declared_names(ls: Seq<Seq<char>>) -> Seq<Seq<char>>
    decreases ls.len(),
{
    if ls.len() == 0 {
        seq![]
    } else {
        let p = declared_names(ls.drop_last());
        match declared_name(ls.last()) {
            Some(n) => p.push(n),
            None => p,
        }
    }
}

fn declared_name_exec(raw: &Vec<char>) -> (r: Option<Vec<char>>)
    ensures
        crate::models::opt_chars(r) == declared_name(raw@),
{
    let t = trim_chars(raw);
    if t.len() == 0 || (raw.len() > 0 && (raw[0] == ' ' || raw[0] == '\t')) || !contains_char(&t, ':') {
        return None;
    }
    let parts = split_chars(&t, ':');
    proof {
        lemma_split_acc_nonempty(t@, ':', seq![]);
    }
    assert(views(parts@)[0] == parts@[0]@);
    let n = trim_chars(&parts[0]);
    if n.len() > 0 {
        Some(n)
    } else {
        None
    }
}

/// The peers configured in swanctl, from the output of `swanctl --list-conns`:
/// the declared names, sorted, each once.
pub fn configured_peer_names(list_conns: &str) -> (r: Vec<String>)
    ensures
        crate::listing::strictly_ascending(crate::connections::string_views(r@)),
        forall|y: Seq<char>| #[trigger] crate::connections::string_views(r@).contains(y) <==> declared_names(lines(list_conns@)).contains(y),
{
    let ls = lines_str(list_conns);
    let ghost lv = views(ls@);
    let mut names: Vec<String> = Vec::new();
    let mut i: usize = 0;
    assert(lv.take(0) =~= Seq::<Seq<char>>::empty());
    assert(crate::connections::string_views(names@) =~= Seq::<Seq<char>>::empty());
    while i < ls.len()
        invariant
            i <= ls.len(),
            lv == views(ls@),
            lv == lines(list_conns@),
            crate::connections::string_views(names@) == declared_names(lv.take(i as int)),
        decreases ls.len() - i,
    {
        assert(lv.take(i + 1).drop_last() =~= lv.take(i as int));
        assert(lv.take(i + 1).last() == ls@[i as int]@);
        match declared_name_exec(&ls[i]) {
            Some(n) => {
                let ghost o = names@;
                names.push(chars_to_string(&n));
                assert(crate::connections::string_views(names@) =~= crate::connections::string_views(o).push(n@));
            },
            None => {},
        }
        i += 1;
    }
    assert(lv.take(ls.len() as int) =~= lv);
    crate::listing::sorted_unique(&names)
}

/// The peers when swanctl cannot list them: the managed connections that are not
/// secrets, sorted, each once.
pub fn peer_names_from_managed(names: &Vec<String>) -> (r: Vec<String>)
    ensures
        crate::listing::strictly_ascending(crate::connections::string_views(r@)),
        forall|y: Seq<char>| #[trigger] crate::connections::string_views(r@).contains(y) <==> (
            crate::connections::string_views(names@).contains(y) && !starts_with(y, "secret-"@)),
{
    let ghost nv = crate::connections::string_views(names@);
    let mut kept: Vec<String> = Vec::new();
    let mut i: usize = 0;
    while i < names.len()
        invariant
            i <= names.len(),
            nv == crate::connections::string_views(names@),
            forall|y: Seq<char>| #[trigger] crate::connections::string_views(kept@).contains(y) <==> (
                nv.take(i as int).contains(y) && !starts_with(y, "secret-"@)),
        decreases names.len() - i,
    {
        let n = str_chars(names[i].as_str());
        let keep = !starts_with_str(&n, "secret-");
        let ghost o = crate::connections::string_views(kept@);
        if keep {
            kept.push(names[i].clone());
            assert(crate::connections::string_views(kept@) =~= o.push(nv[i as int]));
        }
        assert(nv.take(i + 1) =~= nv.take(i as int).push(nv[i as int]));
        assert forall|y: Seq<char>| #[trigger] crate::connections::string_views(kept@).contains(y) <==> (
            nv.take(i + 1).contains(y) && !starts_with(y, "secret-"@)) by {
            if nv.take(i + 1).contains(y) {
                let k = choose|k: int| 0 <= k < nv.take(i + 1).len() && #[trigger] nv.take(i + 1)[k] == y;
                if k < i {
                    assert(nv.take(i as int)[k] == y);
                }
            }
            if nv.take(i as int).contains(y) {
                let k = choose|k: int| 0 <= k < nv.take(i as int).len() && #[trigger] nv.take(i as int)[k] == y;
                assert(nv.take(i + 1)[k] == y);
            }
            if crate::connections::string_views(kept@).contains(y) {
                let k = choose|k: int| 0 <= k < crate::connections::string_views(kept@).len() && #[trigger] crate::connections::string_views(kept@)[k] == y;
                if keep && k == o.len() {
                    assert(nv.take(i + 1)[i as int] == y);
                } else {
                    assert(o[k] == y);
                }
            }
            if keep && y == nv[i as int] {
                assert(crate::connections::string_views(kept@)[o.len() as int] == y);
            }
            if o.contains(y) {
                let k = choose|k: int| 0 <= k < o.len() && #[trigger] o[k] == y;
                assert(crate::connections::string_views(kept@)[k] == y);
            }
        }
        i += 1;
    }
    assert(nv.take(names.len() as int) =~= nv);
    crate::listing::sorted_unique(&kept)
}


/// Where a peer goes among peers ordered by name: before the first one whose name
/// comes after its own.
pub open spec fn insert_pos(s: Seq<PeerModel>, x: PeerModel) -> int
    decreases s.len(),
{
    if s.len() == 0 {
        0
    } else if crate::listing::lex_lt(x.peer_name, s[0].peer_name) {
        0
    } else {
        1 + insert_pos(s.drop_first(), x)
    }
}

/// The peers ordered by name, peers of equal name keeping their order.
pub open spec fn sorted_by_name(s: Seq<PeerModel>) -> Seq<PeerModel>
    decreases s.len(),
{
    if s.len() == 0 {
        seq![]
    } else {
        let p = sorted_by_name(s.drop_last());
        p.insert(insert_pos(p, s.last()), s.last())
    }
}

/// The configured peers that are missing from `present`, each once, as down peers.
pub open spec fn missing_fold(present: Seq<Seq<char>>, configured: Seq<Seq<char>>) -> (Seq<Seq<char>>, Seq<PeerModel>)
    decreases configured.len(),
{
    if configured.len() == 0 {
        (present, seq![])
    } else {
        let st = missing_fold(present, configured.drop_last());
        let n = configured.last();
        if st.0.contains(n) {
            st
        } else {
            (st.0.push(n), st.1.push(down_model(n)))
        }
    }
}

pub open spec fn peer_names(ps: Seq<PeerModel>) -> Seq<Seq<char>> {
    ps.map_values(|p: PeerModel| p.peer_name)
}

/// The status of every peer: those with an IKE SA, then the configured ones
/// without one (as down), all ordered by name.
pub open spec fn all_statuses(parsed: Seq<PeerModel>, configured: Seq<Seq<char>>) -> Seq<PeerModel> {
    sorted_by_name(parsed + missing_fold(peer_names(parsed), configured).1)
}

proof fn lemma_insert_pos_bounds(s: Seq<PeerModel>, x: PeerModel)
    ensures
        0 <= insert_pos(s, x) <= s.len(),
    decreases s.len(),
{
    if s.len() > 0 && !crate::listing::lex_lt(x.peer_name, s[0].peer_name) {
        lemma_insert_pos_bounds(s.drop_first(), x);
    }
}

fn insert_by_name(v: &mut Vec<PeerRuntimeStatus>, x: PeerRuntimeStatus)
    ensures
        peer_views(final(v)@) == peer_views(old(v)@).insert(insert_pos(peer_views(old(v)@), x@), x@),
{
    let ghost o = peer_views(v@);
    let xn = str_chars(x.peer_name.as_str());
    let mut k: usize = 0;
    let mut found = false;
    assert(o.skip(0) =~= o);
    while k < v.len() && !found
        invariant
            k <= v.len(),
            v@ == old(v)@,
            o == peer_views(v@),
            xn@ == x@.peer_name,
            !found ==> insert_pos(o, x@) == k + insert_pos(o.skip(k as int), x@),
            found ==> insert_pos(o, x@) == k,
        decreases v.len() - k + (if found { 0int } else { 1int }),
    {
        assert(o.skip(k as int)[0] == v@[k as int]@);
        assert(o.skip(k as int).drop_first() =~= o.skip(k + 1));
        if crate::listing::lex_less_chars(&xn, &str_chars(v[k].peer_name.as_str())) {
            found = true;
        } else {
            k += 1;
        }
    }
    if !found {
        assert(o.skip(k as int) =~= Seq::<PeerModel>::empty());
    }
    proof {
        lemma_insert_pos_bounds(o, x@);
    }
    v.insert(k, x);
    assert(peer_views(v@) =~= o.insert(k as int, x@));
}

/// The status of every peer (see `all_statuses`), from the IKE SAs listed and the
/// names of the configured peers.
pub fn all_peer_statuses(parsed: Vec<PeerRuntimeStatus>, configured: &Vec<String>) -> (r: Vec<PeerRuntimeStatus>)
    ensures
        peer_views(r@) == all_statuses(peer_views(parsed@), crate::connections::string_views(configured@)),
{
    let ghost pv = peer_views(parsed@);
    let ghost cv = crate::connections::string_views(configured@);
    let mut seen: Vec<Vec<char>> = Vec::new();
    let mut j: usize = 0;
    while j < parsed.len()
        invariant
            j <= parsed.len(),
            pv == peer_views(parsed@),
            views(seen@) == peer_names(pv).take(j as int),
        decreases parsed.len() - j,
    {
        let ghost o = views(seen@);
        seen.push(str_chars(parsed[j].peer_name.as_str()));
        assert(views(seen@) =~= o.push(pv[j as int].peer_name));
        assert(peer_names(pv).take(j + 1) =~= peer_names(pv).take(j as int).push(pv[j as int].peer_name));
        j += 1;
    }
    assert(peer_names(pv).take(parsed.len() as int) =~= peer_names(pv));
    let mut all: Vec<PeerRuntimeStatus> = parsed;
    let mut i: usize = 0;
    assert(cv.take(0) =~= Seq::<Seq<char>>::empty());
    assert(peer_views(all@) =~= pv + missing_fold(peer_names(pv), cv.take(0)).1);
    while i < configured.len()
        invariant
            i <= configured.len(),
            cv == crate::connections::string_views(configured@),
            views(seen@) == missing_fold(peer_names(pv), cv.take(i as int)).0,
            peer_views(all@) == pv + missing_fold(peer_names(pv), cv.take(i as int)).1,
        decreases configured.len() - i,
    {
        assert(cv.take(i + 1).drop_last() =~= cv.take(i as int));
        assert(cv.take(i + 1).last() == configured@[i as int]@);
        let n = str_chars(configured[i].as_str());
        if !crate::text::vec_contains_chars(&seen, &n) {
            let ghost os = views(seen@);
            let ghost oa = peer_views(all@);
            let d = down_status(configured[i].as_str());
            seen.push(n);
            all.push(d);
            assert(views(seen@) =~= os.push(configured@[i as int]@));
            assert(peer_views(all@) =~= oa.push(down_model(configured@[i as int]@)));
            assert(pv + missing_fold(peer_names(pv), cv.take(i + 1)).1 =~= (pv + missing_fold(peer_names(pv), cv.take(i as int)).1).push(down_model(configured@[i as int]@)));
        }
        i += 1;
    }
    assert(cv.take(configured.len() as int) =~= cv);
    let ghost av = peer_views(all@);
    let mut r: Vec<PeerRuntimeStatus> = Vec::new();
    let mut k: usize = 0;
    assert(av.take(0) =~= Seq::<PeerModel>::empty());
    assert(peer_views(r@) =~= sorted_by_name(av.take(0)));
    while k < all.len()
        invariant
            k <= all.len(),
            av == peer_views(all@),
            peer_views(r@) == sorted_by_name(av.take(k as int)),
        decreases all.len() - k,
    {
        assert(av.take(k + 1).drop_last() =~= av.take(k as int));
        assert(av.take(k + 1).last() == all@[k as int]@);
        insert_by_name(&mut r, clone_peer(&all[k]));
        k += 1;
    }
    assert(av.take(all.len() as int) =~= av);
    r
}

} // verus!
