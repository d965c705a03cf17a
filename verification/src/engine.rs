//! Topology engine: reads `swanctl --list-conns` and `swanctl --list-sas`
//! output, builds the topology, and detects links that went down.
use vstd::prelude::*;

use crate::models::{
    opt_chars, opt_view, owned, BifrostTopology, EdgeModel, NetworkNode, NodeModel, NodeType,
    TopologyModel, VpnEdge, VpnStatus,
};
use crate::text::{
    append_chars, append_str, chars_eq, chars_eq_str, chars_to_string, char_is_alnum,
    contains_char, find, find_char, find_sub, has_char, index_of, is_ascii_alnum,
    lemma_split_acc_nonempty, lines, lines_str, split, split_chars, starts_with, starts_with_str,
    str_chars, strip_prefix_all, strip_prefix_all_chars, sub_chars, trim, trim_chars, views,
};

verus! {

/// A connection as configured in StrongSwan (`swanctl --list-conns`).
#[derive(Debug, Clone)]
pub struct ConnInfo {
    pub name: String,
    pub remote_hint: Option<String>,
}

/// An IKE SA reported by `swanctl --list-sas`.
#[derive(Debug, Clone)]
pub struct ActiveSa {
    pub name: String,
    pub state: String,
    pub remote_addr: Option<String>,
}

pub struct ConnModel {
    pub name: Seq<char>,
    pub remote_hint: Option<Seq<char>>,
}

pub struct SaModel {
    pub name: Seq<char>,
    pub state: Seq<char>,
    pub remote_addr: Option<Seq<char>>,
}

impl View for ConnInfo {
    type V = ConnModel;

    open spec fn view(&self) -> ConnModel {
        ConnModel { name: self.name@, remote_hint: opt_view(self.remote_hint) }
    }
}

impl View for ActiveSa {
    type V = SaModel;

    open spec fn view(&self) -> SaModel {
        SaModel { name: self.name@, state: self.state@, remote_addr: opt_view(self.remote_addr) }
    }
}

pub open spec fn conn_views(v: Seq<ConnInfo>) -> Seq<ConnModel> {
    v.map_values(|c: ConnInfo| c@)
}

pub open spec fn sa_views(v: Seq<ActiveSa>) -> Seq<SaModel> {
    v.map_values(|c: ActiveSa| c@)
}

/// A line of `swanctl` output that starts a new block: not indented.
pub open spec fn is_top_level(raw: Seq<char>) -> bool {
    !(raw.len() > 0 && (raw[0] == ' ' || raw[0] == '\t'))
}

// ───────────────────────────── --list-conns ─────────────────────────────

pub struct ConfState {
    pub conns: Seq<ConnModel>,
    pub name: Option<Seq<char>>,
    pub remote: Option<Seq<char>>,
}

/// The connection name of a header line `name: ...`.
pub open spec fn header_name(line: Seq<char>) -> Seq<char> {
    trim(split(line, ':')[0])
}

/// How one line of `--list-conns` output changes the parse.
pub open spec fn conf_step(st: ConfState, raw: Seq<char>) -> ConfState {
    let line = trim(raw);
    if line.len() == 0 {
        st
    } else if is_top_level(raw) && has_char(line, ':') {
        let conns = match st.name {
            Some(n) => st.conns.push(ConnModel { name: n, remote_hint: st.remote }),
            None => st.conns,
        };
        let remote = match st.name {
            Some(n) => None,
            None => st.remote,
        };
        let name = header_name(line);
        if name.len() > 0 {
            ConfState { conns, name: Some(name), remote: None }
        } else {
            ConfState { conns, name: None, remote }
        }
    } else if starts_with(line, "remote:"@) {
        let value = trim(strip_prefix_all(line, "remote:"@));
        if value.len() > 0 {
            ConfState { conns: st.conns, name: st.name, remote: Some(value) }
        } else {
            st
        }
    } else {
        st
    }
}

pub open spec fn conf_fold(ls: Seq<Seq<char>>) -> ConfState
    decreases ls.len(),
{
    if ls.len() == 0 {
        ConfState { conns: seq![], name: None, remote: None }
    } else {
        conf_step(conf_fold(ls.drop_last()), ls.last())
    }
}

/// The connections listed in `--list-conns` output, in order: each header line
/// `name: ...` opens a connection, and its last non-empty `remote:` line gives the
/// remote hint.
pub open spec fn configured_connections(output: Seq<char>) -> Seq<ConnModel> {
    let st = conf_fold(lines(output));
    match st.name {
        Some(n) => st.conns.push(ConnModel { name: n, remote_hint: st.remote }),
        None => st.conns,
    }
}

fn make_conn(name: &Vec<char>, remote: &Option<Vec<char>>) -> (c: ConnInfo)
    ensures
        c@ == (ConnModel { name: name@, remote_hint: opt_chars(*remote) }),
{
    let hint = match remote {
        Some(r) => Some(chars_to_string(r)),
        None => None,
    };
    ConnInfo { name: chars_to_string(name), remote_hint: hint }
}

pub fn is_top_level_exec(raw: &Vec<char>) -> (b: bool)
    ensures
        b == is_top_level(raw@),
{
    !(raw.len() > 0 && (raw[0] == ' ' || raw[0] == '\t'))
}

/// `name` of a header line: the text before the first `:`, trimmed.
pub fn header_name_exec(line: &Vec<char>) -> (r: Vec<char>)
    ensures
        r@ == header_name(line@),
{
    let parts = split_chars(line, ':');
    proof {
        lemma_split_acc_nonempty(line@, ':', seq![]);
    }
    assert(parts@[0]@ == split(line@, ':')[0]);
    trim_chars(&parts[0])
}

/// Parses `swanctl --list-conns` output into the configured connections.
pub fn parse_configured_connections(output: &str) -> (conns: Vec<ConnInfo>)
    ensures
        conn_views(conns@) == configured_connections(output@),
{
    let ls = lines_str(output);
    let mut conns: Vec<ConnInfo> = Vec::new();
    let mut cur_name: Option<Vec<char>> = None;
    let mut cur_remote: Option<Vec<char>> = None;
    let remote_key = str_chars("remote:");
    let mut i: usize = 0;
    assert(conn_views(conns@) =~= Seq::<ConnModel>::empty());
    assert(views(ls@).take(0) =~= Seq::<Seq<char>>::empty());
    while i < ls.len()
        invariant
            i <= ls.len(),
            remote_key@ == "remote:"@,
            conf_fold(views(ls@).take(i as int)) == (ConfState {
                conns: conn_views(conns@),
                name: opt_chars(cur_name),
                remote: opt_chars(cur_remote),
            }),
        decreases ls.len() - i,
    {
        let raw = &ls[i];
        assert(views(ls@).take(i + 1).drop_last() =~= views(ls@).take(i as int));
        assert(views(ls@).take(i + 1).last() == raw@);
        let line = trim_chars(raw);
        if line.len() == 0 {
        } else if is_top_level_exec(raw) && contains_char(&line, ':') {
            let ghost old_conns = conns@;
            match cur_name {
                Some(n) => {
                    let c = make_conn(&n, &cur_remote);
                    conns.push(c);
                    cur_remote = None;
                    assert(conn_views(conns@) =~= conn_views(old_conns).push(c@));
                },
                None => {},
            }
            let name = header_name_exec(&line);
            if name.len() > 0 {
                cur_name = Some(name);
                cur_remote = None;
            } else {
                cur_name = None;
            }
        } else if starts_with_str(&line, "remote:") {
            let stripped = strip_prefix_all_chars(&line, &remote_key);
            let value = trim_chars(&stripped);
            if value.len() > 0 {
                cur_remote = Some(value);
            }
        }
        i += 1;
    }
    assert(views(ls@).take(ls.len() as int) =~= views(ls@));
    match cur_name {
        Some(n) => {
            let ghost old_conns = conns@;
            let c = make_conn(&n, &cur_remote);
            conns.push(c);
            assert(conn_views(conns@) =~= conn_views(old_conns).push(c@));
        },
        None => {},
    }
    conns
}


// ───────────────────────────── --list-sas ─────────────────────────────

/// The address after `@ ` in a line `remote 'id' @ 203.0.113.10[4500]`, up to `[`.
pub open spec fn remote_ip(line: Seq<char>) -> Option<Seq<char>> {
    let k = find(line, "@ "@);
    if k < 0 {
        None
    } else {
        let tail = line.skip(k + 2);
        let e = index_of(tail, '[');
        let ip = trim(tail.take(
            if e < 0 {
                tail.len() as int
            } else {
                e
            },
        ));
        if ip.len() == 0 {
            None
        } else {
            Some(ip)
        }
    }
}

/// The text after the first `c` of `line`.
pub open spec fn after_first(line: Seq<char>, c: char) -> Seq<char> {
    line.skip(index_of(line, c) + 1)
}

/// The state field of an SA header: the second comma-separated field, trimmed.
pub open spec fn sa_state(rest: Seq<char>) -> Seq<char> {
    let p = split(rest, ',');
    if p.len() > 1 {
        trim(p[1])
    } else {
        "UNKNOWN"@
    }
}

pub struct SaState {
    pub result: Seq<SaModel>,
    pub cur: Option<(Seq<char>, Seq<char>)>,
    pub remote: Option<Seq<char>>,
}

/// How one line of `--list-sas` output changes the parse.
pub open spec fn sa_step(st: SaState, raw: Seq<char>) -> SaState {
    let line = trim(raw);
    if line.len() == 0 {
        st
    } else if is_top_level(raw) && has_char(line, ':') {
        let result = match st.cur {
            Some(c) => st.result.push(SaModel { name: c.0, state: c.1, remote_addr: st.remote }),
            None => st.result,
        };
        let remote = match st.cur {
            Some(c) => None,
            None => st.remote,
        };
        let name = header_name(line);
        if name.len() > 0 {
            SaState { result, cur: Some((name, sa_state(after_first(line, ':')))), remote: None }
        } else {
            SaState { result, cur: None, remote }
        }
    } else if starts_with(line, "remote "@) {
        SaState { result: st.result, cur: st.cur, remote: remote_ip(line) }
    } else {
        st
    }
}

pub open spec fn sa_fold(ls: Seq<Seq<char>>) -> SaState
    decreases ls.len(),
{
    if ls.len() == 0 {
        SaState { result: seq![], cur: None, remote: None }
    } else {
        sa_step(sa_fold(ls.drop_last()), ls.last())
    }
}

/// The SAs listed in `--list-sas` output, in order: each header line
/// `name: #N, STATE, ...` opens an SA, and its last `remote ...` line gives the address.
pub open spec fn active_sas(output: Seq<char>) -> Seq<SaModel> {
    let st = sa_fold(lines(output));
    match st.cur {
        Some(c) => st.result.push(SaModel { name: c.0, state: c.1, remote_addr: st.remote }),
        None => st.result,
    }
}

pub fn extract_remote_ip_chars(line: &Vec<char>) -> (r: Option<Vec<char>>)
    ensures
        opt_chars(r) == remote_ip(line@),
{
    let at = str_chars("@ ");
    match find_sub(line, &at) {
        None => None,
        Some(k) => {
            assert(k + 2 <= line.len()) by {
                reveal_strlit("@ ");
                crate::text::lemma_find_contains(line@, at@);
            }
            let tail = sub_chars(line, k + 2, line.len());
            assert(tail@ =~= line@.skip(k + 2));
            let e = match find_char(&tail, '[') {
                Some(e) => e,
                None => tail.len(),
            };
            let head = sub_chars(&tail, 0, e);
            assert(head@ =~= tail@.take(e as int));
            let ip = trim_chars(&head);
            if ip.len() == 0 {
                None
            } else {
                Some(ip)
            }
        },
    }
}

/// The remote address of a `remote 'id' @ address[port]` line, if any.
pub fn extract_remote_ip(line: &str) -> (r: Option<String>)
    ensures
        opt_view(r) == remote_ip(line@),
{
    let v = str_chars(line);
    match extract_remote_ip_chars(&v) {
        Some(ip) => Some(chars_to_string(&ip)),
        None => None,
    }
}

pub fn after_first_exec(line: &Vec<char>, c: char) -> (r: Vec<char>)
    requires
        has_char(line@, c),
    ensures
        r@ == after_first(line@, c),
{
    proof {
        crate::text::lemma_has_char_index(line@, c);
    }
    let k = find_char(line, c).unwrap();
    let r = sub_chars(line, k + 1, line.len());
    assert(r@ =~= line@.skip(k + 1));
    r
}

pub fn sa_state_exec(rest: &Vec<char>) -> (r: Vec<char>)
    ensures
        r@ == sa_state(rest@),
{
    let parts = split_chars(rest, ',');
    if parts.len() > 1 {
        assert(parts@[1]@ == split(rest@, ',')[1]);
        trim_chars(&parts[1])
    } else {
        str_chars("UNKNOWN")
    }
}

fn make_sa(name: &Vec<char>, state: &Vec<char>, remote: &Option<Vec<char>>) -> (c: ActiveSa)
    ensures
        c@ == (SaModel { name: name@, state: state@, remote_addr: opt_chars(*remote) }),
{
    let r = match remote {
        Some(r) => Some(chars_to_string(r)),
        None => None,
    };
    ActiveSa { name: chars_to_string(name), state: chars_to_string(state), remote_addr: r }
}

/// Parses `swanctl --list-sas` output into the active IKE SAs.
pub fn parse_active_sas(output: &str) -> (sas: Vec<ActiveSa>)
    ensures
        sa_views(sas@) == active_sas(output@),
{
    let ls = lines_str(output);
    let mut result: Vec<ActiveSa> = Vec::new();
    let mut cur: Option<(Vec<char>, Vec<char>)> = None;
    let mut cur_remote: Option<Vec<char>> = None;
    let mut i: usize = 0;
    assert(sa_views(result@) =~= Seq::<SaModel>::empty());
    assert(views(ls@).take(0) =~= Seq::<Seq<char>>::empty());
    while i < ls.len()
        invariant
            i <= ls.len(),
            sa_fold(views(ls@).take(i as int)) == (SaState {
                result: sa_views(result@),
                cur: match cur {
                    Some(c) => Some((c.0@, c.1@)),
                    None => None,
                },
                remote: opt_chars(cur_remote),
            }),
        decreases ls.len() - i,
    {
        let raw = &ls[i];
        assert(views(ls@).take(i + 1).drop_last() =~= views(ls@).take(i as int));
        assert(views(ls@).take(i + 1).last() == raw@);
        let line = trim_chars(raw);
        if line.len() == 0 {
        } else if is_top_level_exec(raw) && contains_char(&line, ':') {
            let ghost old_result = result@;
            match cur {
                Some(c) => {
                    let sa = make_sa(&c.0, &c.1, &cur_remote);
                    result.push(sa);
                    cur_remote = None;
                    assert(sa_views(result@) =~= sa_views(old_result).push(sa@));
                },
                None => {},
            }
            let name = header_name_exec(&line);
            if name.len() > 0 {
                let rest = after_first_exec(&line, ':');
                let state = sa_state_exec(&rest);
                cur = Some((name, state));
                cur_remote = None;
            } else {
                cur = None;
            }
        } else if starts_with_str(&line, "remote ") {
            cur_remote = extract_remote_ip_chars(&line);
        }
        i += 1;
    }
    assert(views(ls@).take(ls.len() as int) =~= views(ls@));
    match cur {
        Some(c) => {
            let ghost old_result = result@;
            let sa = make_sa(&c.0, &c.1, &cur_remote);
            result.push(sa);
            assert(sa_views(result@) =~= sa_views(old_result).push(sa@));
        },
        None => {},
    }
    result
}

// ───────────────────────────── status and ids ─────────────────────────────

/// Status of a link by the state of its SA: established states are `Up`,
/// states on the way there are `Connecting`, all others `Down`.
pub open spec fn ike_status(state: Seq<char>) -> VpnStatus {
    if state == "ESTABLISHED"@ || state == "INSTALLED"@ || state == "REKEYED"@ {
        VpnStatus::Up
    } else if state == "CONNECTING"@ || state == "CONNECTING_CHILD"@ || state == "REKEYING"@ {
        VpnStatus::Connecting
    } else {
        VpnStatus::Down
    }
}

pub fn map_ike_state_to_status_chars(state: &Vec<char>) -> (r: VpnStatus)
    ensures
        r == ike_status(state@),
{
    if chars_eq_str(state, "ESTABLISHED") || chars_eq_str(state, "INSTALLED") || chars_eq_str(
        state,
        "REKEYED",
    ) {
        VpnStatus::Up
    } else if chars_eq_str(state, "CONNECTING") || chars_eq_str(state, "CONNECTING_CHILD")
        || chars_eq_str(state, "REKEYING") {
        VpnStatus::Connecting
    } else {
        VpnStatus::Down
    }
}

/// Maps an IKE/CHILD SA state to the status of its link.
pub fn map_ike_state_to_status(state: &str) -> (r: VpnStatus)
    ensures
        r == ike_status(state@),
{
    let v = str_chars(state);
    map_ike_state_to_status_chars(&v)
}

/// Each character kept if ASCII alphanumeric, else replaced by `-`.
pub open spec fn sanitized_id(s: Seq<char>) -> Seq<char> {
    s.map_values(|c: char|
        if is_ascii_alnum(c) {
            c
        } else {
            '-'
        })
}

pub fn sanitize_id_chars(s: &Vec<char>) -> (r: Vec<char>)
    ensures
        r@ == sanitized_id(s@),
{
    let mut r: Vec<char> = Vec::new();
    let mut i: usize = 0;
    while i < s.len()
        invariant
            i <= s.len(),
            r@ == sanitized_id(s@.take(i as int)),
        decreases s.len() - i,
    {
        let c = s[i];
        if char_is_alnum(c) {
            r.push(c);
        } else {
            r.push('-');
        }
        i += 1;
        assert(r@ =~= sanitized_id(s@.take(i as int)));
    }
    assert(s@.take(s.len() as int) =~= s@);
    r
}

/// A node id made of the characters of `value`: ASCII letters and digits are kept,
/// every other character becomes `-`.
pub fn sanitize_id(value: &str) -> (r: String)
    ensures
        r@ == sanitized_id(value@),
{
    let v = str_chars(value);
    let r = sanitize_id_chars(&v);
    chars_to_string(&r)
}


// ───────────────────────────── topology ─────────────────────────────

/// The last SA of `active` named `name`, if any.
pub open spec fn last_sa(active: Seq<SaModel>, name: Seq<char>) -> Option<SaModel>
    decreases active.len(),
{
    if active.len() == 0 {
        None
    } else if active.last().name == name {
        Some(active.last())
    } else {
        last_sa(active.drop_last(), name)
    }
}

/// The names of `active`, each once, in order of first appearance.
pub open spec fn distinct_names(active: Seq<SaModel>) -> Seq<Seq<char>>
    decreases active.len(),
{
    if active.len() == 0 {
        seq![]
    } else {
        let p = distinct_names(active.drop_last());
        if p.contains(active.last().name) {
            p
        } else {
            p.push(active.last().name)
        }
    }
}

/// The names of `names` that are not in `excluded`, in order.
pub open spec fn names_not_in(names: Seq<Seq<char>>, excluded: Seq<Seq<char>>) -> Seq<Seq<char>>
    decreases names.len(),
{
    if names.len() == 0 {
        seq![]
    } else {
        let p = names_not_in(names.drop_last(), excluded);
        if excluded.contains(names.last()) {
            p
        } else {
            p.push(names.last())
        }
    }
}

pub open spec fn gateway_id() -> Seq<char> {
    "gateway-root"@
}

pub open spec fn peer_id(name: Seq<char>) -> Seq<char> {
    "peer-"@ + sanitized_id(name)
}

pub open spec fn gateway_node() -> NodeModel {
    NodeModel {
        id: gateway_id(),
        name: "Bifröst Gateway (Local)"@,
        node_type: NodeType::Gateway,
        address: Some("127.0.0.1"@),
    }
}

/// Status of the link to `name`: that of its last SA, `Down` without one.
pub open spec fn link_status(active: Seq<SaModel>, name: Seq<char>) -> VpnStatus {
    match last_sa(active, name) {
        Some(sa) => ike_status(sa.state),
        None => VpnStatus::Down,
    }
}

/// Address of the peer `name`: that of its last SA when it has one, else the hint.
pub open spec fn link_address(
    active: Seq<SaModel>,
    name: Seq<char>,
    hint: Option<Seq<char>>,
) -> Option<Seq<char>> {
    match last_sa(active, name) {
        Some(sa) => match sa.remote_addr {
            Some(a) => Some(a),
            None => hint,
        },
        None => hint,
    }
}

pub open spec fn peer_node(name: Seq<char>, address: Option<Seq<char>>) -> NodeModel {
    NodeModel { id: peer_id(name), name, node_type: NodeType::RemoteEndpoint, address }
}

pub open spec fn peer_edge(name: Seq<char>, status: VpnStatus) -> EdgeModel {
    EdgeModel { from_node: gateway_id(), to_node: peer_id(name), status }
}

pub open spec fn conf_names(configured: Seq<ConnModel>) -> Seq<Seq<char>> {
    configured.map_values(|c: ConnModel| c.name)
}

/// SA names that no configured connection has.
pub open spec fn extra_names(configured: Seq<ConnModel>, active: Seq<SaModel>) -> Seq<Seq<char>> {
    names_not_in(distinct_names(active), conf_names(configured))
}

/// The topology of the gateway: the gateway node; a node and an edge for each configured
/// connection, in order; then a node and an edge for each name of an active SA that no
/// configured connection has, in order of first appearance.
pub open spec fn strongswan_topology(configured: Seq<ConnModel>, active: Seq<SaModel>) -> TopologyModel {
    let extras = extra_names(configured, active);
    TopologyModel {
        nodes: seq![gateway_node()] + configured.map_values(
            |c: ConnModel| peer_node(c.name, link_address(active, c.name, c.remote_hint)),
        ) + extras.map_values(|n: Seq<char>| peer_node(n, link_address(active, n, None))),
        edges: configured.map_values(
            |c: ConnModel| peer_edge(c.name, link_status(active, c.name)),
        ) + extras.map_values(|n: Seq<char>| peer_edge(n, link_status(active, n))),
    }
}

fn string_chars(s: &String) -> (v: Vec<char>)
    ensures
        v@ == s@,
{
    str_chars(s.as_str())
}

fn opt_string_copy(o: &Option<String>) -> (r: Option<String>)
    ensures
        opt_view(r) == opt_view(*o),
{
    match o {
        Some(s) => Some(s.clone()),
        None => None,
    }
}

/// Index of the last SA named `name`.
fn find_last_sa(active: &Vec<ActiveSa>, name: &Vec<char>) -> (r: Option<usize>)
    ensures
        match r {
            Some(i) => i < active.len() && last_sa(sa_views(active@), name@) == Some(
                active@[i as int]@,
            ),
            None => last_sa(sa_views(active@), name@) == None::<SaModel>,
        },
{
    let mut j: usize = active.len();
    assert(sa_views(active@).take(j as int) =~= sa_views(active@));
    while j > 0
        invariant
            j <= active.len(),
            last_sa(sa_views(active@), name@) == last_sa(sa_views(active@).take(j as int), name@),
        decreases j,
    {
        let n = string_chars(&active[j - 1].name);
        let ghost t = sa_views(active@).take(j as int);
        assert(t.drop_last() =~= sa_views(active@).take(j - 1));
        assert(t.last() == active@[j - 1]@);
        if chars_eq(&n, name) {
            return Some(j - 1);
        }
        j -= 1;
    }
    None
}

fn peer_id_exec(name: &Vec<char>) -> (r: String)
    ensures
        r@ == peer_id(name@),
{
    let mut id = str_chars("peer-");
    let s = sanitize_id_chars(name);
    append_chars(&mut id, &s);
    chars_to_string(&id)
}

/// Builds the topology from the configured connections and the active SAs.
pub fn build_topology_from_strongswan(configured: Vec<ConnInfo>, active: Vec<ActiveSa>) -> (t:
    BifrostTopology)
    ensures
        t@ == strongswan_topology(conn_views(configured@), sa_views(active@)),
{
    let ghost cv = conn_views(configured@);
    let ghost av = sa_views(active@);
    let mut nodes: Vec<NetworkNode> = Vec::new();
    let mut edges: Vec<VpnEdge> = Vec::new();
    nodes.push(
        NetworkNode {
            id: owned("gateway-root"),
            name: owned("Bifröst Gateway (Local)"),
            node_type: NodeType::Gateway,
            address: Some(owned("127.0.0.1")),
        },
    );
    let ghost node_of_conf = |c: ConnModel| peer_node(c.name, link_address(av, c.name, c.remote_hint));
    let ghost edge_of_conf = |c: ConnModel| peer_edge(c.name, link_status(av, c.name));
    let mut conf_name_list: Vec<Vec<char>> = Vec::new();
    let mut i: usize = 0;
    assert(nodes@.map_values(|n: NetworkNode| n@) =~= seq![gateway_node()] + cv.take(0).map_values(node_of_conf));
    assert(edges@.map_values(|e: VpnEdge| e@) =~= cv.take(0).map_values(edge_of_conf));
    assert(views(conf_name_list@) =~= conf_names(cv.take(0)));
    while i < configured.len()
        invariant
            i <= configured.len(),
            cv == conn_views(configured@),
            av == sa_views(active@),
            node_of_conf == (|c: ConnModel| peer_node(c.name, link_address(av, c.name, c.remote_hint))),
            edge_of_conf == (|c: ConnModel| peer_edge(c.name, link_status(av, c.name))),
            nodes@.map_values(|n: NetworkNode| n@) == seq![gateway_node()] + cv.take(i as int).map_values(node_of_conf),
            edges@.map_values(|e: VpnEdge| e@) == cv.take(i as int).map_values(edge_of_conf),
            views(conf_name_list@) == conf_names(cv.take(i as int)),
        decreases configured.len() - i,
    {
        let conn = &configured[i];
        let name = string_chars(&conn.name);
        let ghost c = cv[i as int];
        assert(c == conn@);
        let found = find_last_sa(&active, &name);
        let (address, status) = match found {
            Some(k) => {
                let sa = &active[k];
                let st = string_chars(&sa.state);
                let status = map_ike_state_to_status_chars(&st);
                let address = match &sa.remote_addr {
                    Some(a) => Some(a.clone()),
                    None => opt_string_copy(&conn.remote_hint),
                };
                (address, status)
            },
            None => (opt_string_copy(&conn.remote_hint), VpnStatus::Down),
        };
        let ghost old_nodes = nodes@;
        let ghost old_edges = edges@;
        let ghost old_names = conf_name_list@;
        nodes.push(NetworkNode {
            id: peer_id_exec(&name),
            name: conn.name.clone(),
            node_type: NodeType::RemoteEndpoint,
            address,
        });
        edges.push(VpnEdge { from_node: owned("gateway-root"), to_node: peer_id_exec(&name), status });
        conf_name_list.push(name);
        assert(cv.take(i + 1) =~= cv.take(i as int).push(c));
        assert(nodes@.map_values(|n: NetworkNode| n@) =~= old_nodes.map_values(|n: NetworkNode| n@).push(node_of_conf(c)));
        assert(edges@.map_values(|e: VpnEdge| e@) =~= old_edges.map_values(|e: VpnEdge| e@).push(edge_of_conf(c)));
        assert(views(conf_name_list@) =~= views(old_names).push(c.name));
        i += 1;
    }
    assert(cv.take(configured.len() as int) =~= cv);
    // The distinct SA names, in order of first appearance.
    let mut names: Vec<Vec<char>> = Vec::new();
    let mut j: usize = 0;
    assert(views(names@) =~= distinct_names(av.take(0)));
    while j < active.len()
        invariant
            j <= active.len(),
            av == sa_views(active@),
            views(names@) == distinct_names(av.take(j as int)),
        decreases active.len() - j,
    {
        let n = string_chars(&active[j].name);
        assert(av.take(j + 1).drop_last() =~= av.take(j as int));
        assert(av.take(j + 1).last() == active@[j as int]@);
        if !crate::text::vec_contains_chars(&names, &n) {
            let ghost old = names@;
            names.push(n);
            assert(views(names@) =~= views(old).push(active@[j as int]@.name));
        }
        j += 1;
    }
    assert(av.take(active.len() as int) =~= av);
    let ghost dn = distinct_names(av);
    let ghost node_of_extra = |n: Seq<char>| peer_node(n, link_address(av, n, None));
    let ghost edge_of_extra = |n: Seq<char>| peer_edge(n, link_status(av, n));
    let ghost base_nodes = nodes@.map_values(|n: NetworkNode| n@);
    let ghost base_edges = edges@.map_values(|e: VpnEdge| e@);
    let mut k: usize = 0;
    assert(base_nodes + names_not_in(dn.take(0), conf_names(cv)).map_values(node_of_extra) =~= base_nodes);
    assert(base_edges + names_not_in(dn.take(0), conf_names(cv)).map_values(edge_of_extra) =~= base_edges);
    while k < names.len()
        invariant
            k <= names.len(),
            av == sa_views(active@),
            dn == views(names@),
            views(conf_name_list@) == conf_names(cv),
            node_of_extra == (|n: Seq<char>| peer_node(n, link_address(av, n, None))),
            edge_of_extra == (|n: Seq<char>| peer_edge(n, link_status(av, n))),
            nodes@.map_values(|n: NetworkNode| n@) == base_nodes + names_not_in(
                dn.take(k as int),
                conf_names(cv),
            ).map_values(node_of_extra),
            edges@.map_values(|e: VpnEdge| e@) == base_edges + names_not_in(
                dn.take(k as int),
                conf_names(cv),
            ).map_values(edge_of_extra),
        decreases names.len() - k,
    {
        let name = &names[k];
        assert(dn.take(k + 1).drop_last() =~= dn.take(k as int));
        assert(dn.take(k + 1).last() == name@);
        if !crate::text::vec_contains_chars(&conf_name_list, name) {
            let found = find_last_sa(&active, name);
            let (address, status) = match found {
                Some(x) => {
                    let sa = &active[x];
                    let st = string_chars(&sa.state);
                    (opt_string_copy(&sa.remote_addr), map_ike_state_to_status_chars(&st))
                },
                None => (None, VpnStatus::Down),
            };
            let ghost old_nodes = nodes@;
            let ghost old_edges = edges@;
            nodes.push(NetworkNode {
                id: peer_id_exec(name),
                name: chars_to_string(name),
                node_type: NodeType::RemoteEndpoint,
                address,
            });
            edges.push(VpnEdge { from_node: owned("gateway-root"), to_node: peer_id_exec(name), status });
            assert(nodes@.map_values(|n: NetworkNode| n@) =~= old_nodes.map_values(|n: NetworkNode| n@).push(node_of_extra(name@)));
            assert(edges@.map_values(|e: VpnEdge| e@) =~= old_edges.map_values(|e: VpnEdge| e@).push(edge_of_extra(name@)));
            assert(names_not_in(dn.take(k + 1), conf_names(cv)) == names_not_in(dn.take(k as int), conf_names(cv)).push(name@));
            assert(names_not_in(dn.take(k + 1), conf_names(cv)).map_values(node_of_extra) =~= names_not_in(dn.take(k as int), conf_names(cv)).map_values(node_of_extra).push(node_of_extra(name@)));
            assert(names_not_in(dn.take(k + 1), conf_names(cv)).map_values(edge_of_extra) =~= names_not_in(dn.take(k as int), conf_names(cv)).map_values(edge_of_extra).push(edge_of_extra(name@)));
        }
        k += 1;
    }
    assert(dn.take(names.len() as int) =~= dn);
    BifrostTopology { nodes, edges }
}


// ───────────────────────────── change detection ─────────────────────────────

pub open spec fn edge_views(v: Seq<VpnEdge>) -> Seq<EdgeModel> {
    v.map_values(|e: VpnEdge| e@)
}

/// Status of the link `from → to` in `edges`: that of the last edge between them.
pub open spec fn link_status_in(edges: Seq<EdgeModel>, from: Seq<char>, to: Seq<char>) -> Option<
    VpnStatus,
>
    decreases edges.len(),
{
    if edges.len() == 0 {
        None
    } else if edges.last().from_node == from && edges.last().to_node == to {
        Some(edges.last().status)
    } else {
        link_status_in(edges.drop_last(), from, to)
    }
}

pub open spec fn lost_alert(from: Seq<char>, to: Seq<char>) -> Seq<char> {
    "ALERTA CRÍTICA: La conexión de '"@ + from + "' a '"@ + to + "' se ha perdido."@
}

/// The link of `e` went from `Up` in `old` to `Down` in `e`.
pub open spec fn went_down(old: Seq<EdgeModel>, e: EdgeModel) -> bool {
    link_status_in(old, e.from_node, e.to_node) == Some(VpnStatus::Up) && e.status
        == VpnStatus::Down
}

/// One alert for each edge of `new` whose link was `Up` in `old` and is `Down` now,
/// in the order of `new`.
pub open spec fn status_alerts(old: Seq<EdgeModel>, new: Seq<EdgeModel>) -> Seq<Seq<char>>
    decreases new.len(),
{
    if new.len() == 0 {
        seq![]
    } else {
        let p = status_alerts(old, new.drop_last());
        if went_down(old, new.last()) {
            p.push(lost_alert(new.last().from_node, new.last().to_node))
        } else {
            p
        }
    }
}

pub open spec fn string_views(v: Seq<String>) -> Seq<Seq<char>> {
    v.map_values(|s: String| s@)
}

fn old_link_status(old: &Vec<VpnEdge>, from: &Vec<char>, to: &Vec<char>) -> (r: Option<VpnStatus>)
    ensures
        r == link_status_in(edge_views(old@), from@, to@),
{
    let mut j: usize = old.len();
    assert(edge_views(old@).take(j as int) =~= edge_views(old@));
    while j > 0
        invariant
            j <= old.len(),
            link_status_in(edge_views(old@), from@, to@) == link_status_in(
                edge_views(old@).take(j as int),
                from@,
                to@,
            ),
        decreases j,
    {
        let e = &old[j - 1];
        let ghost t = edge_views(old@).take(j as int);
        assert(t.drop_last() =~= edge_views(old@).take(j - 1));
        assert(t.last() == e@);
        let f = string_chars(&e.from_node);
        let g = string_chars(&e.to_node);
        if chars_eq(&f, from) && chars_eq(&g, to) {
            return Some(e.status);
        }
        j -= 1;
    }
    None
}

/// Compares two topologies and returns the alerts: one for each link of the new
/// topology that was `Up` in the old one and is `Down` now. Only that exact
/// transition raises an alert.
pub fn detect_status_changes(old_topology: &BifrostTopology, new_topology: &BifrostTopology) -> (alerts: Vec<String>)
    ensures
        string_views(alerts@) == status_alerts(old_topology@.edges, new_topology@.edges),
{
    let ghost old = old_topology@.edges;
    let ghost new = new_topology@.edges;
    let mut alerts: Vec<String> = Vec::new();
    let mut i: usize = 0;
    assert(string_views(alerts@) =~= status_alerts(old, new.take(0)));
    while i < new_topology.edges.len()
        invariant
            i <= new_topology.edges.len(),
            old == old_topology@.edges,
            new == new_topology@.edges,
            string_views(alerts@) == status_alerts(old, new.take(i as int)),
        decreases new_topology.edges.len() - i,
    {
        let e = &new_topology.edges[i];
        assert(new.take(i + 1).drop_last() =~= new.take(i as int));
        assert(new.take(i + 1).last() == e@);
        let f = string_chars(&e.from_node);
        let t = string_chars(&e.to_node);
        let prev = old_link_status(&old_topology.edges, &f, &t);
        if prev == Some(VpnStatus::Up) && e.status == VpnStatus::Down {
            let mut msg = str_chars("ALERTA CRÍTICA: La conexión de '");
            append_chars(&mut msg, &f);
            append_str(&mut msg, "' a '");
            append_chars(&mut msg, &t);
            append_str(&mut msg, "' se ha perdido.");
            let ghost old_alerts = alerts@;
            alerts.push(chars_to_string(&msg));
            assert(string_views(alerts@) =~= string_views(old_alerts).push(msg@));
        }
        i += 1;
    }
    assert(new.take(new_topology.edges.len() as int) =~= new);
    alerts
}

// ───────────────────────────── mock data ─────────────────────────────

/// The topology used when StrongSwan cannot be queried.
pub open spec fn mock_topology() -> TopologyModel {
    TopologyModel {
        nodes: seq![
            NodeModel {
                id: "srv-central"@,
                name: "Bifröst HQ (Mock)"@,
                node_type: NodeType::Gateway,
                address: Some("10.0.0.1"@),
            },
            NodeModel {
                id: "branch-01"@,
                name: "Sucursal Guatemala"@,
                node_type: NodeType::RemoteEndpoint,
                address: Some("190.1.1.5"@),
            },
            NodeModel {
                id: "branch-02"@,
                name: "Sucursal México"@,
                node_type: NodeType::RemoteEndpoint,
                address: Some("201.5.5.1"@),
            },
        ],
        edges: seq![
            EdgeModel {
                from_node: "srv-central"@,
                to_node: "branch-01"@,
                status: VpnStatus::Up,
            },
            EdgeModel {
                from_node: "srv-central"@,
                to_node: "branch-02"@,
                status: VpnStatus::Connecting,
            },
        ],
    }
}

/// Test data for development, or when StrongSwan is not available.
pub fn generate_mock_topology() -> (t: BifrostTopology)
    ensures
        t@ == mock_topology(),
{
    let mut nodes: Vec<NetworkNode> = Vec::new();
    nodes.push(NetworkNode {
        id: owned("srv-central"),
        name: owned("Bifröst HQ (Mock)"),
        node_type: NodeType::Gateway,
        address: Some(owned("10.0.0.1")),
    });
    nodes.push(NetworkNode {
        id: owned("branch-01"),
        name: owned("Sucursal Guatemala"),
        node_type: NodeType::RemoteEndpoint,
        address: Some(owned("190.1.1.5")),
    });
    nodes.push(NetworkNode {
        id: owned("branch-02"),
        name: owned("Sucursal México"),
        node_type: NodeType::RemoteEndpoint,
        address: Some(owned("201.5.5.1")),
    });
    let mut edges: Vec<VpnEdge> = Vec::new();
    edges.push(VpnEdge {
        from_node: owned("srv-central"),
        to_node: owned("branch-01"),
        status: VpnStatus::Up,
    });
    edges.push(VpnEdge {
        from_node: owned("srv-central"),
        to_node: owned("branch-02"),
        status: VpnStatus::Connecting,
    });
    let t = BifrostTopology { nodes, edges };
    assert(t@.nodes =~= mock_topology().nodes);
    assert(t@.edges =~= mock_topology().edges);
    t
}


// ───────────────────────────── where the topology comes from ─────────────────────────────

/// Whether the mock topology is forced: the variable's value, trimmed and in ASCII
/// lowercase, is `1`, `true`, `yes` or `on`.
pub open spec fn forces_mock(value: Option<Seq<char>>) -> bool {
    match value {
        Some(v) => {
            let n = crate::text::lower(crate::text::trim(v));
            n == "1"@ || n == "true"@ || n == "yes"@ || n == "on"@
        },
        None => false,
    }
}

pub fn force_mock_from(value: Option<&str>) -> (b: bool)
    ensures
        b == forces_mock(
            match value {
                Some(v) => Some(v@),
                None => None,
            },
        ),
{
    match value {
        None => false,
        Some(v) => {
            let n = crate::text::lower_chars(&crate::text::trim_str(v));
            crate::text::chars_eq_str(&n, "1") || crate::text::chars_eq_str(&n, "true")
                || crate::text::chars_eq_str(&n, "yes") || crate::text::chars_eq_str(&n, "on")
        },
    }
}

/// The topology read from the output of `swanctl --list-conns` and `swanctl --list-sas`.
pub fn topology_from_swanctl(list_conns: &str, list_sas: &str) -> (t: BifrostTopology)
    ensures
        t@ == strongswan_topology(configured_connections(list_conns@), active_sas(list_sas@)),
{
    let configured = parse_configured_connections(list_conns);
    let active = parse_active_sas(list_sas);
    build_topology_from_strongswan(configured, active)
}

} // verus!
