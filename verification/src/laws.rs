//! Properties of the library as a whole, each stated over the models that the
//! functions' contracts use, and proved.
use vstd::prelude::*;

use crate::connections::{name_char, safe_name};
use crate::control::{step_model, PeerActionModel, PeerStage};
use crate::engine::{gateway_id, gateway_node, status_alerts, strongswan_topology, went_down, link_status_in, ConnModel, SaModel};
use crate::models::{EdgeModel, VpnStatus};
use crate::response_codes::{lemma_pages_fit, lemma_pages_greedy, page_fits, page_height};
use crate::response_codes::{page_fold, pages_of, row_h, wrap_fold, wrap_step, wrapped, PageState};
use crate::commands::{fitting_prefix, utf8_len};
use crate::text::{is_ws, join, tokens, tokens_acc, trim, trim_end, trim_start};
use crate::text::{has_char, index_of, is_ascii_upper, lemma_has_char_index, lower, lower_char};
use crate::i18n::{first_piece, language_of};
use crate::pdf::{body_fold, lemma_utf8_bytes_len, pdf_document, utf8_bytes, utf8_char, xref_entries};
use crate::text::decimal;
use crate::connections::{indented_lines, secret_conf};
use crate::secrets::{after_eq, before_eq, scan_step, scanned_type, SecretScan};
use crate::text::{is_ascii_alnum, lemma_split_acc_nonempty, split, split_acc};
use crate::types::{secret_type_name, secret_type_named, SecretType};
use crate::connections::KeyValues;
use crate::json::JsonValue;
use crate::listing::managed_name;
use crate::secrets::{is_hidden_key, json_str_is, scan, shown_config, shown_fields, shown_ids, shown_object};
use crate::secrets::{put, ShownFields, ShownValue};
use crate::text::{ends_with, lines, starts_with, strip_prefix_all, strip_suffix_all};

use crate::connections::{connection_body, connection_conf};
use crate::text::{find, find_from, occurs_at, rindex_of, strip_cr, strip_prefix_or_keep, trim_char};

use crate::access::{docs_access, health, request_verdict, response_codes_route, AccessVerdict};
use crate::store::{password_accepted, sha256_hex};

use crate::connections::{assigns_key, brace_balance, depth, kept_lines, section_end, section_range, section_start, upserted, value_keys};
use crate::connections::{assignment, indent_of, upsert_ok};
use crate::text::is_ascii_ws;
use crate::text::count_char;
use crate::resources::{attach_step_model, conn_step_model, AttachActionModel, AttachEventModel, ConnEventModel};
use crate::certificates::{cert_step_model, CertEventModel};
use crate::types::CertificateKind;
use crate::connections::editable_body;
use crate::resources::{reverted_text, secret_step_model, write_action, SecretActionModel, SecretCtlModel, SecretEventModel, SecretStage};

verus! {

// ───────────────────────────── change detection ─────────────────────────────

/// Links that kept their status raise no alert: when every link of the new
/// topology had, in the old one, the status it has now, there is no alert.
pub proof fn law_unchanged_links_raise_no_alert(old: Seq<EdgeModel>, new: Seq<EdgeModel>)
    requires
        forall|i: int| 0 <= i < new.len() ==> link_status_in(old, (#[trigger] new[i]).from_node, new[i].to_node)
            == Some(new[i].status),
    ensures
        status_alerts(old, new).len() == 0,
    decreases new.len(),
{
    if new.len() > 0 {
        assert forall|i: int| 0 <= i < new.drop_last().len() implies link_status_in(
            old,
            (#[trigger] new.drop_last()[i]).from_node,
            new.drop_last()[i].to_node,
        ) == Some(new.drop_last()[i].status) by {
            assert(new.drop_last()[i] == new[i]);
        }
        law_unchanged_links_raise_no_alert(old, new.drop_last());
        assert(new.last() == new[new.len() - 1]);
        assert(!went_down(old, new.last()));
    }
}

/// The number of links of `edges` that are down.
pub open spec fn down_links(edges: Seq<EdgeModel>) -> nat
    decreases edges.len(),
{
    if edges.len() == 0 {
        0
    } else {
        down_links(edges.drop_last()) + if edges.last().status == VpnStatus::Down {
            1nat
        } else {
            0nat
        }
    }
}

/// There are never more alerts than links that are down in the new topology,
/// whatever the old one was.
pub proof fn law_alerts_at_most_down_links(old: Seq<EdgeModel>, new: Seq<EdgeModel>)
    ensures
        status_alerts(old, new).len() <= down_links(new),
        down_links(new) <= new.len(),
    decreases new.len(),
{
    if new.len() > 0 {
        law_alerts_at_most_down_links(old, new.drop_last());
    }
}

/// No two links of `edges` join the same two nodes in the same direction.
pub open spec fn links_unique(edges: Seq<EdgeModel>) -> bool {
    forall|i: int, j: int|
        0 <= i < j < edges.len() ==> !((#[trigger] edges[i]).from_node == (#[trigger] edges[j]).from_node
            && edges[i].to_node == edges[j].to_node)
}

proof fn lemma_link_status_finds_own(edges: Seq<EdgeModel>, i: int)
    requires
        0 <= i < edges.len(),
        links_unique(edges),
    ensures
        link_status_in(edges, edges[i].from_node, edges[i].to_node) == Some(edges[i].status),
    decreases edges.len(),
{
    let n = edges.len() - 1;
    if i < n {
        assert(edges.last() == edges[n]);
        assert(!(edges[i].from_node == edges[n].from_node && edges[i].to_node == edges[n].to_node));
        let d = edges.drop_last();
        assert forall|a: int, b: int| 0 <= a < b < d.len() implies !((#[trigger] d[a]).from_node == (#[trigger] d[b]).from_node
            && d[a].to_node == d[b].to_node) by {
            assert(d[a] == edges[a] && d[b] == edges[b]);
        }
        assert(d[i] == edges[i]);
        lemma_link_status_finds_own(d, i);
    }
}

/// A topology compared with itself raises no alert, when no two of its links join
/// the same two nodes in the same direction.
pub proof fn law_same_topology_raises_no_alert(edges: Seq<EdgeModel>)
    requires
        links_unique(edges),
    ensures
        status_alerts(edges, edges).len() == 0,
{
    assert forall|i: int| 0 <= i < edges.len() implies link_status_in(
        edges,
        (#[trigger] edges[i]).from_node,
        edges[i].to_node,
    ) == Some(edges[i].status) by {
        lemma_link_status_finds_own(edges, i);
    }
    law_unchanged_links_raise_no_alert(edges, edges);
}

/// A link raises an alert only when it was up and is down now: a topology whose
/// links are all up raises none.
pub proof fn law_links_up_raise_no_alert(old: Seq<EdgeModel>, new: Seq<EdgeModel>)
    requires
        forall|i: int| 0 <= i < new.len() ==> (#[trigger] new[i]).status == VpnStatus::Up,
    ensures
        status_alerts(old, new).len() == 0,
    decreases new.len(),
{
    if new.len() > 0 {
        assert forall|i: int| 0 <= i < new.drop_last().len() implies (#[trigger] new.drop_last()[i]).status
            == VpnStatus::Up by {
            assert(new.drop_last()[i] == new[i]);
        }
        law_links_up_raise_no_alert(old, new.drop_last());
        assert(new.last() == new[new.len() - 1]);
    }
}

// ───────────────────────────── topology ─────────────────────────────

/// The topology built from StrongSwan is a star around the gateway: the gateway
/// is the first node, and each edge goes from the gateway to the node that follows
/// it in the list of nodes.
pub proof fn law_topology_is_a_star(configured: Seq<ConnModel>, active: Seq<SaModel>)
    ensures
        strongswan_topology(configured, active).nodes.len() == strongswan_topology(configured, active).edges.len() + 1,
        strongswan_topology(configured, active).nodes[0] == gateway_node(),
        forall|i: int|
            0 <= i < strongswan_topology(configured, active).edges.len() ==> (#[trigger] strongswan_topology(
                configured,
                active,
            ).edges[i]).from_node == gateway_id() && strongswan_topology(configured, active).edges[i].to_node
                == strongswan_topology(configured, active).nodes[i + 1].id,
{
    let t = strongswan_topology(configured, active);
    let n = configured.len();
    assert forall|i: int| 0 <= i < t.edges.len() implies (#[trigger] t.edges[i]).from_node == gateway_id()
        && t.edges[i].to_node == t.nodes[i + 1].id by {
        if i < n {
            assert(t.nodes[i + 1] == (seq![gateway_node()] + configured.map_values(
                |c: ConnModel| crate::engine::peer_node(c.name, crate::engine::link_address(active, c.name, c.remote_hint)),
            ))[i + 1]);
        }
    }
}

// ───────────────────────────── names ─────────────────────────────

proof fn lemma_trim_no_ws(s: Seq<char>)
    requires
        s.len() > 0,
        !is_ws(s[0]),
        !is_ws(s.last()),
    ensures
        trim(s) == s,
{
    assert(trim_start(s) == s);
    assert(trim_end(s) == s);
}

/// A safe name is its own safe name: sanitizing twice changes nothing.
pub proof fn law_safe_name_is_stable(name: Seq<char>)
    ensures
        match safe_name(name) {
            Some(n) => safe_name(n) == Some(n),
            None => true,
        },
{
    if let Some(n) = safe_name(name) {
        assert(name_char(n[0]));
        assert(name_char(n[n.len() - 1]));
        assert(n.last() == n[n.len() - 1]);
        lemma_trim_no_ws(n);
    }
}

/// The name of a secret type reads back as that type.
pub proof fn law_secret_type_name_round_trip(t: SecretType)
    ensures
        secret_type_named(secret_type_name(t)) == Some(t),
{
    reveal_strlit("eap");
    reveal_strlit("xauth");
    reveal_strlit("ntlm");
    reveal_strlit("ike");
    reveal_strlit("ppk");
    reveal_strlit("private");
    reveal_strlit("rsa");
    reveal_strlit("ecdsa");
    reveal_strlit("pkcs8");
    reveal_strlit("pkcs12");
    reveal_strlit("token");
    match t {
        SecretType::Eap => {
        },
        SecretType::Xauth => {
            assert("xauth"@.len() != "eap"@.len());
        },
        SecretType::Ntlm => {
            assert("ntlm"@.len() != "eap"@.len());
            assert("ntlm"@.len() != "xauth"@.len());
        },
        SecretType::Ike => {
            assert("ike"@[0] != "eap"@[0]);
            assert("ike"@.len() != "xauth"@.len());
            assert("ike"@.len() != "ntlm"@.len());
        },
        SecretType::Ppk => {
            assert("ppk"@[0] != "eap"@[0]);
            assert("ppk"@.len() != "xauth"@.len());
            assert("ppk"@.len() != "ntlm"@.len());
            assert("ppk"@[0] != "ike"@[0]);
        },
        SecretType::Private => {
            assert("private"@.len() != "eap"@.len());
            assert("private"@.len() != "xauth"@.len());
            assert("private"@.len() != "ntlm"@.len());
            assert("private"@.len() != "ike"@.len());
            assert("private"@.len() != "ppk"@.len());
        },
        SecretType::Rsa => {
            assert("rsa"@[0] != "eap"@[0]);
            assert("rsa"@.len() != "xauth"@.len());
            assert("rsa"@.len() != "ntlm"@.len());
            assert("rsa"@[0] != "ike"@[0]);
            assert("rsa"@[0] != "ppk"@[0]);
            assert("rsa"@.len() != "private"@.len());
        },
        SecretType::Ecdsa => {
            assert("ecdsa"@.len() != "eap"@.len());
            assert("ecdsa"@[0] != "xauth"@[0]);
            assert("ecdsa"@.len() != "ntlm"@.len());
            assert("ecdsa"@.len() != "ike"@.len());
            assert("ecdsa"@.len() != "ppk"@.len());
            assert("ecdsa"@.len() != "private"@.len());
            assert("ecdsa"@.len() != "rsa"@.len());
        },
        SecretType::Pkcs8 => {
            assert("pkcs8"@.len() != "eap"@.len());
            assert("pkcs8"@[0] != "xauth"@[0]);
            assert("pkcs8"@.len() != "ntlm"@.len());
            assert("pkcs8"@.len() != "ike"@.len());
            assert("pkcs8"@.len() != "ppk"@.len());
            assert("pkcs8"@.len() != "private"@.len());
            assert("pkcs8"@.len() != "rsa"@.len());
            assert("pkcs8"@[0] != "ecdsa"@[0]);
        },
        SecretType::Pkcs12 => {
            assert("pkcs12"@.len() != "eap"@.len());
            assert("pkcs12"@.len() != "xauth"@.len());
            assert("pkcs12"@.len() != "ntlm"@.len());
            assert("pkcs12"@.len() != "ike"@.len());
            assert("pkcs12"@.len() != "ppk"@.len());
            assert("pkcs12"@.len() != "private"@.len());
            assert("pkcs12"@.len() != "rsa"@.len());
            assert("pkcs12"@.len() != "ecdsa"@.len());
            assert("pkcs12"@.len() != "pkcs8"@.len());
        },
        SecretType::Token => {
            assert("token"@.len() != "eap"@.len());
            assert("token"@[0] != "xauth"@[0]);
            assert("token"@.len() != "ntlm"@.len());
            assert("token"@.len() != "ike"@.len());
            assert("token"@.len() != "ppk"@.len());
            assert("token"@.len() != "private"@.len());
            assert("token"@.len() != "rsa"@.len());
            assert("token"@[0] != "ecdsa"@[0]);
            assert("token"@[0] != "pkcs8"@[0]);
            assert("token"@.len() != "pkcs12"@.len());
        },
    }
}

// ───────────────────────────── peer requests ─────────────────────────────

/// A peer request runs swanctl at most twice: after an IKE run comes either the
/// CHILD run or the answer, and after any other run the answer.
pub proof fn law_peer_request_progresses(
    stage: PeerStage,
    name: Seq<char>,
    phase: Option<u8>,
    exited: bool,
    status_code: Option<i32>,
    text: Seq<char>,
)
    requires
        stage != PeerStage::Finished,
    ensures
        ({
            let next = step_model(stage, name, phase, exited, status_code, text);
            &&& stage == PeerStage::Ike ==> next.0 == PeerStage::Child || next.0 == PeerStage::Finished
            &&& stage != PeerStage::Ike ==> next.0 == PeerStage::Finished
            &&& (next.0 == PeerStage::Finished <==> next.1 is Reply)
        }),
{
}

/// A peer request succeeds only when the run that ends it exited with 0.
pub proof fn law_peer_success_needs_clean_exit(
    stage: PeerStage,
    name: Seq<char>,
    phase: Option<u8>,
    exited: bool,
    status_code: Option<i32>,
    text: Seq<char>,
)
    requires
        stage != PeerStage::Finished,
    ensures
        ({
            let next = step_model(stage, name, phase, exited, status_code, text);
            next.1 matches PeerActionModel::Reply { success: true, .. } ==> exited && status_code == Some(0i32)
        }),
{
}

// ───────────────────────────── pagination ─────────────────────────────

pub open spec fn flatten_pages(pages: Seq<Seq<int>>) -> Seq<int>
    decreases pages.len(),
{
    if pages.len() == 0 {
        seq![]
    } else {
        flatten_pages(pages.drop_last()) + pages.last()
    }
}

proof fn lemma_page_fold_covers(lines: Seq<nat>)
    ensures
        flatten_pages(page_fold(lines).0) + page_fold(lines).1 == Seq::new(lines.len(), |i: int| i),
        forall|p: int| 0 <= p < page_fold(lines).0.len() ==> (#[trigger] page_fold(lines).0[p]).len() > 0,
    decreases lines.len(),
{
    if lines.len() > 0 {
        let prev = lines.drop_last();
        lemma_page_fold_covers(prev);
        let st: PageState = page_fold(prev);
        let i = lines.len() - 1;
        let h = row_h(lines.last());
        if st.2 - h < 70 && st.1.len() > 0 {
            assert(flatten_pages(st.0.push(st.1)) == flatten_pages(st.0) + st.1) by {
                assert(st.0.push(st.1).drop_last() =~= st.0);
            }
            assert(flatten_pages(st.0.push(st.1)) + seq![i] =~= Seq::new(lines.len(), |k: int| k));
            assert forall|p: int| 0 <= p < st.0.push(st.1).len() implies (#[trigger] st.0.push(st.1)[p]).len() > 0 by {
                if p < st.0.len() {
                    assert(st.0.push(st.1)[p] == st.0[p]);
                }
            }
        } else {
            assert(flatten_pages(st.0) + st.1.push(i) =~= (flatten_pages(st.0) + st.1).push(i));
            assert(Seq::new(prev.len(), |k: int| k).push(i) =~= Seq::new(lines.len(), |k: int| k));
        }
    }
}

/// The pages hold every row of the report once, in order, and none of them is
/// empty unless the report has no rows (then it has one empty page).
pub proof fn law_pages_hold_every_row_once(lines: Seq<nat>)
    ensures
        flatten_pages(pages_of(lines)) == Seq::new(lines.len(), |i: int| i),
        lines.len() > 0 ==> forall|p: int| 0 <= p < pages_of(lines).len() ==> (#[trigger] pages_of(lines)[p]).len() > 0,
        pages_of(lines).len() >= 1,
{
    lemma_page_fold_covers(lines);
    let st = page_fold(lines);
    let last = if st.1.len() == 0 { Seq::<int>::empty() } else { st.1 };
    assert(pages_of(lines) == st.0.push(last));
    assert(pages_of(lines).drop_last() =~= st.0);
    assert(flatten_pages(pages_of(lines)) == flatten_pages(st.0) + last);
    assert(flatten_pages(st.0) + last =~= flatten_pages(st.0) + st.1);
    if lines.len() > 0 {
        if st.1.len() == 0 {
            assert(flatten_pages(st.0) + st.1 =~= flatten_pages(st.0));
            lemma_last_page_nonempty(lines);
        }
        assert forall|p: int| 0 <= p < pages_of(lines).len() implies (#[trigger] pages_of(lines)[p]).len() > 0 by {
            if p < st.0.len() {
                assert(pages_of(lines)[p] == st.0[p]);
            }
        }
    }
}

/// The pages are filled greedily: each page fits the table's 672 points unless it
/// holds a single row, and the first row of each page after the first would not
/// have fitted on the page before it.
pub proof fn law_pages_are_filled_greedily(lines: Seq<nat>)
    ensures
        forall|p: int| #![trigger pages_of(lines)[p]] 0 <= p < pages_of(lines).len() ==> page_fits(lines, pages_of(lines)[p]),
        forall|p: int| #![trigger pages_of(lines)[p]] 0 <= p && p + 1 < pages_of(lines).len() ==> page_height(lines, pages_of(lines)[p])
            + row_h(lines[pages_of(lines)[p + 1][0]]) > 672,
{
    lemma_pages_fit(lines);
    lemma_pages_greedy(lines);
}

proof fn lemma_last_page_nonempty(lines: Seq<nat>)
    requires
        lines.len() > 0,
    ensures
        page_fold(lines).1.len() > 0,
{
}


// ───────────────────────────── wrapping ─────────────────────────────

proof fn lemma_tokens_acc_nonempty(s: Seq<char>, cur: Seq<char>)
    ensures
        forall|i: int| 0 <= i < tokens_acc(s, cur).len() ==> (#[trigger] tokens_acc(s, cur)[i]).len() > 0,
    decreases s.len(),
{
    if s.len() > 0 {
        if is_ws(s[0]) {
            lemma_tokens_acc_nonempty(s.drop_first(), seq![]);
            let head: Seq<Seq<char>> = if cur.len() == 0 { seq![] } else { seq![cur] };
            let rest = tokens_acc(s.drop_first(), seq![]);
            assert(tokens_acc(s, cur) == head + rest);
            assert forall|i: int| 0 <= i < (head + rest).len() implies (#[trigger] (head + rest)[i]).len() > 0 by {
                if i >= head.len() {
                    assert((head + rest)[i] == rest[i - head.len()]);
                }
            }
        } else {
            lemma_tokens_acc_nonempty(s.drop_first(), cur.push(s[0]));
            assert(tokens_acc(s, cur) == tokens_acc(s.drop_first(), cur.push(s[0])));
        }
    } else if cur.len() > 0 {
        assert(tokens_acc(s, cur) == seq![cur]);
    } else {
        assert(tokens_acc(s, cur).len() == 0);
    }
}

pub open spec fn wrap_lines_so_far(st: (Seq<Seq<char>>, Seq<char>)) -> Seq<Seq<char>> {
    if st.1.len() > 0 {
        st.0.push(st.1)
    } else {
        st.0
    }
}

proof fn lemma_join_push(p: Seq<Seq<char>>, x: Seq<char>, sep: Seq<char>)
    requires
        p.len() > 0,
    ensures
        join(p.push(x), sep) == join(p, sep) + sep + x,
{
    assert(p.push(x).drop_last() =~= p);
}

proof fn lemma_wrap_fold(words: Seq<Seq<char>>, max: nat)
    requires
        forall|i: int| 0 <= i < words.len() ==> (#[trigger] words[i]).len() > 0,
    ensures
        join(wrap_lines_so_far(wrap_fold(words, max)), " "@) == join(words, " "@),
        words.len() == 0 ==> wrap_fold(words, max).0.len() == 0 && wrap_fold(words, max).1.len() == 0,
        words.len() > 0 ==> wrap_fold(words, max).1.len() > 0,
    decreases words.len(),
{
    if words.len() > 0 {
        let ws = words.drop_last();
        let w = words.last();
        assert forall|i: int| 0 <= i < ws.len() implies (#[trigger] ws[i]).len() > 0 by {
            assert(ws[i] == words[i]);
        }
        lemma_wrap_fold(ws, max);
        assert(w == words[words.len() - 1]);
        let st = wrap_fold(ws, max);
        assert(words =~= ws.push(w));
        if st.1.len() == 0 {
            assert(ws.len() == 0);
            assert(wrap_lines_so_far(wrap_fold(words, max)) =~= seq![w]);
            assert(words =~= seq![w]);
        } else {
            lemma_join_push(ws, w, " "@);
            if utf8_len(st.1) + 1 + utf8_len(w) <= max {
                if st.0.len() == 0 {
                    assert(st.0.push(st.1) =~= seq![st.1]);
                    assert(st.0.push(st.1 + " "@ + w) =~= seq![st.1 + " "@ + w]);
                } else {
                    lemma_join_push(st.0, st.1, " "@);
                    lemma_join_push(st.0, st.1 + " "@ + w, " "@);
                    assert(join(st.0, " "@) + " "@ + (st.1 + " "@ + w) =~= join(st.0, " "@) + " "@ + st.1 + " "@ + w);
                }
            } else {
                lemma_join_push(st.0.push(st.1), w, " "@);
            }
        }
    }
}

/// Wrapping keeps every word, in order: the lines joined by spaces are the words
/// of the text joined by spaces.
pub proof fn law_wrapping_keeps_every_word(text: Seq<char>, max: nat)
    ensures
        join(wrapped(text, max), " "@) == join(tokens(text), " "@),
{
    lemma_tokens_acc_nonempty(text, seq![]);
    lemma_wrap_fold(tokens(text), max);
    let st = wrap_fold(tokens(text), max);
    if wrap_lines_so_far(st).len() == 0 {
        assert(tokens(text).len() == 0);
        assert(join(seq![Seq::<char>::empty()], " "@) == Seq::<char>::empty());
    }
}

// ───────────────────────────── truncation ─────────────────────────────

/// What truncation keeps fits the limit, and is the start of the text.
pub proof fn law_truncation_fits(s: Seq<char>, max: nat)
    ensures
        utf8_len(fitting_prefix(s, max)) <= max,
        fitting_prefix(s, max).len() <= s.len(),
        s.take(fitting_prefix(s, max).len() as int) == fitting_prefix(s, max),
    decreases s.len(),
{
    if !(utf8_len(s) <= max || s.len() == 0) {
        law_truncation_fits(s.drop_last(), max);
        let f = fitting_prefix(s.drop_last(), max);
        assert(s.take(f.len() as int) =~= s.drop_last().take(f.len() as int));
    } else {
        assert(s.take(s.len() as int) =~= s);
    }
}

// ───────────────────────────── listings ─────────────────────────────

/// A file written for a name is listed under that name: the file
/// `<prefix><name><suffix>` stands for `name`. The listing strips every copy of
/// the prefix and of the suffix, so this fails only when what follows the prefix
/// starts with the prefix again, or when the name ends with the suffix.
pub proof fn law_listed_name_of_written_file(name: Seq<char>, prefix: Seq<char>, suffix: Seq<char>)
    requires
        prefix.len() == 0 || !starts_with(name + suffix, prefix),
        suffix.len() == 0 || !ends_with(name, suffix),
    ensures
        managed_name(prefix + name + suffix, prefix, suffix) == Some(name),
{
    let f = prefix + name + suffix;
    assert(f.take(prefix.len() as int) =~= prefix);
    assert(f.skip(f.len() - suffix.len()) =~= suffix);
    assert(starts_with(f, prefix));
    assert(ends_with(f, suffix));
    let rest = name + suffix;
    if prefix.len() > 0 {
        assert(f.skip(prefix.len() as int) =~= rest);
        assert(strip_prefix_all(rest, prefix) == rest);
        assert(strip_prefix_all(f, prefix) == rest);
    } else {
        assert(strip_prefix_all(f, prefix) == f);
        assert(f =~= rest);
    }
    if suffix.len() > 0 {
        assert(rest.skip(rest.len() - suffix.len()) =~= suffix);
        assert(ends_with(rest, suffix));
        assert(rest.take(rest.len() - suffix.len()) =~= name);
        assert(strip_suffix_all(name, suffix) == name);
        assert(strip_suffix_all(rest, suffix) == name);
    } else {
        assert(rest =~= name);
    }
}

// ───────────────────────────── secrets ─────────────────────────────

/// Every field of the object whose key is `secret` or `pin` shows `***redacted***`.
pub open spec fn hidden_redacted(fs: ShownFields) -> bool {
    forall|i: int| 0 <= i < fs.len() && is_hidden_key((#[trigger] fs[i]).0) ==> fs[i].1 == ShownValue::Text(
        "***redacted***"@,
    )
}

proof fn lemma_put_redacted(fs: ShownFields, k: Seq<char>, x: ShownValue)
    requires
        hidden_redacted(fs),
        is_hidden_key(k) ==> x == ShownValue::Text("***redacted***"@),
    ensures
        hidden_redacted(put(fs, k, x)),
{
    let r = put(fs, k, x);
    crate::secrets::lemma_key_at(fs, k);
    assert forall|i: int| 0 <= i < r.len() && is_hidden_key((#[trigger] r[i]).0) implies r[i].1 == ShownValue::Text(
        "***redacted***"@,
    ) by {
        if crate::secrets::key_at(fs, k) < 0 {
            if i < fs.len() {
                assert(r[i] == fs[i]);
            } else {
                assert(r[i] == (k, x));
            }
        } else if i == crate::secrets::key_at(fs, k) {
            assert(r[i] == (k, x));
        } else {
            assert(r[i] == fs[i]);
        }
    }
}

proof fn lemma_shown_fields_redacted(asg: KeyValues)
    ensures
        hidden_redacted(shown_fields(asg)),
    decreases asg.len(),
{
    if asg.len() > 0 {
        lemma_shown_fields_redacted(asg.drop_last());
        let p = shown_fields(asg.drop_last());
        let kv = asg.last();
        if is_hidden_key(kv.0) {
            lemma_put_redacted(p, kv.0, ShownValue::Text("***redacted***"@));
        } else if !crate::secrets::is_id_key(kv.0) {
            lemma_put_redacted(p, kv.0, ShownValue::Text(kv.1));
        }
    }
}

/// A secret read back never shows its secret or its PIN: in the object shown for
/// a secret file, every `secret` or `pin` entry holds `***redacted***`.
pub proof fn law_read_secret_is_redacted(content: Seq<char>, shown: JsonValue)
    requires
        shown_config(shown, scan(lines(content)).1),
    ensures
        shown matches JsonValue::Object(es) && forall|i: int|
            0 <= i < es@.len() && is_hidden_key((#[trigger] es@[i]).0@) ==> json_str_is(es@[i].1, "***redacted***"@),
{
    reveal_strlit("id");
    reveal_strlit("ids");
    reveal_strlit("secret");
    reveal_strlit("pin");
    let asg = scan(lines(content)).1;
    let fs = shown_fields(asg);
    let ids = shown_ids(asg);
    lemma_shown_fields_redacted(asg);
    assert(!is_hidden_key("id"@)) by {
        assert("id"@.len() != "secret"@.len());
        assert("id"@[0] != "pin"@[0]);
    }
    assert(!is_hidden_key("ids"@)) by {
        assert("ids"@.len() != "secret"@.len());
        assert("ids"@[0] != "pin"@[0]);
    }
    if ids.len() == 1 {
        lemma_put_redacted(fs, "id"@, ShownValue::Text(ids[0]));
    } else if ids.len() > 1 {
        lemma_put_redacted(fs, "ids"@, ShownValue::List(ids));
    }
    let obj = shown_object(asg);
    assert(hidden_redacted(obj));
    if let JsonValue::Object(es) = shown {
        assert forall|i: int| 0 <= i < es@.len() && is_hidden_key((#[trigger] es@[i]).0@) implies json_str_is(
            es@[i].1,
            "***redacted***"@,
        ) by {
            assert(es@[i].0@ == obj[i].0);
            assert(obj[i].1 == ShownValue::Text("***redacted***"@));
        }
    }
}

// ───────────────────────────── languages ─────────────────────────────

proof fn lemma_first_piece_prefix(s: Seq<char>, c: char)
    ensures
        first_piece(s, c).len() <= s.len(),
        forall|i: int| 0 <= i < first_piece(s, c).len() ==> #[trigger] first_piece(s, c)[i] == s[i] && s[i] != c,
{
    lemma_has_char_index(s, c);
    if index_of(s, c) < 0 {
        assert forall|i: int| 0 <= i < s.len() implies s[i] != c by {
            if s[i] == c {
                assert(has_char(s, c));
            }
        }
    }
}

proof fn lemma_trim_start_suffix(s: Seq<char>)
    ensures
        trim_start(s).len() <= s.len(),
        forall|i: int|
            0 <= i < trim_start(s).len() ==> #[trigger] trim_start(s)[i] == s[i + s.len() - trim_start(s).len()],
        trim_start(s).len() > 0 ==> !is_ws(trim_start(s)[0]),
    decreases s.len(),
{
    if s.len() > 0 && is_ws(s[0]) {
        lemma_trim_start_suffix(s.drop_first());
    }
}

proof fn lemma_trim_end_prefix(s: Seq<char>)
    ensures
        trim_end(s).len() <= s.len(),
        forall|i: int| 0 <= i < trim_end(s).len() ==> #[trigger] trim_end(s)[i] == s[i],
        trim_end(s).len() > 0 ==> !is_ws(trim_end(s).last()),
    decreases s.len(),
{
    if s.len() > 0 && is_ws(s.last()) {
        lemma_trim_end_prefix(s.drop_last());
    }
}

/// What `trim` keeps is a stretch of the text with no whitespace at either end.
proof fn lemma_trim_shape(s: Seq<char>)
    ensures
        trim(s).len() <= s.len(),
        forall|i: int| 0 <= i < trim(s).len() ==> exists|j: int| 0 <= j < s.len() && #[trigger] trim(s)[i] == s[j],
        trim(s).len() > 0 ==> !is_ws(trim(s)[0]) && !is_ws(trim(s).last()),
{
    let y = trim_start(s);
    lemma_trim_start_suffix(s);
    lemma_trim_end_prefix(y);
    assert forall|i: int| 0 <= i < trim(s).len() implies exists|j: int| 0 <= j < s.len() && #[trigger] trim(s)[i]
        == s[j] by {
        assert(trim(s)[i] == y[i]);
        assert(y[i] == s[i + s.len() - y.len()]);
    }
    if trim(s).len() > 0 {
        assert(trim(s)[0] == y[0]);
    }
}

proof fn lemma_lower_char(c: char)
    ensures
        lower_char(lower_char(c)) == lower_char(c),
        is_ws(lower_char(c)) == is_ws(c),
        (lower_char(c) == ',') == (c == ','),
        (lower_char(c) == ';') == (c == ';'),
        (lower_char(c) == '-') == (c == '-'),
{
    if is_ascii_upper(c) {
        let l = lower_char(c);
        assert(l as u32 == c as u32 + 32);
        assert(!is_ascii_upper(l));
    }
}

/// Text already in the form that `language_of` gives: not empty, no `,`, `;` or
/// `-`, no whitespace at either end, and unchanged by lowering.
spec fn normal_language(r: Seq<char>) -> bool {
    &&& r.len() > 0
    &&& forall|i: int| 0 <= i < r.len() ==> #[trigger] r[i] != ',' && r[i] != ';' && r[i] != '-'
    &&& !is_ws(r[0])
    &&& !is_ws(r.last())
    &&& lower(r) == r
}

proof fn lemma_normal_language_fixed(r: Seq<char>)
    requires
        normal_language(r),
    ensures
        language_of(r) == r,
{
    lemma_first_piece_prefix(r, ',');
    lemma_has_char_index(r, ',');
    assert(first_piece(r, ',') == r) by {
        if index_of(r, ',') >= 0 {
            assert(r[index_of(r, ',')] == ',');
        }
    }
    lemma_has_char_index(r, ';');
    assert(first_piece(r, ';') == r) by {
        if index_of(r, ';') >= 0 {
            assert(r[index_of(r, ';')] == ';');
        }
    }
    lemma_has_char_index(r, '-');
    assert(first_piece(r, '-') == r) by {
        if index_of(r, '-') >= 0 {
            assert(r[index_of(r, '-')] == '-');
        }
    }
    lemma_trim_no_ws(r);
}

proof fn lemma_language_of_normal(v: Seq<char>)
    ensures
        normal_language(language_of(v)),
{
    let a = first_piece(v, ',');
    let b = first_piece(a, ';');
    let p = first_piece(b, '-');
    lemma_first_piece_prefix(v, ',');
    lemma_first_piece_prefix(a, ';');
    lemma_first_piece_prefix(b, '-');
    let t = trim(p);
    lemma_trim_shape(p);
    let r = lower(t);
    if r.len() == 0 {
        reveal_strlit("en");
        assert("en"@ =~= seq!['e', 'n']);
        assert(lower("en"@) =~= "en"@);
    } else {
        assert forall|i: int| 0 <= i < r.len() implies #[trigger] r[i] != ',' && r[i] != ';' && r[i] != '-' by {
            let j = choose|j: int| 0 <= j < p.len() && t[i] == p[j];
            assert(p[j] == b[j]);
            assert(b[j] == a[j]);
            assert(a[j] == v[j]);
            lemma_lower_char(t[i]);
        }
        lemma_lower_char(t[0]);
        lemma_lower_char(t.last());
        assert(r.last() == lower_char(t.last()));
        assert forall|i: int| 0 <= i < r.len() implies #[trigger] lower(r)[i] == r[i] by {
            lemma_lower_char(t[i]);
        }
        assert(lower(r) =~= r);
    }
}

/// Normalizing a language tag twice gives what normalizing it once gives.
pub proof fn law_language_normalization_is_stable(value: Seq<char>)
    ensures
        language_of(language_of(value)) == language_of(value),
{
    lemma_language_of_normal(value);
    lemma_normal_language_fixed(language_of(value));
}

// ───────────────────────────── reading back a secret ─────────────────────────────

/// Splitting text that starts with a piece free of the separator: that piece
/// (after what was read so far) comes first, then the pieces of the rest.
proof fn lemma_split_acc_prefix(a: Seq<char>, c: char, cur: Seq<char>, rest: Seq<char>)
    requires
        forall|i: int| 0 <= i < a.len() ==> a[i] != c,
    ensures
        split_acc(a + seq![c] + rest, c, cur) == seq![cur + a] + split_acc(rest, c, seq![]),
    decreases a.len(),
{
    let s = a + seq![c] + rest;
    if a.len() == 0 {
        assert(s[0] == c);
        assert(s.drop_first() =~= rest);
        assert(cur + a =~= cur);
    } else {
        assert(s[0] == a[0]);
        assert(s.drop_first() =~= a.drop_first() + seq![c] + rest);
        lemma_split_acc_prefix(a.drop_first(), c, cur.push(a[0]), rest);
        assert(cur.push(a[0]) + a.drop_first() =~= cur + a);
    }
}

/// The first two lines of text made of two lines free of `\n` and `\r`-ending, then more.
proof fn lemma_first_two_lines(a: Seq<char>, b: Seq<char>, rest: Seq<char>)
    requires
        forall|i: int| 0 <= i < a.len() ==> a[i] != '\n',
        forall|i: int| 0 <= i < b.len() ==> b[i] != '\n',
        a.len() > 0 && a.last() != '\r',
        b.len() > 0 && b.last() != '\r',
    ensures
        lines(a + "\n"@ + b + "\n"@ + rest).len() >= 2,
        lines(a + "\n"@ + b + "\n"@ + rest)[0] == a,
        lines(a + "\n"@ + b + "\n"@ + rest)[1] == b,
{
    reveal_strlit("\n");
    let content = a + "\n"@ + b + "\n"@ + rest;
    assert("\n"@ =~= seq!['\n']);
    assert(content =~= a + seq!['\n'] + (b + seq!['\n'] + rest));
    lemma_split_acc_prefix(a, '\n', seq![], b + seq!['\n'] + rest);
    lemma_split_acc_prefix(b, '\n', seq![], rest);
    lemma_split_acc_nonempty(rest, '\n', seq![]);
    let p = split(content, '\n');
    assert(Seq::<char>::empty() + a =~= a);
    assert(Seq::<char>::empty() + b =~= b);
    assert(p == seq![a] + (seq![b] + split_acc(rest, '\n', seq![])));
    assert(p.len() >= 3);
    assert(p[0] == a);
    assert(p[1] == b);
}

/// Once the section of a secret is found, no later line changes it.
proof fn lemma_scan_keeps_section(ls: Seq<Seq<char>>, k: int)
    requires
        0 <= k <= ls.len(),
        scan(ls.take(k)).0 is Some,
    ensures
        scan(ls).0 == scan(ls.take(k)).0,
    decreases ls.len() - k,
{
    if k < ls.len() {
        let t = ls.take(k + 1);
        assert(t.drop_last() =~= ls.take(k));
        assert(scan(t).0 == scan(ls.take(k)).0);
        lemma_scan_keeps_section(ls, k + 1);
    } else {
        assert(ls.take(k) =~= ls);
    }
}

/// The name of each type of secret is made of lowercase letters and digits.
proof fn lemma_type_name_chars(t: SecretType)
    ensures
        secret_type_name(t).len() > 0,
        forall|i: int| 0 <= i < secret_type_name(t).len() ==> is_ascii_alnum(#[trigger] secret_type_name(t)[i]),
{
    let n = secret_type_name(t);
    match t {
        SecretType::Eap => {
            reveal_strlit("eap");
            assert(n =~= seq!['e', 'a', 'p']);
        },
        SecretType::Xauth => {
            reveal_strlit("xauth");
            assert(n =~= seq!['x', 'a', 'u', 't', 'h']);
        },
        SecretType::Ntlm => {
            reveal_strlit("ntlm");
            assert(n =~= seq!['n', 't', 'l', 'm']);
        },
        SecretType::Ike => {
            reveal_strlit("ike");
            assert(n =~= seq!['i', 'k', 'e']);
        },
        SecretType::Ppk => {
            reveal_strlit("ppk");
            assert(n =~= seq!['p', 'p', 'k']);
        },
        SecretType::Private => {
            reveal_strlit("private");
            assert(n =~= seq!['p', 'r', 'i', 'v', 'a', 't', 'e']);
        },
        SecretType::Rsa => {
            reveal_strlit("rsa");
            assert(n =~= seq!['r', 's', 'a']);
        },
        SecretType::Ecdsa => {
            reveal_strlit("ecdsa");
            assert(n =~= seq!['e', 'c', 'd', 's', 'a']);
        },
        SecretType::Pkcs8 => {
            reveal_strlit("pkcs8");
            assert(n =~= seq!['p', 'k', 'c', 's', '8']);
        },
        SecretType::Pkcs12 => {
            reveal_strlit("pkcs12");
            assert(n =~= seq!['p', 'k', 'c', 's', '1', '2']);
        },
        SecretType::Token => {
            reveal_strlit("token");
            assert(n =~= seq!['t', 'o', 'k', 'e', 'n']);
        },
    }
}

/// The first two lines of a secret's file open its section under the secret's full name.
proof fn lemma_secret_header(name: Seq<char>, t: SecretType, ls: Seq<Seq<char>>)
    requires
        safe_name(name) == Some(name),
        ls.len() >= 2,
        ls[0] == "secrets {"@,
        ls[1] == "  "@ + (secret_type_name(t) + "-"@ + name) + " {"@,
    ensures
        scan(ls.take(2)) == (Some(secret_type_name(t) + "-"@ + name), Seq::<(Seq<char>, Seq<char>)>::empty(), false),
{
    let tn = secret_type_name(t);
    let full = tn + "-"@ + name;
    let a = "secrets {"@;
    let b = "  "@ + full + " {"@;
    reveal_strlit("secrets {");
    reveal_strlit("  ");
    reveal_strlit("-");
    reveal_strlit(" {");
    reveal_strlit("{");
    reveal_strlit(" ");
    assert(" "@ =~= seq![' ']);
    assert(" {"@ =~= seq![' ', '{']);
    assert("{"@ =~= seq!['{']);
    lemma_type_name_chars(t);
    let k = tn.len();
    assert(full.len() == k + 1 + name.len());
    assert(full[k as int] == '-');
    assert forall|i: int| 0 <= i < full.len() implies #[trigger] full[i] != '\n' && !is_ws(full[i]) && full[i] != '{'
        by {
        if i < k {
            assert(is_ascii_alnum(tn[i]));
        } else if i > k {
            assert(full[i] == name[i - k - 1]);
            assert(name_char(name[i - k - 1]));
        }
    }
    // the header line, then the section's line
    assert(trim(a) == a) by {
        lemma_trim_no_ws(a);
    }
    let t1 = trim(b);
    let c = full + " {"@;
    assert(t1 == c) by {
        assert(b =~= seq![' ', ' '] + c);
        assert(is_ws(b[0]));
        assert(b.drop_first() =~= seq![' '] + c);
        assert(is_ws(b.drop_first()[0]));
        assert(b.drop_first().drop_first() =~= c);
        assert(c[0] == full[0]);
        assert(!is_ws(c[0]));
        assert(trim_start(c) == c);
        assert(trim_start(b.drop_first()) == trim_start(c));
        assert(trim_start(b) == trim_start(b.drop_first()));
        assert(c.last() == '{');
        assert(trim_end(c) == c);
    }
    assert(t1 != a) by {
        assert(t1[k as int] == '-');
        if t1.len() == a.len() {
            assert(a[k as int] != '-');
        }
    }
    assert(ends_with(t1, "{"@)) by {
        assert(t1.skip(t1.len() - 1) =~= "{"@);
    }
    let stripped = full + " "@;
    assert(t1.take(t1.len() - 1) =~= stripped);
    assert(!ends_with(stripped, "{"@)) by {
        assert(stripped.skip(stripped.len() - 1)[0] == ' ');
        assert("{"@[0] == '{');
    }
    assert(strip_suffix_all(stripped, "{"@) == stripped);
    assert(strip_suffix_all(t1, "{"@) == stripped);
    assert(trim(stripped) == full) by {
        assert(trim_start(stripped) == stripped);
        assert(stripped.drop_last() =~= full);
        assert(trim_end(full) == full);
    }
    let s0: SecretScan = (None, seq![], false);
    assert(ls.take(2).drop_last() =~= seq![a]);
    let e = seq![a].drop_last();
    assert(e.len() == 0);
    assert(scan(e) == s0);
    assert(seq![a].last() == a);
    assert(scan(seq![a]) == scan_step(s0, a));
    assert(scan_step(s0, a) == s0);
    assert(ls.take(2).last() == b);
    assert(scan(ls.take(2)) == scan_step(s0, b));
    assert(scan(ls.take(2)).0 == Some(full));
}

/// A secret written under a safe name is read back with the type it was written
/// with, whatever its settings.
pub proof fn law_written_secret_reads_back_its_type(name: Seq<char>, t: SecretType, config_lines: Seq<Seq<char>>)
    requires
        safe_name(name) == Some(name),
    ensures
        scanned_type(secret_conf(name, t, config_lines)) == Ok::<SecretType, Seq<char>>(t),
{
    let tn = secret_type_name(t);
    let full = tn + "-"@ + name;
    let a = "secrets {"@;
    let b = "  "@ + full + " {"@;
    let rest = indented_lines(config_lines) + "  }\n}\n"@;
    reveal_strlit("secrets {");
    reveal_strlit("  ");
    reveal_strlit("-");
    reveal_strlit(" {");
    reveal_strlit("secrets {\n");
    reveal_strlit(" {\n");
    reveal_strlit("\n");
    lemma_type_name_chars(t);
    let k = tn.len();
    assert(full.len() == k + 1 + name.len());
    assert(full[k as int] == '-');
    assert forall|i: int| 0 <= i < full.len() implies #[trigger] full[i] != '\n' by {
        if i < k {
            assert(is_ascii_alnum(tn[i]));
        } else if i > k {
            assert(full[i] == name[i - k - 1]);
            assert(name_char(name[i - k - 1]));
        }
    }
    let content = secret_conf(name, t, config_lines);
    assert(content =~= a + "\n"@ + b + "\n"@ + rest);
    assert forall|i: int| 0 <= i < b.len() implies b[i] != '\n' by {
        if 2 <= i < 2 + full.len() {
            assert(b[i] == full[i - 2]);
        }
    }
    lemma_first_two_lines(a, b, rest);
    let ls = lines(content);
    lemma_secret_header(name, t, ls);
    lemma_scan_keeps_section(ls, 2);
    // the type is what comes before the first `-`
    lemma_has_char_index(full, '-');
    assert(has_char(full, '-'));
    assert(index_of(full, '-') == k) by {
        if index_of(full, '-') < k {
            assert(is_ascii_alnum(tn[index_of(full, '-')]));
        }
    }
    assert(full.take(k as int) =~= tn);
    law_secret_type_name_round_trip(t);
}

// ───────────────────────────── the PDF report ─────────────────────────────

proof fn lemma_offsets_count(objs: Seq<Seq<char>>)
    ensures
        body_fold(objs).1.len() == objs.len(),
    decreases objs.len(),
{
    if objs.len() > 0 {
        lemma_offsets_count(objs.drop_last());
    }
}

/// The cross-reference table of the report locates every object: its `k`-th
/// offset is the length in bytes of the text that comes before object `k + 1`,
/// and that text is followed by `<k + 1> 0 obj`. (`startxref` is likewise the
/// length in bytes of the whole body, see `pdf_document`.)
pub proof fn law_cross_references_locate_objects(objs: Seq<Seq<char>>, k: int)
    requires
        0 <= k < objs.len(),
    ensures
        body_fold(objs).1.len() == objs.len(),
        body_fold(objs).1[k] == utf8_len(body_fold(objs.take(k)).0),
        body_fold(objs.take(k)).0.len() <= body_fold(objs).0.len(),
        body_fold(objs).0.take(body_fold(objs.take(k)).0.len() as int) == body_fold(objs.take(k)).0,
        starts_with(
            body_fold(objs).0.skip(body_fold(objs.take(k)).0.len() as int),
            decimal((k + 1) as nat) + " 0 obj\n"@,
        ),
    decreases objs.len(),
{
    lemma_offsets_count(objs);
    let prev = body_fold(objs.drop_last());
    let b = body_fold(objs);
    let d = decimal(objs.len()) + " 0 obj\n"@;
    assert(b.0 == prev.0 + decimal(objs.len()) + " 0 obj\n"@ + objs.last() + "\nendobj\n"@);
    assert(b.0 =~= prev.0 + (d + (objs.last() + "\nendobj\n"@)));
    if k == objs.len() - 1 {
        assert(objs.take(k) =~= objs.drop_last());
        assert(b.0.take(prev.0.len() as int) =~= prev.0);
        assert(b.0.skip(prev.0.len() as int) =~= d + (objs.last() + "\nendobj\n"@));
        assert(b.0.skip(prev.0.len() as int).take(d.len() as int) =~= d);
    } else {
        law_cross_references_locate_objects(objs.drop_last(), k);
        assert(objs.drop_last().take(k) =~= objs.take(k));
        let p = body_fold(objs.take(k)).0;
        lemma_offsets_count(objs.drop_last());
        assert(b.1[k] == prev.1[k]);
        let dk = decimal((k + 1) as nat) + " 0 obj\n"@;
        assert(b.0.take(p.len() as int) =~= prev.0.take(p.len() as int));
        assert(prev.0.skip(p.len() as int).take(dk.len() as int) == dk);
        assert(b.0.skip(p.len() as int).take(dk.len() as int) =~= prev.0.skip(p.len() as int).take(dk.len() as int));
    }
}

// ───────────────────────────── connection files ─────────────────────────────

/// Text without the separator is a single piece.
proof fn lemma_split_acc_whole(s: Seq<char>, c: char, cur: Seq<char>)
    requires
        forall|i: int| 0 <= i < s.len() ==> s[i] != c,
    ensures
        split_acc(s, c, cur) == seq![cur + s],
    decreases s.len(),
{
    if s.len() == 0 {
        assert(cur + s =~= cur);
    } else {
        lemma_split_acc_whole(s.drop_first(), c, cur.push(s[0]));
        assert(cur.push(s[0]) + s.drop_first() =~= cur + s);
    }
}

/// Splitting at a separator splits the two sides apart.
proof fn lemma_split_acc_concat(a: Seq<char>, c: char, cur: Seq<char>, rest: Seq<char>)
    ensures
        split_acc(a + seq![c] + rest, c, cur) == split_acc(a, c, cur) + split_acc(rest, c, seq![]),
    decreases a.len(),
{
    let s = a + seq![c] + rest;
    if a.len() == 0 {
        assert(s[0] == c);
        assert(s.drop_first() =~= rest);
    } else if a[0] == c {
        assert(s[0] == c);
        assert(s.drop_first() =~= a.drop_first() + seq![c] + rest);
        lemma_split_acc_concat(a.drop_first(), c, seq![], rest);
        assert(seq![cur] + (split_acc(a.drop_first(), c, seq![]) + split_acc(rest, c, seq![])) =~= (seq![cur]
            + split_acc(a.drop_first(), c, seq![])) + split_acc(rest, c, seq![]));
    } else {
        assert(s[0] == a[0]);
        assert(s.drop_first() =~= a.drop_first() + seq![c] + rest);
        lemma_split_acc_concat(a.drop_first(), c, cur.push(a[0]), rest);
    }
}

/// No piece of a split holds the separator.
proof fn lemma_split_acc_pieces(s: Seq<char>, c: char, cur: Seq<char>)
    requires
        forall|i: int| 0 <= i < cur.len() ==> cur[i] != c,
    ensures
        forall|k: int, i: int|
            0 <= k < split_acc(s, c, cur).len() && 0 <= i < split_acc(s, c, cur)[k].len() ==> #[trigger] split_acc(
                s,
                c,
                cur,
            )[k][i] != c,
    decreases s.len(),
{
    if s.len() == 0 {
        assert forall|k: int, i: int|
            0 <= k < split_acc(s, c, cur).len() && 0 <= i < split_acc(s, c, cur)[k].len() implies #[trigger] split_acc(
            s,
            c,
            cur,
        )[k][i] != c by {
            assert(split_acc(s, c, cur)[k] == cur);
        }
    } else {
        if s[0] == c {
            lemma_split_acc_pieces(s.drop_first(), c, seq![]);
            let r = split_acc(s.drop_first(), c, seq![]);
            assert(split_acc(s, c, cur) == seq![cur] + r);
            assert forall|k: int, i: int|
                0 <= k < split_acc(s, c, cur).len() && 0 <= i < split_acc(s, c, cur)[k].len() implies #[trigger] split_acc(
                s,
                c,
                cur,
            )[k][i] != c by {
                if k > 0 {
                    assert(split_acc(s, c, cur)[k] == r[k - 1]);
                    assert(r[k - 1][i] != c);
                }
            }
        } else {
            assert forall|i: int| 0 <= i < cur.push(s[0]).len() implies cur.push(s[0])[i] != c by {
                if i < cur.len() {
                    assert(cur.push(s[0])[i] == cur[i]);
                }
            }
            lemma_split_acc_pieces(s.drop_first(), c, cur.push(s[0]));
            let r = split_acc(s.drop_first(), c, cur.push(s[0]));
            assert(split_acc(s, c, cur) == r);
            assert forall|k: int, i: int|
                0 <= k < split_acc(s, c, cur).len() && 0 <= i < split_acc(s, c, cur)[k].len() implies #[trigger] split_acc(
                s,
                c,
                cur,
            )[k][i] != c by {
                assert(r[k][i] != c);
            }
        }
    }
}

/// The lines of a text hold no line break.
proof fn lemma_lines_have_no_break(s: Seq<char>)
    ensures
        forall|k: int, i: int|
            0 <= k < lines(s).len() && 0 <= i < lines(s)[k].len() ==> #[trigger] lines(s)[k][i] != '\n',
{
    let p = split(s, '\n');
    lemma_split_acc_pieces(s, '\n', seq![]);
    let q = if p.len() > 0 && p.last().len() == 0 {
        p.drop_last()
    } else {
        p
    };
    assert forall|k: int, i: int| 0 <= k < lines(s).len() && 0 <= i < lines(s)[k].len() implies #[trigger] lines(
        s,
    )[k][i] != '\n' by {
        assert(q[k] == p[k]);
        assert(lines(s)[k] == strip_cr(q[k]));
        assert(lines(s)[k][i] == p[k][i]);
    }
}

/// Indented lines start with the indent's first space.
proof fn lemma_indented_lines_start(ls: Seq<Seq<char>>)
    ensures
        ls.len() > 0 ==> indented_lines(ls).len() > 0 && indented_lines(ls)[0] == ' ',
    decreases ls.len(),
{
    reveal_strlit("    ");
    reveal_strlit("\n");
    if ls.len() > 0 {
        lemma_indented_lines_start(ls.drop_last());
        let i0 = indented_lines(ls.drop_last());
        assert(indented_lines(ls) == i0 + "    "@ + ls.last() + "\n"@);
        if ls.len() == 1 {
            assert(i0.len() == 0);
            assert(indented_lines(ls)[0] == "    "@[0]);
        } else {
            assert(indented_lines(ls)[0] == i0[0]);
        }
    }
}

/// Splitting indented lines, then a last piece, at line breaks gives back each
/// line behind its indent, then that piece.
proof fn lemma_split_indented(ls: Seq<Seq<char>>, tail: Seq<char>)
    requires
        forall|k: int, i: int| 0 <= k < ls.len() && 0 <= i < ls[k].len() ==> #[trigger] ls[k][i] != '\n',
        forall|i: int| 0 <= i < tail.len() ==> tail[i] != '\n',
    ensures
        split(indented_lines(ls) + tail, '\n') == ls.map_values(|l: Seq<char>| "    "@ + l).push(tail),
    decreases ls.len(),
{
    reveal_strlit("    ");
    reveal_strlit("\n");
    if ls.len() == 0 {
        lemma_split_acc_whole(tail, '\n', seq![]);
        assert(indented_lines(ls) + tail =~= tail);
        assert(Seq::<char>::empty() + tail =~= tail);
        assert(ls.map_values(|l: Seq<char>| "    "@ + l).push(tail) =~= seq![tail]);
    } else {
        let init = ls.drop_last();
        let l = ls.last();
        let piece = "    "@ + l;
        assert forall|i: int| 0 <= i < piece.len() implies piece[i] != '\n' by {
            if i >= 4 {
                assert(piece[i] == ls[ls.len() - 1][i - 4]);
            }
        }
        assert forall|k: int, i: int| 0 <= k < init.len() && 0 <= i < init[k].len() implies #[trigger] init[k][i]
            != '\n' by {
            assert(init[k] == ls[k]);
        }
        lemma_split_indented(init, piece);
        assert(indented_lines(ls) + tail =~= (indented_lines(init) + piece) + seq!['\n'] + tail);
        lemma_split_acc_concat(indented_lines(init) + piece, '\n', seq![], tail);
        lemma_split_acc_whole(tail, '\n', seq![]);
        assert(Seq::<char>::empty() + tail =~= tail);
        assert(ls.map_values(|l: Seq<char>| "    "@ + l) =~= init.map_values(|l: Seq<char>| "    "@ + l).push(
            piece,
        ));
        assert(init.map_values(|l: Seq<char>| "    "@ + l).push(piece) + seq![tail] =~= ls.map_values(
            |l: Seq<char>| "    "@ + l,
        ).push(tail));
    }
}

/// `find` stops at the first place where the pattern occurs.
proof fn lemma_find_from_first(s: Seq<char>, t: Seq<char>, j: int, k: int)
    requires
        0 <= j <= k,
        occurs_at(s, t, k),
        forall|i: int| j <= i < k ==> !occurs_at(s, t, i),
    ensures
        find_from(s, t, j) == k,
    decreases k - j,
{
    if j < k {
        lemma_find_from_first(s, t, j + 1, k);
    }
}

/// In the file of a safe name that does not end the word `connections`, the
/// name's section header is the first place where `name {` occurs.
proof fn lemma_connection_header_found(name: Seq<char>, body: Seq<char>)
    requires
        safe_name(name) == Some(name),
        !ends_with("connections"@, name),
    ensures
        find(connection_conf(name, body), name + " {"@) == 16,
{
    reveal_strlit("connections {\n");
    reveal_strlit("connections");
    reveal_strlit("  ");
    reveal_strlit(" {\n");
    reveal_strlit(" {");
    let c = connection_conf(name, body);
    let t = name + " {"@;
    let head = "connections {\n"@ + "  "@;
    let n: int = name.len() as int;
    assert(head.len() == 16);
    assert(c =~= head + name + " {\n"@ + (indented_lines(lines(body)) + "  }\n}\n"@));
    assert forall|j: int| 0 <= j < n implies c[16 + j] == #[trigger] name[j] by {}
    assert(c[16 + n] == ' ');
    assert(c[16 + n + 1] == '{');
    assert(c.subrange(16, 16 + t.len() as int) =~= t);
    assert(occurs_at(c, t, 16));
    assert(name == trim(name));
    assert forall|i: int| 0 <= i < 16 implies !occurs_at(c, t, i) by {
        if occurs_at(c, t, i) {
            let w = c.subrange(i, i + t.len());
            assert(w[n] == t[n]);
            assert(c[i + n] == ' ');
            assert(w[n + 1] == t[n + 1]);
            assert(c[i + n + 1] == '{');
            if i + n >= 16 {
                assert(name[i + n - 16] == c[i + n]);
                assert(name_char(name[i + n - 16]));
            } else if i + n == 15 {
                assert(c[16] == name[0]);
                assert(name_char(name[0]));
            } else {
                assert(head[i + n] == ' ');
                assert(i + n == 11 || i + n == 14) by {
                    assert(head =~= seq!['c', 'o', 'n', 'n', 'e', 'c', 't', 'i', 'o', 'n', 's', ' ', '{', '\n', ' ', ' ']);
                }
                if i + n == 14 {
                    assert(c[15] == ' ');
                } else {
                    let word = "connections"@;
                    assert(word.len() == 11);
                    assert forall|j: int| 0 <= j < n implies word.skip(11 - n)[j] == name[j] by {
                        assert(w[j] == t[j]);
                        assert(c[i + j] == head[i + j]);
                        assert(head[i + j] == word[i + j]);
                    }
                    assert(word.skip(11 - n) =~= name);
                }
            }
        }
    }
    lemma_find_from_first(c, t, 0, 16);
}

/// A connection written under a safe name and read back gives the body's lines,
/// each without a trailing carriage return, followed by a line holding the brace
/// that closes the name's section, all joined by line breaks and trimmed: the
/// read keeps that brace. A safe name that ends the word `connections` (such as
/// `s`) is found inside the file's first line instead, and reads back otherwise.
pub proof fn law_connection_read_back(name: Seq<char>, body: Seq<char>)
    requires
        safe_name(name) == Some(name),
        !ends_with("connections"@, name),
    ensures
        connection_body(name, connection_conf(name, body)) == Some(
            trim(join(lines(body).map_values(|l: Seq<char>| strip_cr(l)).push("  }"@), "\n"@)),
        ),
{
    reveal_strlit("connections {\n");
    reveal_strlit("  ");
    reveal_strlit(" {\n");
    reveal_strlit(" {");
    reveal_strlit("  }\n}\n");
    reveal_strlit("  }\n");
    reveal_strlit("  }");
    reveal_strlit("    ");
    reveal_strlit("\n");
    let ls = lines(body);
    let ind = indented_lines(ls);
    let c = connection_conf(name, body);
    let t = name + " {"@;
    lemma_connection_header_found(name, body);
    assert(t.len() == name.len() + 2);
    let after = c.skip(16 + t.len() as int);
    assert(after =~= "\n"@ + ind + "  }\n}\n"@);
    // the last `}` is the one that closes the file
    assert(after.last() == '\n');
    assert(after.drop_last().last() == '}');
    assert(rindex_of(after.drop_last(), '}') == after.len() - 2);
    assert(rindex_of(after, '}') == after.len() - 2);
    let head = after.take(after.len() - 2);
    assert(head =~= "\n"@ + ind + "  }\n"@);
    // the surrounding line breaks go
    lemma_indented_lines_start(ls);
    let s1 = ind + "  }\n"@;
    assert(head[0] == '\n');
    assert(head.drop_first() =~= s1);
    assert(s1[0] == ' ');
    assert(s1.last() == '\n');
    let s2 = ind + "  }"@;
    assert(s1.drop_last() =~= s2);
    assert(s2[0] == ' ');
    assert(s2.last() == '}');
    assert(trim_char(s2, '\n') == s2);
    assert(trim_char(s1, '\n') == s2);
    assert(trim_char(head, '\n') == s2);
    // its lines are the written lines behind their indent, then the brace
    lemma_lines_have_no_break(body);
    assert forall|i: int| 0 <= i < "  }"@.len() implies "  }"@[i] != '\n' by {}
    lemma_split_indented(ls, "  }"@);
    let p = split(s2, '\n');
    assert(p == ls.map_values(|l: Seq<char>| "    "@ + l).push("  }"@));
    assert(p.last() == "  }"@);
    assert(lines(s2) == p.map_values(|l: Seq<char>| strip_cr(l)));
    let cleaned = lines(s2).map_values(|l: Seq<char>| strip_prefix_or_keep(l, "    "@));
    let want = ls.map_values(|l: Seq<char>| strip_cr(l)).push("  }"@);
    assert(cleaned.len() == want.len());
    assert forall|k: int| 0 <= k < cleaned.len() implies cleaned[k] == want[k] by {
        if k < ls.len() {
            let l = ls[k];
            let x = "    "@ + l;
            assert(p[k] == x);
            assert(strip_cr(x) =~= "    "@ + strip_cr(l)) by {
                if l.len() > 0 {
                    assert(x.last() == l.last());
                    if l.last() == '\r' {
                        assert(x.drop_last() =~= "    "@ + l.drop_last());
                    }
                } else {
                    assert(x.last() == ' ');
                }
            }
            let y = "    "@ + strip_cr(l);
            assert(y.take(4) =~= "    "@);
            assert(y.skip(4) =~= strip_cr(l));
            assert(cleaned[k] == strip_prefix_or_keep(strip_cr(x), "    "@));
        } else {
            assert(p[k] == "  }"@);
            assert(strip_cr("  }"@) == "  }"@);
            assert(!starts_with("  }"@, "    "@));
        }
    }
    assert(cleaned =~= want);
}

// ───────────────────────────── API keys ─────────────────────────────

/// With API keys on, a request to a protected route gets through exactly when it
/// carries a key that the lookup found valid; one without a key is refused, and
/// one whose lookup failed is answered with an internal error. With keys off,
/// every request gets through.
pub proof fn law_protected_routes_need_a_valid_key(enabled: bool, provided: Option<String>, valid: Option<bool>)
    ensures
        enabled ==> (request_verdict(enabled, provided, valid) == AccessVerdict::Proceed <==> (provided is Some
            && valid == Some(true))),
        enabled && provided is None ==> request_verdict(enabled, provided, valid) == AccessVerdict::Unauthorized,
        enabled && provided is Some && valid is None ==> request_verdict(enabled, provided, valid)
            == AccessVerdict::InternalError,
        !enabled ==> request_verdict(enabled, provided, valid) == AccessVerdict::Proceed,
{
}

// ───────────────────────────── secret settings ─────────────────────────────

/// Dropping a trailing whitespace character does not change what `trim` keeps.
proof fn lemma_trim_drop_ws_last(w: Seq<char>)
    requires
        w.len() > 0,
        is_ws(w.last()),
    ensures
        trim(w) == trim(w.drop_last()),
    decreases w.len(),
{
    if is_ws(w[0]) {
        if w.len() == 1 {
            assert(w.drop_first().len() == 0);
            assert(trim_start(w) == trim_start(w.drop_first()));
            assert(w.drop_last().len() == 0);
        } else {
            let d = w.drop_first();
            lemma_trim_drop_ws_last(d);
            assert(w.drop_last().drop_first() =~= d.drop_last());
            assert(w.drop_last()[0] == w[0]);
            assert(trim_start(w) == trim_start(d));
            assert(trim_start(w.drop_last()) == trim_start(d.drop_last()));
        }
    } else {
        assert(w.len() >= 2) by {
            if w.len() == 1 {
                assert(w[0] == w.last());
            }
        }
        assert(trim_start(w) == w);
        assert(w.drop_last()[0] == w[0]);
        assert(trim_start(w.drop_last()) == w.drop_last());
        assert(trim_end(w) == trim_end(w.drop_last()));
    }
}

/// `trim` after `trim_end` keeps what `trim` keeps.
proof fn lemma_trim_of_trim_end(w: Seq<char>)
    ensures
        trim(trim_end(w)) == trim(w),
    decreases w.len(),
{
    if w.len() > 0 && is_ws(w.last()) {
        lemma_trim_of_trim_end(w.drop_last());
        lemma_trim_drop_ws_last(w);
    }
}

/// Whitespace in front is skipped by `trim_start`.
proof fn lemma_trim_start_skip(p: Seq<char>, q: Seq<char>)
    requires
        forall|i: int| 0 <= i < p.len() ==> is_ws(#[trigger] p[i]),
    ensures
        trim_start(p + q) == trim_start(q),
    decreases p.len(),
{
    if p.len() > 0 {
        assert((p + q)[0] == p[0]);
        assert((p + q).drop_first() =~= p.drop_first() + q);
        assert forall|i: int| 0 <= i < p.drop_first().len() implies is_ws(#[trigger] p.drop_first()[i]) by {
            assert(p.drop_first()[i] == p[i + 1]);
        }
        lemma_trim_start_skip(p.drop_first(), q);
    } else {
        assert(p + q =~= q);
    }
}

/// `trim_end` stops at a last character of `p` that is not whitespace.
proof fn lemma_trim_end_keep(p: Seq<char>, q: Seq<char>)
    requires
        p.len() > 0,
        !is_ws(p.last()),
    ensures
        trim_end(p + q) == p + trim_end(q),
    decreases q.len(),
{
    if q.len() == 0 {
        assert(p + q =~= p);
        assert(p + trim_end(q) =~= p);
    } else if is_ws(q.last()) {
        assert((p + q).last() == q.last());
        assert((p + q).drop_last() =~= p + q.drop_last());
        lemma_trim_end_keep(p, q.drop_last());
    } else {
        assert((p + q).last() == q.last());
    }
}

/// The line written for a setting: its key, ` = ` and its value.
pub open spec fn setting_line(kv: (Seq<char>, Seq<char>)) -> Seq<char> {
    kv.0 + " = "@ + kv.1
}

/// A key that reads back as itself: no whitespace at its ends, no `=` and no line break.
pub open spec fn plain_key(k: Seq<char>) -> bool {
    &&& trim(k) == k
    &&& forall|i: int| 0 <= i < k.len() ==> #[trigger] k[i] != '=' && k[i] != '\n'
}

/// What a setting reads back as: its key, and its value trimmed.
pub open spec fn read_back(settings: Seq<(Seq<char>, Seq<char>)>) -> Seq<(Seq<char>, Seq<char>)> {
    settings.map_values(|kv: (Seq<char>, Seq<char>)| (kv.0, trim(kv.1)))
}

/// The key as it stands before `=` in the line of a setting: followed by a space
/// when there is a key.
pub open spec fn key_head(k: Seq<char>) -> Seq<char> {
    if k.len() == 0 {
        k
    } else {
        k + " "@
    }
}

/// Dropping a carriage return that ends the line of a setting drops it from the value.
proof fn lemma_strip_cr_assignment(k: Seq<char>, v: Seq<char>)
    ensures
        strip_cr("    "@ + setting_line((k, v))) == "    "@ + (k + " = "@ + strip_cr(v)),
        trim(strip_cr(v)) == trim(v),
{
    reveal_strlit("    ");
    reveal_strlit(" = ");
    let x = "    "@ + setting_line((k, v));
    if v.len() > 0 {
        assert(x.last() == v.last());
        if v.last() == '\r' {
            assert(x.drop_last() =~= "    "@ + (k + " = "@ + v.drop_last()));
            lemma_trim_drop_ws_last(v);
        } else {
            assert(x =~= "    "@ + (k + " = "@ + strip_cr(v)));
        }
    } else {
        assert(x.last() == ' ');
        assert(x =~= "    "@ + (k + " = "@ + strip_cr(v)));
    }
}

/// Trimming the indented line of a setting leaves the key, `=` and the value trimmed
/// at its end.
proof fn lemma_trim_indented_assignment(k: Seq<char>, v: Seq<char>)
    requires
        plain_key(k),
    ensures
        trim("    "@ + (k + " = "@ + v)) == key_head(k) + seq!['='] + trim_end(" "@ + v),
{
    reveal_strlit("    ");
    reveal_strlit(" = ");
    reveal_strlit(" ");
    let ind = "    "@;
    let y = k + " = "@ + v;
    assert forall|i: int| 0 <= i < ind.len() implies is_ws(#[trigger] ind[i]) by {}
    lemma_trim_start_skip(ind, y);
    let k1 = key_head(k);
    let tail = " "@ + v;
    let eq = seq!['='];
    lemma_trim_shape(k);
    assert(trim_start(y) == k1 + eq + tail) by {
        if k.len() == 0 {
            assert(y =~= " "@ + (eq + tail));
            assert forall|i: int| 0 <= i < " "@.len() implies is_ws(#[trigger] " "@[i]) by {}
            lemma_trim_start_skip(" "@, eq + tail);
            assert((eq + tail)[0] == '=');
            assert(k1 + eq + tail =~= eq + tail);
        } else {
            assert(y[0] == k[0]);
            assert(y =~= k1 + eq + tail);
        }
    }
    let head = k1 + eq;
    assert(head.last() == '=');
    lemma_trim_end_keep(head, tail);
    assert(k1 + eq + tail =~= head + tail);
}

/// The indented line of a setting, trimmed, is split by its first `=` into its key
/// and its value.
proof fn lemma_assignment_line(k: Seq<char>, v: Seq<char>)
    requires
        plain_key(k),
    ensures
        ({
            let t = trim(strip_cr("    "@ + setting_line((k, v))));
            &&& t.len() > 0
            &&& has_char(t, '=')
            &&& t != "}"@
            &&& t != "secrets {"@
            &&& trim(before_eq(t)) == k
            &&& trim(after_eq(t)) == trim(v)
        }),
{
    reveal_strlit("}");
    reveal_strlit("secrets {");
    reveal_strlit(" ");
    lemma_strip_cr_assignment(k, v);
    let v2 = strip_cr(v);
    lemma_trim_indented_assignment(k, v2);
    let k1 = key_head(k);
    let tail = " "@ + v2;
    let t = trim(strip_cr("    "@ + setting_line((k, v))));
    assert(t == k1 + seq!['='] + trim_end(tail));
    let q = k1.len();
    assert(t[q as int] == '=');
    assert forall|j: int| 0 <= j < q implies t[j] != '=' by {
        assert(t[j] == k1[j]);
        if j < k.len() {
            assert(k1[j] == k[j]);
        }
    }
    crate::text::lemma_index_of(t, '=', q as int);
    lemma_has_char_index(t, '=');
    assert(before_eq(t) =~= k1);
    assert(trim(k1) == k) by {
        if k.len() > 0 {
            lemma_trim_shape(k);
            assert(k1[0] == k[0]);
            assert(trim_start(k1) == k1);
            lemma_trim_end_keep(k, " "@);
            assert(" "@.drop_last() =~= Seq::<char>::empty());
            assert(trim_end(Seq::<char>::empty()) =~= Seq::<char>::empty());
            assert(trim_end(" "@) =~= Seq::<char>::empty());
            assert(k + Seq::<char>::empty() =~= k);
        }
    }
    assert(after_eq(t) =~= trim_end(tail));
    lemma_trim_of_trim_end(tail);
    assert(trim_start(tail) == trim_start(v2)) by {
        assert forall|i: int| 0 <= i < " "@.len() implies is_ws(#[trigger] " "@[i]) by {}
        lemma_trim_start_skip(" "@, v2);
    }
    assert(t != "}"@) by {
        if t.len() == 1 {
            assert(q == 0);
        }
    }
    assert(t != "secrets {"@) by {
        assert("secrets {"@ =~= seq!['s', 'e', 'c', 'r', 'e', 't', 's', ' ', '{']);
    }
}

/// A scan inside a section keeps each setting line it meets, key and trimmed value.
proof fn lemma_scan_assignment(st: SecretScan, kv: (Seq<char>, Seq<char>))
    requires
        st.0 is Some,
        !st.2,
        plain_key(kv.0),
    ensures
        scan_step(st, strip_cr("    "@ + setting_line(kv))) == (st.0, st.1.push((kv.0, trim(kv.1))), false),
{
    lemma_assignment_line(kv.0, kv.1);
}

/// The scan of a run of setting lines inside an open section.
proof fn lemma_scan_assignments(ls: Seq<Seq<char>>, start: int, settings: Seq<(Seq<char>, Seq<char>)>)
    requires
        0 <= start,
        start + settings.len() <= ls.len(),
        scan(ls.take(start)).0 is Some,
        !scan(ls.take(start)).2,
        forall|i: int| 0 <= i < settings.len() ==> plain_key(#[trigger] settings[i].0),
        forall|i: int| 0 <= i < settings.len() ==> ls[start + i] == strip_cr("    "@ + setting_line(#[trigger] settings[i])),
    ensures
        scan(ls.take(start + settings.len())) == (
            scan(ls.take(start)).0,
            scan(ls.take(start)).1 + read_back(settings),
            false,
        ),
    decreases settings.len(),
{
    let s0 = scan(ls.take(start));
    if settings.len() == 0 {
        assert(s0.1 + read_back(settings) =~= s0.1);
        assert(ls.take(start + settings.len()) == ls.take(start));
    } else {
        let init = settings.drop_last();
        let kv = settings.last();
        assert forall|i: int| 0 <= i < init.len() implies plain_key(#[trigger] init[i].0) by {
            assert(init[i] == settings[i]);
        }
        assert forall|i: int| 0 <= i < init.len() implies ls[start + i] == strip_cr(
            "    "@ + setting_line(#[trigger] init[i]),
        ) by {
            assert(init[i] == settings[i]);
        }
        lemma_scan_assignments(ls, start, init);
        let n = start + settings.len();
        let tk = ls.take(n);
        assert(tk.drop_last() =~= ls.take(n - 1));
        assert(tk.last() == ls[n - 1]);
        assert(ls[n - 1] == strip_cr("    "@ + setting_line(settings[settings.len() - 1])));
        lemma_scan_assignment(scan(ls.take(n - 1)), kv);
        assert(read_back(settings) =~= read_back(init).push((kv.0, trim(kv.1))));
        assert(s0.1 + read_back(init).push((kv.0, trim(kv.1))) =~= (s0.1 + read_back(init)).push((kv.0, trim(kv.1))));
    }
}

/// The lines of a secret's file: its header, its section's line, each written line
/// behind its indent, and the two closing braces.
proof fn lemma_secret_conf_lines(name: Seq<char>, t: SecretType, config_lines: Seq<Seq<char>>)
    requires
        forall|k: int, i: int| 0 <= k < config_lines.len() && 0 <= i < config_lines[k].len() ==> #[trigger] config_lines[k][i] != '\n',
        forall|i: int| 0 <= i < (secret_type_name(t) + "-"@ + name).len() ==> #[trigger] (secret_type_name(t) + "-"@ + name)[i] != '\n',
    ensures
        lines(secret_conf(name, t, config_lines)) == seq!["secrets {"@, "  "@ + (secret_type_name(t) + "-"@ + name) + " {"@] + config_lines.map_values(
            |l: Seq<char>| strip_cr("    "@ + l),
        ) + seq!["  }"@, "}"@],
{
    reveal_strlit("secrets {");
    reveal_strlit("secrets {\n");
    reveal_strlit("  ");
    reveal_strlit(" {");
    reveal_strlit(" {\n");
    reveal_strlit("  }\n}\n");
    reveal_strlit("  }");
    reveal_strlit("}");
    reveal_strlit("    ");
    let full = secret_type_name(t) + "-"@ + name;
    let a = "secrets {"@;
    let b = "  "@ + full + " {"@;
    let ind = indented_lines(config_lines);
    let nl = seq!['\n'];
    let e = Seq::<char>::empty();
    let s1 = (a + nl + b) + nl + (ind + "  }"@);
    let s0 = s1 + nl + "}"@;
    assert(secret_conf(name, t, config_lines) =~= s0 + nl + e);
    assert forall|i: int| 0 <= i < a.len() implies a[i] != '\n' by {}
    assert forall|i: int| 0 <= i < b.len() implies b[i] != '\n' by {
        if 2 <= i < 2 + full.len() {
            assert(b[i] == full[i - 2]);
        }
    }
    assert forall|i: int| 0 <= i < "  }"@.len() implies "  }"@[i] != '\n' by {}
    assert forall|i: int| 0 <= i < "}"@.len() implies "}"@[i] != '\n' by {}
    lemma_split_acc_concat(s0, '\n', e, e);
    lemma_split_acc_concat(s1, '\n', e, "}"@);
    lemma_split_acc_concat(a + nl + b, '\n', e, ind + "  }"@);
    lemma_split_acc_concat(a, '\n', e, b);
    lemma_split_acc_whole(a, '\n', e);
    lemma_split_acc_whole(b, '\n', e);
    lemma_split_acc_whole("}"@, '\n', e);
    lemma_split_indented(config_lines, "  }"@);
    assert(e + a =~= a);
    assert(e + b =~= b);
    assert(e + "}"@ =~= "}"@);
    let mid = config_lines.map_values(|l: Seq<char>| "    "@ + l);
    let p = split(secret_conf(name, t, config_lines), '\n');
    assert(p =~= seq![a, b] + mid + seq!["  }"@, "}"@, e]);
    let q = p.drop_last();
    assert(q =~= seq![a, b] + mid + seq!["  }"@, "}"@]);
    let want = seq![a, b] + config_lines.map_values(|l: Seq<char>| strip_cr("    "@ + l)) + seq!["  }"@, "}"@];
    let got = lines(secret_conf(name, t, config_lines));
    assert(got == q.map_values(|l: Seq<char>| strip_cr(l)));
    assert(got.len() == want.len());
    assert forall|i: int| 0 <= i < got.len() implies got[i] == want[i] by {
        assert(got[i] == strip_cr(q[i]));
        if i == 0 {
            assert(a.last() == '{');
        } else if i == 1 {
            assert(b.last() == '{');
        } else if i < 2 + config_lines.len() {
            assert(q[i] == mid[i - 2]);
        } else if i == 2 + config_lines.len() {
            assert("  }"@.last() == '}');
        } else {
            assert("}"@.last() == '}');
        }
    }
    assert(got =~= want);
}

/// A secret written under a safe name with one `key = value` line per setting
/// reads back, in the section named after its type and name, each setting in the
/// order written, its key unchanged and its value trimmed, and the section closed.
/// A key with whitespace at an end or with `=` reads back otherwise, and a value
/// with a line break spreads over two lines.
pub proof fn law_written_secret_reads_back_its_settings(
    name: Seq<char>,
    t: SecretType,
    settings: Seq<(Seq<char>, Seq<char>)>,
)
    requires
        safe_name(name) == Some(name),
        forall|i: int| 0 <= i < settings.len() ==> plain_key(#[trigger] settings[i].0),
        forall|i: int, j: int| 0 <= i < settings.len() && 0 <= j < settings[i].1.len() ==> #[trigger] settings[i].1[j] != '\n',
    ensures
        scan(lines(secret_conf(name, t, settings.map_values(|kv: (Seq<char>, Seq<char>)| setting_line(kv))))) == (
            Some(secret_type_name(t) + "-"@ + name),
            read_back(settings),
            true,
        ),
{
    reveal_strlit(" = ");
    reveal_strlit("-");
    reveal_strlit("  }");
    reveal_strlit("}");
    reveal_strlit("secrets {");
    let tn = secret_type_name(t);
    let full = tn + "-"@ + name;
    let cl = settings.map_values(|kv: (Seq<char>, Seq<char>)| setting_line(kv));
    lemma_type_name_chars(t);
    let k = tn.len();
    assert forall|i: int| 0 <= i < full.len() implies #[trigger] full[i] != '\n' by {
        if i < k {
            assert(is_ascii_alnum(tn[i]));
        } else if i > k {
            assert(full[i] == name[i - k - 1]);
            assert(name_char(name[i - k - 1]));
        }
    }
    assert forall|m: int, i: int| 0 <= m < cl.len() && 0 <= i < cl[m].len() implies #[trigger] cl[m][i] != '\n' by {
        let kv = settings[m];
        assert(cl[m] == kv.0 + " = "@ + kv.1);
        if i < kv.0.len() {
            assert(cl[m][i] == kv.0[i]);
            assert(plain_key(settings[m].0));
        } else if i >= kv.0.len() + 3 {
            assert(cl[m][i] == settings[m].1[i - kv.0.len() - 3]);
        }
    }
    lemma_secret_conf_lines(name, t, cl);
    let ls = lines(secret_conf(name, t, cl));
    let n: int = settings.len() as int;
    assert(ls[0] == "secrets {"@);
    assert(ls[1] == "  "@ + full + " {"@);
    lemma_secret_header(name, t, ls);
    assert forall|i: int| 0 <= i < n implies ls[2 + i] == strip_cr("    "@ + setting_line(#[trigger] settings[i])) by {
        assert(cl[i] == setting_line(settings[i]));
    }
    lemma_scan_assignments(ls, 2, settings);
    assert(Seq::<(Seq<char>, Seq<char>)>::empty() + read_back(settings) =~= read_back(settings));
    let s2 = scan(ls.take(2 + n));
    // the section's closing brace closes it; the file's closing brace changes nothing
    let t3 = ls.take(3 + n);
    assert(t3.drop_last() =~= ls.take(2 + n));
    assert(t3.last() == "  }"@);
    assert(trim("  }"@) == "}"@) by {
        assert("  }"@ =~= seq![' ', ' ', '}']);
        assert("}"@ =~= seq!['}']);
        assert("  }"@.drop_first() =~= seq![' ', '}']);
        assert("  }"@.drop_first().drop_first() =~= seq!['}']);
        assert(trim_start(seq!['}']) == seq!['}']);
        assert(trim_start(seq![' ', '}']) == trim_start(seq!['}']));
        assert(trim_start("  }"@) == trim_start(seq![' ', '}']));
        assert(trim_start("  }"@) == "}"@);
        assert(trim_end("}"@) == "}"@);
    }
    assert("}"@ != "secrets {"@) by {
        assert("}"@.len() != "secrets {"@.len());
    }
    assert(!ends_with("}"@, "{"@)) by {
        reveal_strlit("{");
        assert("{"@ =~= seq!['{']);
        assert("}"@ =~= seq!['}']);
        assert("}"@.skip(0)[0] != "{"@[0]);
    }
    assert(scan(t3) == (s2.0, s2.1, true));
    assert(ls.take(4 + n) =~= ls);
    assert(ls.drop_last() =~= t3);
}

// ───────────────────────────── documentation users ─────────────────────────────

/// A password that was set for a user, and so kept as its digest, is accepted
/// afterwards for that user; a user with no digest kept accepts no password.
pub proof fn law_set_password_is_accepted(password: Seq<char>, other: Seq<char>)
    ensures
        password_accepted(Some(sha256_hex(password)), password),
        !password_accepted(None, other),
{
}

// ───────────────────────────── heartbeat ─────────────────────────────

/// The heartbeat's health is 1 exactly when everything answers, and a service that
/// stops answering never makes it better: with every service of the first set up
/// wherever it is up in the second, the first's status is at most the second's.
pub proof fn law_health_worsens_with_each_failure(
    database_ok: bool,
    worker_ok: bool,
    strongswan_ok: bool,
    database_ok2: bool,
    worker_ok2: bool,
    strongswan_ok2: bool,
)
    ensures
        health(database_ok, worker_ok, strongswan_ok) == 1 <==> (database_ok && worker_ok && strongswan_ok),
        (database_ok2 ==> database_ok) && (worker_ok2 ==> worker_ok) && (strongswan_ok2 ==> strongswan_ok) ==> health(
            database_ok,
            worker_ok,
            strongswan_ok,
        ) <= health(database_ok2, worker_ok2, strongswan_ok2),
{
}


/// Of the catalogue of response codes, a user with the view permission may only
/// read, with `GET`; a user with the manage permission may also create, change and
/// delete codes and translations.
pub proof fn law_view_users_only_read_the_catalogue(method: Seq<char>, path: Seq<char>, can_manage: bool)
    requires
        response_codes_route(path),
    ensures
        !can_manage ==> (docs_access(method, path, can_manage) <==> method == "GET"@),
        can_manage ==> docs_access(method, path, can_manage),
{
}

// ───────────────────────────── editing a section twice ─────────────────────────────

/// Characters counted in two pieces are counted in their concatenation.
proof fn lemma_count_char_concat(a: Seq<char>, b: Seq<char>, c: char)
    ensures
        count_char(a + b, c) == count_char(a, c) + count_char(b, c),
    decreases b.len(),
{
    if b.len() == 0 {
        assert(a + b =~= a);
    } else {
        assert((a + b).drop_last() =~= a + b.drop_last());
        assert((a + b).last() == b.last());
        lemma_count_char_concat(a, b.drop_last(), c);
    }
}

/// A character that does not occur is counted zero times.
proof fn lemma_count_char_absent(a: Seq<char>, c: char)
    requires
        forall|i: int| 0 <= i < a.len() ==> a[i] != c,
    ensures
        count_char(a, c) == 0,
    decreases a.len(),
{
    if a.len() > 0 {
        assert(a.last() == a[a.len() - 1]);
        lemma_count_char_absent(a.drop_last(), c);
    }
}

/// Text without braces has a brace balance of 0.
proof fn lemma_balance_no_braces(a: Seq<char>)
    requires
        forall|i: int| 0 <= i < a.len() ==> a[i] != '{' && a[i] != '}',
    ensures
        brace_balance(a) == 0,
{
    lemma_count_char_absent(a, '{');
    lemma_count_char_absent(a, '}');
}

/// Lines joined by line breaks split back into those lines.
proof fn lemma_split_join(xs: Seq<Seq<char>>)
    requires
        xs.len() > 0,
        forall|k: int, i: int| 0 <= k < xs.len() && 0 <= i < xs[k].len() ==> #[trigger] xs[k][i] != '\n',
    ensures
        split(join(xs, "\n"@), '\n') == xs,
    decreases xs.len(),
{
    reveal_strlit("\n");
    assert("\n"@ =~= seq!['\n']);
    let e = Seq::<char>::empty();
    let l = xs.last();
    assert forall|i: int| 0 <= i < l.len() implies l[i] != '\n' by {
        assert(l[i] == xs[xs.len() - 1][i]);
    }
    lemma_split_acc_whole(l, '\n', e);
    assert(e + l =~= l);
    if xs.len() == 1 {
        assert(join(xs, "\n"@) == xs[0]);
        assert(seq![l] =~= xs);
    } else {
        let d = xs.drop_last();
        assert forall|k: int, i: int| 0 <= k < d.len() && 0 <= i < d[k].len() implies #[trigger] d[k][i] != '\n' by {
            assert(d[k] == xs[k]);
        }
        lemma_split_join(d);
        assert(join(xs, "\n"@) =~= join(d, "\n"@) + seq!['\n'] + l);
        lemma_split_acc_concat(join(d, "\n"@), '\n', e, l);
        assert(d + seq![l] =~= xs);
    }
}

/// Lines without line breaks or a final carriage return, the last one not empty,
/// are the lines of the text they make when joined by line breaks.
proof fn lemma_lines_join(xs: Seq<Seq<char>>)
    requires
        forall|k: int, i: int| 0 <= k < xs.len() && 0 <= i < xs[k].len() ==> #[trigger] xs[k][i] != '\n',
        forall|k: int| 0 <= k < xs.len() ==> #[trigger] xs[k].len() == 0 || xs[k].last() != '\r',
        xs.len() == 0 || xs.last().len() > 0,
    ensures
        lines(join(xs, "\n"@)) == xs,
{
    if xs.len() == 0 {
        let e = Seq::<char>::empty();
        assert(join(xs, "\n"@) == e);
        assert(split(e, '\n') == seq![e]);
        assert(seq![e].drop_last() =~= Seq::<Seq<char>>::empty());
        assert(lines(join(xs, "\n"@)) =~= xs);
    } else {
        lemma_split_join(xs);
        assert(xs.last() == xs[xs.len() - 1]);
        assert(lines(join(xs, "\n"@)) == xs.map_values(|l: Seq<char>| strip_cr(l)));
        assert forall|k: int| 0 <= k < xs.len() implies strip_cr(xs[k]) == xs[k] by {
            assert(xs[k].len() == 0 || xs[k].last() != '\r');
        }
        assert(xs.map_values(|l: Seq<char>| strip_cr(l)) =~= xs);
    }
}

/// The depth before line `i` depends only on the lines before it.
proof fn lemma_depth_same(a: Seq<Seq<char>>, b: Seq<Seq<char>>, i: int)
    requires
        0 <= i <= a.len(),
        i <= b.len(),
        forall|k: int| 0 <= k < i ==> a[k] == b[k],
    ensures
        depth(a, i) == depth(b, i),
    decreases i,
{
    if i > 0 {
        lemma_depth_same(a, b, i - 1);
    }
}

/// The depth after the lines of `a` and then `k` lines of `b`.
proof fn lemma_depth_concat(a: Seq<Seq<char>>, b: Seq<Seq<char>>, k: int)
    requires
        0 <= k <= b.len(),
    ensures
        depth(a + b, a.len() + k) == depth(a, a.len() as int) + depth(b, k),
    decreases k,
{
    if k == 0 {
        lemma_depth_same(a + b, a, a.len() as int);
    } else {
        lemma_depth_concat(a, b, k - 1);
        assert((a + b)[a.len() + k - 1] == b[k - 1]);
    }
}

/// A line that opens the section: at depth 0, and `label` once trimmed.
pub open spec fn opens_section(ls: Seq<Seq<char>>, label: Seq<char>, k: int) -> bool {
    depth(ls, k) == 0 && trim(ls[k]) == label
}

proof fn lemma_section_start_facts(ls: Seq<Seq<char>>, label: Seq<char>, i: int)
    requires
        0 <= i,
    ensures
        section_start(ls, label, i) >= 0 ==> i <= section_start(ls, label, i) < ls.len() && opens_section(
            ls,
            label,
            section_start(ls, label, i),
        ),
        forall|k: int|
            i <= k < ls.len() && (section_start(ls, label, i) < 0 || k < section_start(ls, label, i)) ==> !#[trigger] opens_section(
                ls,
                label,
                k,
            ),
    decreases ls.len() - i,
{
    if i < ls.len() && !opens_section(ls, label, i) {
        lemma_section_start_facts(ls, label, i + 1);
    }
}

proof fn lemma_section_start_first(ls: Seq<Seq<char>>, label: Seq<char>, i: int, s: int)
    requires
        0 <= i <= s < ls.len(),
        opens_section(ls, label, s),
        forall|k: int| i <= k < s ==> !#[trigger] opens_section(ls, label, k),
    ensures
        section_start(ls, label, i) == s,
    decreases s - i,
{
    if i < s {
        assert(!opens_section(ls, label, i));
        lemma_section_start_first(ls, label, i + 1, s);
    }
}

proof fn lemma_section_end_facts(ls: Seq<Seq<char>>, s: int, j: int)
    requires
        s < j,
    ensures
        section_end(ls, s, j) != s ==> j <= section_end(ls, s, j) < ls.len() && depth(ls, section_end(ls, s, j) + 1) == 0,
        forall|t: int| j < t <= section_end(ls, s, j) ==> #[trigger] depth(ls, t) != 0,
    decreases ls.len() - j,
{
    if 0 <= j < ls.len() && depth(ls, j + 1) != 0 {
        lemma_section_end_facts(ls, s, j + 1);
    }
}

proof fn lemma_section_end_of(ls: Seq<Seq<char>>, s: int, j: int, e: int)
    requires
        0 <= j <= e < ls.len(),
        depth(ls, e + 1) == 0,
        forall|t: int| j < t <= e ==> #[trigger] depth(ls, t) != 0,
    ensures
        section_end(ls, s, j) == e,
    decreases e - j,
{
    if j < e {
        assert(depth(ls, j + 1) != 0);
        lemma_section_end_of(ls, s, j + 1, e);
    }
}

proof fn lemma_kept_concat(a: Seq<Seq<char>>, b: Seq<Seq<char>>, keys: Seq<Seq<char>>)
    ensures
        kept_lines(a + b, keys) == kept_lines(a, keys) + kept_lines(b, keys),
    decreases b.len(),
{
    if b.len() == 0 {
        assert(a + b =~= a);
        assert(kept_lines(a, keys) + kept_lines(b, keys) =~= kept_lines(a, keys));
    } else {
        assert((a + b).drop_last() =~= a + b.drop_last());
        assert((a + b).last() == b.last());
        lemma_kept_concat(a, b.drop_last(), keys);
        if !assigns_key(b.last(), keys) {
            assert((kept_lines(a, keys) + kept_lines(b.drop_last(), keys)).push(b.last()) =~= kept_lines(a, keys)
                + kept_lines(b.drop_last(), keys).push(b.last()));
        }
    }
}

proof fn lemma_kept_of_assigning(a: Seq<Seq<char>>, keys: Seq<Seq<char>>)
    requires
        forall|k: int| 0 <= k < a.len() ==> assigns_key(#[trigger] a[k], keys),
    ensures
        kept_lines(a, keys) == Seq::<Seq<char>>::empty(),
    decreases a.len(),
{
    if a.len() > 0 {
        assert(a.last() == a[a.len() - 1]);
        lemma_kept_of_assigning(a.drop_last(), keys);
    }
}

/// The kept lines assign none of the keys, so keeping them again keeps them all.
proof fn lemma_kept_kept(a: Seq<Seq<char>>, keys: Seq<Seq<char>>)
    ensures
        kept_lines(kept_lines(a, keys), keys) == kept_lines(a, keys),
        forall|m: int| 0 <= m < kept_lines(a, keys).len() ==> !assigns_key(#[trigger] kept_lines(a, keys)[m], keys),
    decreases a.len(),
{
    if a.len() > 0 {
        lemma_kept_kept(a.drop_last(), keys);
        let k0 = kept_lines(a.drop_last(), keys);
        if !assigns_key(a.last(), keys) {
            let k1 = k0.push(a.last());
            assert(k1.drop_last() =~= k0);
            assert(k1.last() == a.last());
            assert forall|m: int| 0 <= m < k1.len() implies !assigns_key(#[trigger] k1[m], keys) by {
                if m < k0.len() {
                    assert(k1[m] == k0[m]);
                }
            }
        }
    }
}

/// Dropping lines whose braces balance leaves every depth along the kept lines one
/// that the depth along all the lines also takes, and the same final depth.
proof fn lemma_kept_depth(a: Seq<Seq<char>>, keys: Seq<Seq<char>>)
    requires
        forall|k: int| 0 <= k < a.len() && assigns_key(#[trigger] a[k], keys) ==> brace_balance(a[k]) == 0,
    ensures
        depth(kept_lines(a, keys), kept_lines(a, keys).len() as int) == depth(a, a.len() as int),
        forall|m: int|
            #![trigger depth(kept_lines(a, keys), m)]
            0 <= m <= kept_lines(a, keys).len() ==> exists|j: int| 0 <= j <= a.len() && #[trigger] depth(a, j) == depth(
                kept_lines(a, keys),
                m,
            ),
    decreases a.len(),
{
    let kk = kept_lines(a, keys);
    if a.len() == 0 {
        assert forall|m: int| #![trigger depth(kk, m)] 0 <= m <= kk.len() implies exists|j: int| 0 <= j <= a.len() && #[trigger] depth(a, j) == depth(kk, m) by {
            assert(depth(a, 0) == depth(kk, m));
        }
    } else {
        let d = a.drop_last();
        let l = a.last();
        assert forall|k: int| 0 <= k < d.len() && assigns_key(#[trigger] d[k], keys) implies brace_balance(d[k]) == 0 by {
            assert(d[k] == a[k]);
        }
        lemma_kept_depth(d, keys);
        let k0 = kept_lines(d, keys);
        assert forall|j: int| 0 <= j <= d.len() implies depth(d, j) == #[trigger] depth(a, j) by {
            lemma_depth_same(d, a, j);
        }
        assert(a[a.len() - 1] == l);
        assert(depth(d, d.len() as int) == depth(a, d.len() as int));
        assert(depth(a, a.len() as int) == depth(a, d.len() as int) + brace_balance(l));
        if assigns_key(l, keys) {
            assert(kk == k0);
            assert forall|m: int| #![trigger depth(kk, m)] 0 <= m <= kk.len() implies exists|j: int| 0 <= j <= a.len() && #[trigger] depth(a, j) == depth(kk, m) by {
                let j = choose|j: int| 0 <= j <= d.len() && #[trigger] depth(d, j) == depth(k0, m);
                assert(depth(a, j) == depth(kk, m));
            }
        } else {
            assert(kk == k0.push(l));
            assert forall|m: int| 0 <= m <= k0.len() implies depth(k0, m) == #[trigger] depth(kk, m) by {
                lemma_depth_same(k0, kk, m);
            }
            assert(kk[kk.len() - 1] == l);
            assert(depth(k0, k0.len() as int) == depth(kk, k0.len() as int));
            assert(depth(kk, kk.len() as int) == depth(kk, k0.len() as int) + brace_balance(l));
            assert(depth(d, d.len() as int) == depth(a, d.len() as int));
            assert(depth(a, a.len() as int) == depth(a, d.len() as int) + brace_balance(l));
            assert(depth(kk, kk.len() as int) == depth(k0, k0.len() as int) + brace_balance(l));
            assert forall|m: int| #![trigger depth(kk, m)] 0 <= m <= kk.len() implies exists|j: int| 0 <= j <= a.len() && #[trigger] depth(a, j) == depth(kk, m) by {
                if m <= k0.len() {
                    let j = choose|j: int| 0 <= j <= d.len() && #[trigger] depth(d, j) == depth(k0, m);
                    assert(depth(a, j) == depth(kk, m));
                } else {
                    assert(depth(a, a.len() as int) == depth(kk, m));
                }
            }
        }
    }
}

/// Text without braces, line breaks or a final carriage return.
pub open spec fn plain_text(t: Seq<char>) -> bool {
    &&& forall|i: int| 0 <= i < t.len() ==> #[trigger] t[i] != '{' && t[i] != '}' && t[i] != '\n'
    &&& (t.len() == 0 || t.last() != '\r')
}

/// The indent of a line is made of its first characters, all ASCII whitespace.
proof fn lemma_indent_of(l: Seq<char>)
    ensures
        indent_of(l).len() <= l.len(),
        forall|i: int| 0 <= i < indent_of(l).len() ==> #[trigger] indent_of(l)[i] == l[i] && is_ascii_ws(l[i]),
        indent_of(l).len() < l.len() ==> !is_ascii_ws(l[indent_of(l).len() as int]),
    decreases l.len(),
{
    if l.len() > 0 && is_ascii_ws(l[0]) {
        lemma_indent_of(l.drop_first());
        assert forall|i: int| 0 <= i < indent_of(l).len() implies #[trigger] indent_of(l)[i] == l[i] && is_ascii_ws(l[i]) by {
            if i > 0 {
                assert(indent_of(l)[i] == indent_of(l.drop_first())[i - 1]);
            }
        }
    }
}

/// An indent followed by a character that is not ASCII whitespace is the indent of
/// the line.
proof fn lemma_indent_of_prefixed(ind: Seq<char>, rest: Seq<char>)
    requires
        forall|i: int| 0 <= i < ind.len() ==> is_ascii_ws(#[trigger] ind[i]),
        rest.len() > 0,
        !is_ascii_ws(rest[0]),
    ensures
        indent_of(ind + rest) == ind,
    decreases ind.len(),
{
    if ind.len() == 0 {
        assert(ind + rest =~= rest);
    } else {
        assert((ind + rest)[0] == ind[0]);
        assert((ind + rest).drop_first() =~= ind.drop_first() + rest);
        assert forall|i: int| 0 <= i < ind.drop_first().len() implies is_ascii_ws(#[trigger] ind.drop_first()[i]) by {
            assert(ind.drop_first()[i] == ind[i + 1]);
        }
        lemma_indent_of_prefixed(ind.drop_first(), rest);
        assert(seq![ind[0]] + ind.drop_first() =~= ind);
    }
}

/// Trimming a setting's line behind any whitespace leaves the key, `=` and the
/// value trimmed at its end.
proof fn lemma_trim_prefixed_setting(p: Seq<char>, k: Seq<char>, v: Seq<char>)
    requires
        forall|i: int| 0 <= i < p.len() ==> is_ws(#[trigger] p[i]),
        plain_key(k),
    ensures
        trim(p + k + " = "@ + v) == key_head(k) + seq!['='] + trim_end(" "@ + v),
{
    reveal_strlit(" = ");
    reveal_strlit(" ");
    let y = k + " = "@ + v;
    assert(p + k + " = "@ + v =~= p + y);
    lemma_trim_start_skip(p, y);
    let k1 = key_head(k);
    let tail = " "@ + v;
    let eq = seq!['='];
    lemma_trim_shape(k);
    assert(trim_start(y) == k1 + eq + tail) by {
        if k.len() == 0 {
            assert(y =~= " "@ + (eq + tail));
            assert forall|i: int| 0 <= i < " "@.len() implies is_ws(#[trigger] " "@[i]) by {}
            lemma_trim_start_skip(" "@, eq + tail);
            assert((eq + tail)[0] == '=');
            assert(k1 + eq + tail =~= eq + tail);
        } else {
            assert(y[0] == k[0]);
            assert(y =~= k1 + eq + tail);
        }
    }
    let head = k1 + eq;
    assert(head.last() == '=');
    lemma_trim_end_keep(head, tail);
    assert(k1 + eq + tail =~= head + tail);
}

/// The key as it stands before `=` is the key once trimmed.
proof fn lemma_key_head_trim(k: Seq<char>)
    requires
        plain_key(k),
    ensures
        trim(key_head(k)) == k,
        forall|i: int| 0 <= i < key_head(k).len() ==> #[trigger] key_head(k)[i] != '=',
{
    reveal_strlit(" ");
    if k.len() > 0 {
        let k1 = key_head(k);
        lemma_trim_shape(k);
        assert(k1[0] == k[0]);
        assert(trim_start(k1) == k1);
        lemma_trim_end_keep(k, " "@);
        assert(" "@.drop_last() =~= Seq::<char>::empty());
        assert(trim_end(Seq::<char>::empty()) =~= Seq::<char>::empty());
        assert(trim_end(" "@) =~= Seq::<char>::empty());
        assert(k + Seq::<char>::empty() =~= k);
        assert forall|i: int| 0 <= i < k1.len() implies #[trigger] k1[i] != '=' by {
            if i < k.len() {
                assert(k1[i] == k[i]);
            }
        }
    }
}

/// The line an upsert writes for a setting assigns that setting's key, has no
/// braces, and keeps to one line.
proof fn lemma_value_line(p: Seq<char>, kv: (Seq<char>, Seq<char>), keys: Seq<Seq<char>>)
    requires
        forall|i: int| 0 <= i < p.len() ==> is_ascii_ws(#[trigger] p[i]) && p[i] != '\n',
        plain_key(kv.0),
        plain_text(kv.0),
        plain_text(kv.1),
        keys.contains(kv.0),
    ensures
        assigns_key(assignment(p, kv), keys),
        brace_balance(assignment(p, kv)) == 0,
        plain_text(assignment(p, kv)),
{
    reveal_strlit(" = ");
    let (k, v) = kv;
    let line = assignment(p, kv);
    assert forall|i: int| 0 <= i < p.len() implies is_ws(#[trigger] p[i]) by {
        assert(is_ascii_ws(p[i]));
    }
    lemma_trim_prefixed_setting(p, k, v);
    let t = trim(line);
    let k1 = key_head(k);
    let rest = trim_end(" "@ + v);
    assert(t == k1 + seq!['='] + rest);
    lemma_key_head_trim(k);
    lemma_split_acc_prefix(k1, '=', seq![], rest);
    assert(Seq::<char>::empty() + k1 =~= k1);
    assert(split(t, '=')[0] == k1);
    assert(t[k1.len() as int] == '=');
    assert(has_char(t, '='));
    assert forall|i: int| 0 <= i < line.len() implies #[trigger] line[i] != '{' && line[i] != '}' && line[i] != '\n' by {
        if i < p.len() {
            assert(line[i] == p[i]);
        } else if i < p.len() + k.len() {
            assert(line[i] == k[i - p.len()]);
        } else if i >= p.len() + k.len() + 3 {
            assert(line[i] == v[i - p.len() - k.len() - 3]);
        }
    }
    lemma_balance_no_braces(line);
    if v.len() > 0 {
        assert(line.last() == v.last());
    } else {
        assert(line.last() == ' ');
    }
}

/// The header line of a section: trimmed it is the label, its braces open one
/// level, and its indent is the one it was written with.
proof fn lemma_header_line(ind: Seq<char>, section: Seq<char>)
    requires
        forall|i: int| 0 <= i < ind.len() ==> is_ascii_ws(#[trigger] ind[i]) && ind[i] != '\n',
        section.len() > 0,
        trim(section) == section,
        plain_text(section),
    ensures
        trim(ind + (section + " {"@)) == section + " {"@,
        brace_balance(ind + (section + " {"@)) == 1,
        indent_of(ind + (section + " {"@)) == ind,
        forall|i: int| 0 <= i < (ind + (section + " {"@)).len() ==> #[trigger] (ind + (section + " {"@))[i] != '\n',
        (ind + (section + " {"@)).last() == '{',
        !is_ws(section[0]),
{
    reveal_strlit(" {");
    let label = section + " {"@;
    let line = ind + label;
    lemma_trim_shape(section);
    assert(!is_ws(section[0]));
    assert(label[0] == section[0]);
    assert forall|i: int| 0 <= i < ind.len() implies is_ws(#[trigger] ind[i]) by {
        assert(is_ascii_ws(ind[i]));
    }
    lemma_trim_start_skip(ind, label);
    assert(trim_start(label) == label);
    assert(label.last() == '{');
    assert(trim_end(label) == label);
    lemma_indent_of_prefixed(ind, label);
    lemma_count_char_concat(ind, section, '{');
    lemma_count_char_concat(ind, section, '}');
    assert(line =~= (ind + section) + " {"@);
    lemma_count_char_concat(ind + section, " {"@, '{');
    lemma_count_char_concat(ind + section, " {"@, '}');
    assert forall|i: int| 0 <= i < ind.len() implies ind[i] != '{' && ind[i] != '}' by {
        assert(is_ascii_ws(ind[i]));
    }
    lemma_count_char_absent(ind, '{');
    lemma_count_char_absent(ind, '}');
    lemma_count_char_absent(section, '{');
    lemma_count_char_absent(section, '}');
    assert(" {"@ =~= seq![' ', '{']);
    let sp = seq![' ', '{'];
    let one = seq![' '];
    let e = Seq::<char>::empty();
    assert(sp.drop_last() =~= one);
    assert(one.drop_last() =~= e);
    assert(count_char(e, '{') == 0);
    assert(count_char(e, '}') == 0);
    assert(count_char(one, '{') == 0);
    assert(count_char(one, '}') == 0);
    assert(count_char(sp, '{') == 1);
    assert(count_char(sp, '}') == 0);
    assert(" {"@ == sp);
    assert forall|i: int| 0 <= i < line.len() implies #[trigger] line[i] != '\n' by {
        if i < ind.len() {
            assert(line[i] == ind[i]);
            assert(is_ascii_ws(ind[i]));
        } else if i < ind.len() + section.len() {
            assert(line[i] == section[i - ind.len()]);
        }
    }
    assert(line.last() == '{');
}

/// Lines whose braces all balance keep the depth at 0.
proof fn lemma_depth_zero(vs: Seq<Seq<char>>, m: int)
    requires
        0 <= m <= vs.len(),
        forall|k: int| 0 <= k < vs.len() ==> brace_balance(#[trigger] vs[k]) == 0,
    ensures
        depth(vs, m) == 0,
    decreases m,
{
    if m > 0 {
        lemma_depth_zero(vs, m - 1);
    }
}

/// The depth `j` lines after line `i`.
proof fn lemma_depth_split(ls: Seq<Seq<char>>, i: int, j: int)
    requires
        0 <= i,
        0 <= j,
        i + j <= ls.len(),
    ensures
        depth(ls, i + j) == depth(ls, i) + depth(ls.skip(i), j),
{
    let a = ls.take(i);
    let b = ls.skip(i);
    assert(ls =~= a + b);
    lemma_depth_concat(a, b, j);
    lemma_depth_same(a, ls, i);
}

proof fn lemma_count_trim_start(x: Seq<char>, c: char)
    requires
        !is_ws(c),
    ensures
        count_char(trim_start(x), c) == count_char(x, c),
    decreases x.len(),
{
    if x.len() > 0 && is_ws(x[0]) {
        lemma_count_trim_start(x.drop_first(), c);
        assert(x =~= seq![x[0]] + x.drop_first());
        lemma_count_char_concat(seq![x[0]], x.drop_first(), c);
        assert(seq![x[0]].drop_last() =~= Seq::<char>::empty());
        assert(count_char(Seq::<char>::empty(), c) == 0);
        assert(seq![x[0]].last() == x[0]);
        assert(x[0] != c);
        assert(count_char(seq![x[0]], c) == 0);
    }
}

proof fn lemma_count_trim_end(x: Seq<char>, c: char)
    requires
        !is_ws(c),
    ensures
        count_char(trim_end(x), c) == count_char(x, c),
    decreases x.len(),
{
    if x.len() > 0 && is_ws(x.last()) {
        lemma_count_trim_end(x.drop_last(), c);
    }
}

/// Trimming keeps the braces of a line.
proof fn lemma_balance_trim(x: Seq<char>)
    ensures
        brace_balance(trim(x)) == brace_balance(x),
{
    lemma_count_trim_start(x, '{');
    lemma_count_trim_start(x, '}');
    lemma_count_trim_end(trim_start(x), '{');
    lemma_count_trim_end(trim_start(x), '}');
}

/// The lines that an upsert writes for the values, behind `p`.
pub open spec fn value_lines(p: Seq<char>, values: Seq<(Seq<char>, Seq<char>)>) -> Seq<Seq<char>> {
    values.map_values(|kv: (Seq<char>, Seq<char>)| assignment(p, kv))
}

/// Settings that an upsert writes and reads back as themselves.
pub open spec fn plain_values(values: Seq<(Seq<char>, Seq<char>)>) -> bool {
    forall|i: int| 0 <= i < values.len() ==> plain_key((#[trigger] values[i]).0) && plain_text(values[i].0) && plain_text(
        values[i].1,
    )
}

proof fn lemma_value_lines(p: Seq<char>, values: Seq<(Seq<char>, Seq<char>)>)
    requires
        forall|i: int| 0 <= i < p.len() ==> is_ascii_ws(#[trigger] p[i]) && p[i] != '\n',
        plain_values(values),
    ensures
        forall|k: int| 0 <= k < values.len() ==> assigns_key(#[trigger] value_lines(p, values)[k], value_keys(values)),
        forall|k: int| 0 <= k < values.len() ==> brace_balance(#[trigger] value_lines(p, values)[k]) == 0,
        forall|k: int| 0 <= k < values.len() ==> plain_text(#[trigger] value_lines(p, values)[k]),
{
    assert forall|k: int| 0 <= k < values.len() implies assigns_key(#[trigger] value_lines(p, values)[k], value_keys(values))
        && brace_balance(value_lines(p, values)[k]) == 0 && plain_text(value_lines(p, values)[k]) by {
        assert(value_keys(values)[k] == values[k].0);
        assert(value_keys(values).contains(values[k].0));
        lemma_value_line(p, values[k], value_keys(values));
    }
}

/// Lines that an upsert writes back as they are: none ends with a carriage return,
/// and the last is not empty.
pub open spec fn plain_lines(ls: Seq<Seq<char>>) -> bool {
    &&& forall|k: int| 0 <= k < ls.len() ==> (#[trigger] ls[k]).len() == 0 || ls[k].last() != '\r'
    &&& (ls.len() == 0 || ls.last().len() > 0)
}

/// A section name that an upsert finds again: not empty, trimmed, and without
/// braces or line breaks.
pub open spec fn plain_section(section: Seq<char>) -> bool {
    section.len() > 0 && trim(section) == section && plain_text(section)
}

#[verifier::spinoff_prover]
#[verifier::rlimit(60)]
proof fn lemma_upsert_twice_absent(body: Seq<char>, section: Seq<char>, values: Seq<(Seq<char>, Seq<char>)>)
    requires
        plain_section(section),
        plain_values(values),
        plain_lines(lines(body)),
        section_range(lines(body), section + " {"@) is None,
        depth(lines(body), lines(body).len() as int) == 0,
    ensures
        upserted(upserted(body, section, values), section, values) == upserted(body, section, values),
{
    reveal_strlit(" {");
    reveal_strlit("  ");
    reveal_strlit("}");
    let label = section + " {"@;
    let keys = value_keys(values);
    let ls = lines(body);
    let e = Seq::<char>::empty();
    let pad: Seq<Seq<char>> = if ls.len() > 0 {
        seq![e]
    } else {
        seq![]
    };
    let two = "  "@;
    let close = "}"@;
    assert(close =~= seq!['}']);
    assert forall|i: int| 0 <= i < two.len() implies is_ascii_ws(#[trigger] two[i]) && two[i] != '\n' by {}
    let vals = value_lines(two, values);
    lemma_value_lines(two, values);
    let rest = pad + seq![label] + vals + seq![close];
    let x = ls + rest;
    assert(upserted(body, section, values) == join(x, "\n"@)) by {
        assert(ls + pad + seq![label] + values.map_values(|kv: (Seq<char>, Seq<char>)| assignment("  "@, kv)) + seq![close]
            =~= x);
    }
    // the text reads back as the lines it was written from
    assert forall|i: int| 0 <= i < e.len() implies is_ascii_ws(#[trigger] e[i]) && e[i] != '\n' by {}
    lemma_header_line(e, section);
    assert(e + label =~= label);
    lemma_lines_have_no_break(body);
    let sl: int = ls.len() + pad.len() as int;
    assert forall|k: int, i: int| 0 <= k < x.len() && 0 <= i < x[k].len() implies #[trigger] x[k][i] != '\n' by {
        if k < ls.len() {
            assert(x[k] == ls[k]);
        } else if k == sl {
            assert(x[k] == label);
        } else if sl < k < sl + 1 + vals.len() {
            assert(x[k] == vals[k - sl - 1]);
            assert(plain_text(vals[k - sl - 1]));
        } else if k == sl + 1 + vals.len() {
            assert(x[k] == close);
        } else {
            assert(x[k] == e);
        }
    }
    assert forall|k: int| 0 <= k < x.len() implies (#[trigger] x[k]).len() == 0 || x[k].last() != '\r' by {
        if k < ls.len() {
            assert(x[k] == ls[k]);
        } else if k == sl {
            assert(x[k] == label);
        } else if sl < k < sl + 1 + vals.len() {
            assert(x[k] == vals[k - sl - 1]);
            assert(plain_text(vals[k - sl - 1]));
        } else if k == sl + 1 + vals.len() {
            assert(x[k] == close);
        } else {
            assert(x[k] == e);
        }
    }
    assert(x.last() == close);
    lemma_lines_join(x);
    let once = upserted(body, section, values);
    assert(lines(once) == x);
    // the second upsert finds the section it appended
    lemma_section_start_facts(ls, label, 0);
    assert forall|k: int| 0 <= k < sl implies !#[trigger] opens_section(x, label, k) by {
        if k < ls.len() {
            lemma_depth_same(x, ls, k);
            assert(x[k] == ls[k]);
            assert(!opens_section(ls, label, k));
        } else {
            assert(x[k] == e);
            assert(trim(e) == e);
            assert(label.len() >= 2);
        }
    }
    let front = pad + seq![label];
    let back = vals + seq![close];
    assert(rest =~= front + back);
    lemma_depth_concat(ls, rest, pad.len() as int);
    assert(depth(rest, pad.len() as int) == 0) by {
        assert(depth(rest, 0) == 0);
        if pad.len() > 0 {
            lemma_balance_no_braces(e);
            assert(rest[0] == e);
            assert(depth(rest, 1) == depth(rest, 0) + brace_balance(rest[0]));
        }
    }
    assert(x[sl] == label);
    assert(opens_section(x, label, sl));
    lemma_section_start_first(x, label, 0, sl);
    let e2: int = sl + 1 + vals.len();
    lemma_depth_same(rest, front, front.len() as int);
    assert(front[front.len() - 1] == label);
    assert(depth(front, front.len() as int) == 1) by {
        lemma_depth_same(front, rest, pad.len() as int);
    }
    assert forall|t: int| sl + 1 <= t <= e2 + 1 implies #[trigger] depth(x, t) == (if t <= e2 {
        1int
    } else {
        0int
    }) by {
        lemma_depth_concat(ls, rest, t - ls.len());
        assert(rest =~= front + back);
        lemma_depth_concat(front, back, t - sl - 1);
        if t <= e2 {
            lemma_depth_same(back, vals, t - sl - 1);
            lemma_depth_zero(vals, t - sl - 1);
        } else {
            lemma_depth_same(back, vals, vals.len() as int);
            lemma_depth_zero(vals, vals.len() as int);
            assert(back[vals.len() as int] == close);
            assert(brace_balance(close) == -1) by {
                assert(close.drop_last() =~= e);
                assert(count_char(e, '{') == 0);
                assert(count_char(e, '}') == 0);
            }
        }
    }
    lemma_section_end_of(x, sl, sl + 1, e2);
    assert(section_range(x, label) == Some((sl, e2, e)));
    // and writes the same lines again
    let vals2 = values.map_values(|kv: (Seq<char>, Seq<char>)| assignment(e + "  "@, kv));
    assert(e + "  "@ =~= two);
    assert(vals2 =~= vals);
    assert(x.subrange(sl + 1, e2) =~= vals);
    lemma_kept_of_assigning(vals, keys);
    assert(x.take(sl) =~= ls + pad);
    assert(x.skip(e2 + 1) =~= Seq::<Seq<char>>::empty());
    assert(x.take(sl) + (seq![e + label] + vals2 + kept_lines(x.subrange(sl + 1, e2), keys) + seq![e + close]) + x.skip(
        e2 + 1,
    ) =~= x);
}

/// The kept lines are some of the lines, so they keep what holds of every line.
proof fn lemma_kept_keeps(a: Seq<Seq<char>>, keys: Seq<Seq<char>>, pr: spec_fn(Seq<char>) -> bool)
    requires
        forall|k: int| 0 <= k < a.len() ==> pr(#[trigger] a[k]),
    ensures
        forall|m: int| 0 <= m < kept_lines(a, keys).len() ==> pr(#[trigger] kept_lines(a, keys)[m]),
    decreases a.len(),
{
    if a.len() > 0 {
        let d = a.drop_last();
        assert forall|k: int| 0 <= k < d.len() implies pr(#[trigger] d[k]) by {
            assert(d[k] == a[k]);
        }
        lemma_kept_keeps(d, keys, pr);
        let k0 = kept_lines(d, keys);
        assert(a.last() == a[a.len() - 1]);
        if !assigns_key(a.last(), keys) {
            assert forall|m: int| 0 <= m < k0.push(a.last()).len() implies pr(#[trigger] k0.push(a.last())[m]) by {
                if m < k0.len() {
                    assert(k0.push(a.last())[m] == k0[m]);
                }
            }
        }
    }
}

/// The depths along a found section, from its header to its closing line.
proof fn lemma_found_depths(ls: Seq<Seq<char>>, label: Seq<char>, s: int, e: int)
    requires
        0 <= s < e < ls.len(),
        opens_section(ls, label, s),
        brace_balance(label) == 1,
        e == section_end(ls, s, s + 1),
        brace_balance(ls[e]) == -1,
    ensures
        forall|j: int| 0 <= j <= e - s - 1 ==> 1 + #[trigger] depth(ls.subrange(s + 1, e), j) != 0,
        depth(ls.subrange(s + 1, e), e - s - 1) == 0,
{
    let i = ls.subrange(s + 1, e);
    lemma_section_end_facts(ls, s, s + 1);
    lemma_balance_trim(ls[s]);
    assert(depth(ls, s + 1) == 1);
    assert forall|j: int| 0 <= j <= e - s - 1 implies depth(ls, s + 1 + j) == 1 + #[trigger] depth(i, j) by {
        lemma_depth_split(ls, s + 1, j);
        lemma_depth_same(ls.skip(s + 1), i, j);
    }
    assert forall|j: int| 0 <= j <= e - s - 1 implies 1 + #[trigger] depth(i, j) != 0 by {
        assert(depth(ls, s + 1 + j) == 1 + depth(i, j));
        if j > 0 {
            assert(depth(ls, s + 1 + j) != 0);
        }
    }
    assert(depth(ls, e + 1) == depth(ls, e) + brace_balance(ls[e]));
    assert(depth(ls, s + 1 + (e - s - 1)) == 1 + depth(i, e - s - 1));
}

#[verifier::spinoff_prover]
#[verifier::rlimit(60)]
proof fn lemma_upsert_twice_found(
    body: Seq<char>,
    section: Seq<char>,
    values: Seq<(Seq<char>, Seq<char>)>,
    s: int,
    e: int,
    ind: Seq<char>,
)
    requires
        plain_section(section),
        plain_values(values),
        plain_lines(lines(body)),
        section_range(lines(body), section + " {"@) == Some((s, e, ind)),
        s < e,
        brace_balance(lines(body)[e]) == -1,
        forall|k: int| s < k < e && assigns_key(#[trigger] lines(body)[k], value_keys(values)) ==> brace_balance(lines(body)[k]) == 0,
    ensures
        upserted(upserted(body, section, values), section, values) == upserted(body, section, values),
{
    reveal_strlit(" {");
    reveal_strlit("  ");
    reveal_strlit("}");
    let label = section + " {"@;
    let keys = value_keys(values);
    let ls = lines(body);
    let em = Seq::<char>::empty();
    // the section found the first time
    lemma_section_start_facts(ls, label, 0);
    assert(section_start(ls, label, 0) == s);
    assert(e == section_end(ls, s, s + 1));
    assert(ind == indent_of(ls[s]));
    lemma_section_end_facts(ls, s, s + 1);
    assert(e < ls.len());
    lemma_lines_have_no_break(body);
    lemma_indent_of(ls[s]);
    assert forall|i: int| 0 <= i < ind.len() implies is_ascii_ws(#[trigger] ind[i]) && ind[i] != '\n' by {
        assert(ind[i] == ls[s][i]);
    }
    lemma_header_line(ind, section);
    assert forall|i: int| 0 <= i < em.len() implies is_ascii_ws(#[trigger] em[i]) && em[i] != '\n' by {}
    lemma_header_line(em, section);
    assert(em + label =~= label);
    let two = "  "@;
    let p = ind + two;
    assert forall|i: int| 0 <= i < p.len() implies is_ascii_ws(#[trigger] p[i]) && p[i] != '\n' by {
        if i < ind.len() {
            assert(p[i] == ind[i]);
        } else {
            assert(p[i] == two[i - ind.len()]);
        }
    }
    let vals = value_lines(p, values);
    lemma_value_lines(p, values);
    let inner = ls.subrange(s + 1, e);
    let kept = kept_lines(inner, keys);
    let hdr = ind + label;
    let close = ind + "}"@;
    let f = seq![hdr] + vals;
    let g = kept + seq![close];
    let h = f + g;
    let x = ls.take(s) + h + ls.skip(e + 1);
    assert(upserted(body, section, values) == join(x, "\n"@)) by {
        assert(ls.take(s) + (seq![ind + label] + values.map_values(|kv: (Seq<char>, Seq<char>)| assignment(ind + "  "@, kv))
            + kept_lines(ls.subrange(s + 1, e), value_keys(values)) + seq![ind + "}"@]) + ls.skip(e + 1) =~= x);
    }
    // the closing line
    assert(close.last() == '}');
    assert forall|i: int| 0 <= i < close.len() implies #[trigger] close[i] != '\n' && close[i] != '{' by {
        if i < ind.len() {
            assert(close[i] == ind[i]);
        }
    }
    assert(brace_balance(close) == -1) by {
        assert(close.drop_last() =~= ind);
        assert forall|i: int| 0 <= i < ind.len() implies ind[i] != '{' && ind[i] != '}' by {
            assert(is_ascii_ws(ind[i]));
        }
        lemma_count_char_absent(ind, '{');
        lemma_count_char_absent(ind, '}');
    }
    // every line written reads back as written
    let pr = |l: Seq<char>| (forall|i: int| 0 <= i < l.len() ==> l[i] != '\n') && (l.len() == 0 || l.last() != '\r');
    assert forall|k: int| 0 <= k < inner.len() implies pr(#[trigger] inner[k]) by {
        assert(inner[k] == ls[s + 1 + k]);
        assert forall|i: int| 0 <= i < inner[k].len() implies inner[k][i] != '\n' by {
            assert(ls[s + 1 + k][i] != '\n');
        }
    }
    lemma_kept_keeps(inner, keys, pr);
    let sh: int = s + h.len();
    assert forall|k: int| 0 <= k < x.len() implies pr(#[trigger] x[k]) by {
        if k < s {
            assert(x[k] == ls[k]);
            assert forall|i: int| 0 <= i < x[k].len() implies x[k][i] != '\n' by {
                assert(ls[k][i] != '\n');
            }
        } else if k == s {
            assert(x[k] == hdr);
        } else if k < s + 1 + vals.len() {
            assert(x[k] == vals[k - s - 1]);
            assert(plain_text(vals[k - s - 1]));
        } else if k < s + 1 + vals.len() + kept.len() {
            assert(x[k] == kept[k - s - 1 - vals.len()]);
        } else if k == s + 1 + vals.len() + kept.len() {
            assert(x[k] == close);
        } else {
            assert(x[k] == ls[k - sh + e + 1]);
            assert forall|i: int| 0 <= i < x[k].len() implies x[k][i] != '\n' by {
                assert(ls[k - sh + e + 1][i] != '\n');
            }
        }
    }
    assert forall|k: int, i: int| 0 <= k < x.len() && 0 <= i < x[k].len() implies #[trigger] x[k][i] != '\n' by {
        assert(pr(x[k]));
    }
    assert forall|k: int| 0 <= k < x.len() implies (#[trigger] x[k]).len() == 0 || x[k].last() != '\r' by {
        assert(pr(x[k]));
    }
    assert(x.len() == 0 || x.last().len() > 0) by {
        if e + 1 < ls.len() {
            assert(x.last() == ls.last());
        } else {
            assert(x.last() == close);
        }
    }
    lemma_lines_join(x);
    let once = upserted(body, section, values);
    assert(lines(once) == x);
    // the second upsert finds the section at the same line
    assert forall|k: int| 0 <= k < s implies !#[trigger] opens_section(x, label, k) by {
        lemma_depth_same(x, ls, k);
        assert(x[k] == ls[k]);
        assert(!opens_section(ls, label, k));
    }
    lemma_depth_same(x, ls, s);
    assert(x[s] == hdr);
    assert(opens_section(x, label, s));
    lemma_section_start_first(x, label, 0, s);
    // and its end at the closing line written
    assert forall|k: int| 0 <= k < inner.len() && assigns_key(#[trigger] inner[k], keys) implies brace_balance(inner[k]) == 0 by {
        assert(inner[k] == ls[s + 1 + k]);
    }
    lemma_kept_depth(inner, keys);
    assert(brace_balance(label) == 1);
    lemma_found_depths(ls, label, s, e);
    assert(inner.len() == e - s - 1);
    let e2: int = s + f.len() + kept.len();
    assert forall|jj: int| 0 <= jj <= h.len() implies #[trigger] depth(x, s + jj) == depth(h, jj) by {
        assert(x =~= ls.take(s) + (h + ls.skip(e + 1)));
        lemma_depth_concat(ls.take(s), h + ls.skip(e + 1), jj);
        lemma_depth_same(ls.take(s), ls, s);
        lemma_depth_same(h + ls.skip(e + 1), h, jj);
    }
    assert(depth(f, 1) == 1) by {
        assert(depth(f, 0) == 0);
        assert(f[0] == hdr);
    }
    assert forall|m: int| 0 <= m <= vals.len() implies #[trigger] depth(f, 1 + m) == 1 by {
        assert(f =~= seq![hdr] + vals);
        lemma_depth_concat(seq![hdr], vals, m);
        lemma_depth_zero(vals, m);
        lemma_depth_same(seq![hdr], f, 1);
    }
    assert forall|m: int| 0 <= m <= kept.len() implies #[trigger] depth(g, m) == depth(kept, m) by {
        lemma_depth_same(g, kept, m);
    }
    assert(depth(g, kept.len() + 1int) == -1) by {
        assert(g[kept.len() as int] == close);
        assert(depth(g, kept.len() as int) == depth(kept, kept.len() as int));
    }
    assert forall|t: int| s + 1 < t <= e2 implies #[trigger] depth(x, t) != 0 by {
        let jj = t - s;
        assert(depth(x, s + jj) == depth(h, jj));
        if jj <= f.len() {
            lemma_depth_same(h, f, jj);
            assert(depth(f, 1 + (jj - 1)) == 1);
        } else {
            let m = jj - f.len();
            lemma_depth_concat(f, g, m);
            assert(depth(f, f.len() as int) == 1) by {
                assert(depth(f, 1int + vals.len()) == 1);
            }
            assert(depth(g, m) == depth(kept, m));
            let j = choose|j: int| 0 <= j <= inner.len() && #[trigger] depth(inner, j) == depth(kept, m);
            assert(1 + depth(inner, j) != 0);
        }
    }
    assert(depth(x, e2 + 1) == 0) by {
        assert(depth(x, s + (f.len() + kept.len() + 1int)) == depth(h, f.len() + kept.len() + 1int));
        lemma_depth_concat(f, g, kept.len() + 1int);
        assert(depth(f, 1int + vals.len()) == 1);
    }
    lemma_section_end_of(x, s, s + 1, e2);
    assert(section_range(x, label) == Some((s, e2, ind)));
    // and writes the same lines again
    assert(x.subrange(s + 1, e2) =~= vals + kept);
    lemma_kept_concat(vals, kept, keys);
    lemma_kept_of_assigning(vals, keys);
    lemma_kept_kept(inner, keys);
    assert(Seq::<Seq<char>>::empty() + kept =~= kept);
    assert(x.take(s) =~= ls.take(s));
    assert(x.skip(e2 + 1) =~= ls.skip(e + 1));
    assert(x.take(s) + (seq![ind + label] + values.map_values(|kv: (Seq<char>, Seq<char>)| assignment(ind + "  "@, kv))
        + kept_lines(x.subrange(s + 1, e2), keys) + seq![ind + "}"@]) + x.skip(e2 + 1) =~= x);
}

/// An edited section keeps none of its old assignments to the keys being set: of
/// the lines between its header and its closing line, only those that assign none
/// of the keys stay, in their order, after the new assignments.
pub proof fn law_edited_section_drops_old_assignments(ls: Seq<Seq<char>>, keys: Seq<Seq<char>>)
    ensures
        forall|i: int| 0 <= i < kept_lines(ls, keys).len() ==> !assigns_key(#[trigger] kept_lines(ls, keys)[i], keys),
        kept_lines(ls, keys).len() <= ls.len(),
    decreases ls.len(),
{
    if ls.len() > 0 {
        law_edited_section_drops_old_assignments(ls.drop_last(), keys);
    }
}

/// Editing a section twice with the same settings gives the text that editing it
/// once gives. This holds when the section's name is not empty, trimmed and free of
/// braces and line breaks; the settings' keys read back as themselves and keys and
/// values are free of braces, line breaks and a final carriage return; no line of
/// the text ends with a carriage return and the text does not end with an empty
/// line; and the braces let the edited section be found again: a new section is
/// appended to text whose braces balance, and in a found section the lines that
/// set one of the keys balance their braces and the closing line closes one level.
/// Otherwise the second edit may differ: a text that ends with an empty line loses
/// it, a line left ending in a carriage return loses that, a name with blanks
/// around it is not found again and is appended a second time, and a replaced line
/// that opened a brace moves the section's end the second time.
pub proof fn law_upsert_twice_is_upsert_once(body: Seq<char>, section: Seq<char>, values: Seq<(Seq<char>, Seq<char>)>)
    requires
        upsert_ok(body, section),
        plain_section(section),
        plain_values(values),
        plain_lines(lines(body)),
        match section_range(lines(body), section + " {"@) {
            None => depth(lines(body), lines(body).len() as int) == 0,
            Some((s, e, ind)) => brace_balance(lines(body)[e]) == -1 && forall|k: int|
                s < k < e && assigns_key(#[trigger] lines(body)[k], value_keys(values)) ==> brace_balance(lines(body)[k]) == 0,
        },
    ensures
        upserted(upserted(body, section, values), section, values) == upserted(body, section, values),
{
    match section_range(lines(body), section + " {"@) {
        None => {
            lemma_upsert_twice_absent(body, section, values);
        },
        Some((s, e, ind)) => {
            lemma_upsert_twice_found(body, section, values, s, e, ind);
        },
    }
}

// ───────────────────────────── the bytes of the report ─────────────────────────────

/// The encoding of two pieces of text is the encoding of each, one after the other.
proof fn lemma_utf8_bytes_concat(a: Seq<char>, b: Seq<char>)
    ensures
        utf8_bytes(a + b) == utf8_bytes(a) + utf8_bytes(b),
    decreases b.len(),
{
    if b.len() == 0 {
        assert(a + b =~= a);
        assert(utf8_bytes(a) + utf8_bytes(b) =~= utf8_bytes(a));
    } else {
        assert((a + b).drop_last() =~= a + b.drop_last());
        assert((a + b).last() == b.last());
        lemma_utf8_bytes_concat(a, b.drop_last());
        assert(utf8_bytes(a) + utf8_bytes(b.drop_last()) + utf8_char(b.last()) =~= utf8_bytes(a) + (utf8_bytes(
            b.drop_last(),
        ) + utf8_char(b.last())));
    }
}

/// ASCII text is encoded one byte per character, each the character's code.
proof fn lemma_utf8_ascii(t: Seq<char>)
    requires
        forall|i: int| 0 <= i < t.len() ==> (#[trigger] t[i] as u32) < 0x80,
    ensures
        utf8_bytes(t).len() == t.len(),
        forall|i: int| 0 <= i < t.len() ==> #[trigger] utf8_bytes(t)[i] == t[i] as u32 as u8,
    decreases t.len(),
{
    if t.len() > 0 {
        let d = t.drop_last();
        assert forall|i: int| 0 <= i < d.len() implies (#[trigger] d[i] as u32) < 0x80 by {
            assert(d[i] == t[i]);
        }
        lemma_utf8_ascii(d);
        assert(t.last() == t[t.len() - 1]);
        assert forall|i: int| 0 <= i < t.len() implies #[trigger] utf8_bytes(t)[i] == t[i] as u32 as u8 by {
            if i < d.len() {
                assert(utf8_bytes(t)[i] == utf8_bytes(d)[i]);
                assert(d[i] == t[i]);
            }
        }
    }
}

/// The text of every document begins with the PDF header.
proof fn lemma_body_fold_header(objs: Seq<Seq<char>>)
    ensures
        body_fold(objs).0.len() >= 9,
        body_fold(objs).0.take(9) == "%PDF-1.4\n"@,
    decreases objs.len(),
{
    reveal_strlit("%PDF-1.4\n");
    if objs.len() == 0 {
        assert("%PDF-1.4\n"@.take(9) =~= "%PDF-1.4\n"@);
    } else {
        lemma_body_fold_header(objs.drop_last());
        let b = body_fold(objs.drop_last()).0;
        let tail = decimal(objs.len()) + " 0 obj\n"@ + objs.last() + "\nendobj\n"@;
        assert(body_fold(objs).0 =~= b + tail);
        assert((b + tail).take(9) =~= b.take(9));
    }
}

/// The text of every document begins with the PDF header and ends with the end
/// of file marker.
proof fn lemma_document_text(pages: Seq<Seq<crate::response_codes::RowModel>>, generated_at: Seq<char>)
    ensures
        pdf_document(pages, generated_at).len() >= 16,
        pdf_document(pages, generated_at).take(9) == "%PDF-1.4\n"@,
        pdf_document(pages, generated_at).skip(pdf_document(pages, generated_at).len() - 7) == "\n%%EOF\n"@,
{
    reveal_strlit("%PDF-1.4\n");
    reveal_strlit("\n%%EOF\n");
    let doc = pdf_document(pages, generated_at);
    let objs = crate::pdf::pdf_objects(pages, generated_at);
    let b = body_fold(objs);
    lemma_body_fold_header(objs);
    let foot = "\n%%EOF\n"@;
    let rest = "xref\n0 "@ + decimal(objs.len() + 1) + "\n"@ + "0000000000 65535 f \n"@ + crate::pdf::xref_entries(b.1)
        + "trailer\n<< /Size "@ + decimal(objs.len() + 1) + " /Root 1 0 R >>\n"@ + "startxref\n"@ + decimal(
        crate::commands::utf8_len(b.0),
    );
    assert(doc =~= b.0 + rest + foot);
    assert((b.0 + rest + foot).take(9) =~= b.0.take(9));
    assert((b.0 + rest + foot).skip((b.0 + rest + foot).len() - 7) =~= foot);
}

/// Text that begins with the PDF header and ends with the end of file marker is
/// encoded into bytes that do.
proof fn lemma_document_bytes(doc: Seq<char>)
    requires
        doc.len() >= 16,
        doc.take(9) == "%PDF-1.4\n"@,
        doc.skip(doc.len() - 7) == "\n%%EOF\n"@,
    ensures
        utf8_bytes(doc).take(9) == seq![0x25u8, 0x50, 0x44, 0x46, 0x2D, 0x31, 0x2E, 0x34, 0x0A],
        utf8_bytes(doc).skip(utf8_bytes(doc).len() - 6) == seq![0x25u8, 0x25, 0x45, 0x4F, 0x46, 0x0A],
{
    reveal_strlit("%PDF-1.4\n");
    reveal_strlit("\n%%EOF\n");
    let head = "%PDF-1.4\n"@;
    let foot = "\n%%EOF\n"@;
    assert(head =~= seq!['%', 'P', 'D', 'F', '-', '1', '.', '4', '\n']);
    assert(foot =~= seq!['\n', '%', '%', 'E', 'O', 'F', '\n']);
    let mid = doc.subrange(9, doc.len() - 7);
    assert(doc =~= head + mid + foot);
    lemma_utf8_bytes_concat(head + mid, foot);
    lemma_utf8_bytes_concat(head, mid);
    assert forall|i: int| 0 <= i < head.len() implies (#[trigger] head[i] as u32) < 0x80 by {}
    assert forall|i: int| 0 <= i < foot.len() implies (#[trigger] foot[i] as u32) < 0x80 by {}
    lemma_utf8_ascii(head);
    lemma_utf8_ascii(foot);
    let bytes = utf8_bytes(doc);
    assert(bytes == utf8_bytes(head) + utf8_bytes(mid) + utf8_bytes(foot));
    assert(bytes.take(9) =~= utf8_bytes(head));
    assert(utf8_bytes(head) =~= seq![0x25u8, 0x50, 0x44, 0x46, 0x2D, 0x31, 0x2E, 0x34, 0x0A]);
    assert(bytes.skip(bytes.len() - 6) =~= utf8_bytes(foot).skip(1));
    assert(utf8_bytes(foot).skip(1) =~= seq![0x25u8, 0x25, 0x45, 0x4F, 0x46, 0x0A]);
}

/// The report's bytes are a PDF 1.4 file: they begin with `%PDF-1.4` and a line
/// break, and end with `%%EOF` and a line break.
pub proof fn law_report_is_a_pdf_file(pages: Seq<Seq<crate::response_codes::RowModel>>, generated_at: Seq<char>)
    ensures
        utf8_bytes(pdf_document(pages, generated_at)).take(9) == seq![0x25u8, 0x50, 0x44, 0x46, 0x2D, 0x31, 0x2E, 0x34, 0x0A],
        utf8_bytes(pdf_document(pages, generated_at)).skip(utf8_bytes(pdf_document(pages, generated_at)).len() - 6) == seq![
            0x25u8,
            0x25,
            0x45,
            0x4F,
            0x46,
            0x0A,
        ],
{
    lemma_document_text(pages, generated_at);
    lemma_document_bytes(pdf_document(pages, generated_at));
}

/// In the bytes of `p + (m + r)`, the bytes of `m` stand at the offset that
/// `String::len` gives for `p`.
proof fn lemma_bytes_at(p: Seq<char>, m: Seq<char>, r: Seq<char>)
    ensures
        utf8_len(p) + utf8_bytes(m).len() <= utf8_bytes(p + (m + r)).len(),
        utf8_bytes(p + (m + r)).subrange(utf8_len(p) as int, (utf8_len(p) + utf8_bytes(m).len()) as int) == utf8_bytes(m),
{
    lemma_utf8_bytes_concat(p, m + r);
    lemma_utf8_bytes_concat(m, r);
    lemma_utf8_bytes_len(p);
    let d = utf8_bytes(p) + (utf8_bytes(m) + utf8_bytes(r));
    assert(d.subrange(utf8_len(p) as int, (utf8_len(p) + utf8_bytes(m).len()) as int) =~= utf8_bytes(m));
}

/// The document is its header and objects, then the cross-reference table, which
/// begins with `xref`.
proof fn lemma_document_parts(pages: Seq<Seq<crate::response_codes::RowModel>>, g: Seq<char>)
    ensures
        ({
            let b = body_fold(crate::pdf::pdf_objects(pages, g));
            pdf_document(pages, g) == b.0 + ("xref\n"@ + pdf_document(pages, g).skip((b.0.len() + 5) as int))
        }),
{
    let objs = crate::pdf::pdf_objects(pages, g);
    let b = body_fold(objs);
    let doc = pdf_document(pages, g);
    reveal_strlit("xref\n0 ");
    reveal_strlit("xref\n");
    let t = "xref\n0 "@ + decimal(objs.len() + 1) + "\n"@ + "0000000000 65535 f \n"@ + xref_entries(b.1)
        + "trailer\n<< /Size "@ + decimal(objs.len() + 1) + " /Root 1 0 R >>\n"@ + "startxref\n"@ + decimal(
        utf8_len(b.0),
    ) + "\n%%EOF\n"@;
    assert(doc =~= b.0 + t);
    assert(t =~= "xref\n"@ + t.skip(5));
    assert(doc.skip((b.0.len() + 5) as int) =~= t.skip(5));
}

/// In the bytes of the report, the cross-reference table points at the objects:
/// its `k`-th offset is where the bytes of `<k + 1> 0 obj` begin, and the offset
/// after `startxref` is where the bytes of `xref` begin.
pub proof fn law_report_offsets_point_at_objects(pages: Seq<Seq<crate::response_codes::RowModel>>, g: Seq<char>, k: int)
    requires
        0 <= k < crate::pdf::pdf_objects(pages, g).len(),
    ensures
        ({
            let objs = crate::pdf::pdf_objects(pages, g);
            let b = body_fold(objs);
            let d = utf8_bytes(pdf_document(pages, g));
            let m = utf8_bytes(decimal((k + 1) as nat) + " 0 obj\n"@);
            let x = utf8_bytes("xref\n"@);
            &&& b.1.len() == objs.len()
            &&& b.1[k] + m.len() <= d.len()
            &&& d.subrange(b.1[k] as int, (b.1[k] + m.len()) as int) == m
            &&& utf8_len(b.0) + x.len() <= d.len()
            &&& d.subrange(utf8_len(b.0) as int, (utf8_len(b.0) + x.len()) as int) == x
        }),
{
    let objs = crate::pdf::pdf_objects(pages, g);
    let b = body_fold(objs);
    let doc = pdf_document(pages, g);
    let mk = decimal((k + 1) as nat) + " 0 obj\n"@;
    law_cross_references_locate_objects(objs, k);
    lemma_document_parts(pages, g);
    let tail = "xref\n"@ + doc.skip((b.0.len() + 5) as int);
    let p = body_fold(objs.take(k)).0;
    let q = b.0.skip(p.len() as int);
    let q2 = q.skip(mk.len() as int);
    assert(b.0 =~= p + q);
    assert(q =~= mk + q2);
    assert(doc =~= p + (mk + (q2 + tail)));
    lemma_bytes_at(p, mk, q2 + tail);
    lemma_bytes_at(b.0, "xref\n"@, doc.skip((b.0.len() + 5) as int));
}

// ───────────────────────────── identities read back ─────────────────────────────

proof fn lemma_decimal_digits(n: nat)
    ensures
        decimal(n).len() > 0,
        crate::text::all_digits(decimal(n)),
        crate::text::digits_value(decimal(n)) == n,
    decreases n,
{
    if n >= 10 {
        lemma_decimal_digits(n / 10);
        let d = decimal(n / 10);
        let c = crate::text::digit_char(n % 10);
        assert(decimal(n) == d.push(c));
        assert(d.push(c).drop_last() =~= d);
        assert(crate::text::digit_value(c) == n % 10);
        assert(d.push(c).last() == c);
        assert(crate::text::digits_value(d.push(c)) == crate::text::digits_value(d) * 10 + crate::text::digit_value(c));
        assert(n == (n / 10) * 10 + n % 10);
        assert forall|i: int| 0 <= i < d.push(c).len() implies crate::text::is_ascii_digit(#[trigger] d.push(c)[i]) by {
            if i < d.len() {
                assert(d.push(c)[i] == d[i]);
            }
        }
    } else {
        let c = crate::text::digit_char(n);
        assert(seq![c].drop_last() =~= Seq::<char>::empty());
        assert(seq![c].last() == c);
        assert(crate::text::digit_value(c) == n);
        assert(crate::text::digits_value(seq![c]) == crate::text::digits_value(Seq::<char>::empty()) * 10 + crate::text::digit_value(c));
    }
}

/// The key of the `i`-th identity as written is an identity key, neither `secret`
/// nor `pin`, and reads back as itself.
proof fn lemma_id_key_is_identity(i: nat)
    requires
        i < u32::MAX,
    ensures
        crate::secrets::is_id_key(crate::secrets::id_key(i)),
        !is_hidden_key(crate::secrets::id_key(i)),
        plain_key(crate::secrets::id_key(i)),
{
    reveal_strlit("id");
    reveal_strlit("secret");
    reveal_strlit("pin");
    let k = crate::secrets::id_key(i);
    if i > 0 {
        let d = decimal(i + 1);
        lemma_decimal_digits(i + 1);
        assert(k =~= "id"@ + d);
        assert(k.skip(2) =~= d);
        assert(k.take(2) =~= "id"@);
        assert(d[0] != '+') by {
            assert(crate::text::is_ascii_digit(d[0]));
        }
        assert(crate::text::parse_u64(d) == Some((i + 1) as u64));
        assert(k.last() == d.last());
        assert(crate::text::is_ascii_digit(d[d.len() - 1]));
        assert(!is_ws(k.last()));
        assert forall|j: int| 0 <= j < k.len() implies #[trigger] k[j] != '=' && k[j] != '\n' by {
            if j >= 2 {
                assert(k[j] == d[j - 2]);
                assert(crate::text::is_ascii_digit(d[j - 2]));
            }
        }
    }
    assert(k[0] == 'i');
    assert(!is_ws(k[0]));
    lemma_trim_no_ws(k);
}

/// The settings of a shared secret as written: `secret`, then one identity after
/// another under `id`, `id2`, `id3`, ...
pub open spec fn identity_settings(sec: Seq<char>, ids: Seq<Seq<char>>) -> Seq<(Seq<char>, Seq<char>)> {
    seq![("secret"@, sec)] + Seq::new(ids.len(), |i: int| (crate::secrets::id_key(i as nat), ids[i]))
}

proof fn lemma_identities_shown(sec: Seq<char>, ids: Seq<Seq<char>>)
    requires
        ids.len() < u32::MAX,
    ensures
        shown_fields(read_back(identity_settings(sec, ids))) == seq![("secret"@, ShownValue::Text("***redacted***"@))],
        shown_ids(read_back(identity_settings(sec, ids))) == ids.map_values(|v: Seq<char>| trim(v)),
    decreases ids.len(),
{
    reveal_strlit("secret");
    reveal_strlit("pin");
    let st = identity_settings(sec, ids);
    let rb = read_back(st);
    if ids.len() == 0 {
        assert(rb.drop_last() =~= Seq::<(Seq<char>, Seq<char>)>::empty());
        assert(rb.last() == ("secret"@, trim(sec)));
        assert(is_hidden_key("secret"@));
        assert(shown_fields(rb.drop_last()) == Seq::<(Seq<char>, ShownValue)>::empty());
        assert(shown_ids(rb.drop_last()) == Seq::<Seq<char>>::empty());
        assert(crate::secrets::key_at(Seq::<(Seq<char>, ShownValue)>::empty(), "secret"@) == -1);
        assert(ids.map_values(|v: Seq<char>| trim(v)) =~= Seq::<Seq<char>>::empty());
        assert(put(Seq::empty(), "secret"@, ShownValue::Text("***redacted***"@)) =~= seq![("secret"@, ShownValue::Text("***redacted***"@))]);
    } else {
        let n = ids.len() - 1;
        lemma_identities_shown(sec, ids.drop_last());
        assert(identity_settings(sec, ids.drop_last()) =~= st.drop_last());
        assert(read_back(st.drop_last()) =~= rb.drop_last());
        lemma_id_key_is_identity(n as nat);
        assert(st.last() == (crate::secrets::id_key(n as nat), ids[n]));
        assert(rb.last() == (crate::secrets::id_key(n as nat), trim(ids[n])));
        assert(ids.map_values(|v: Seq<char>| trim(v)) =~= ids.drop_last().map_values(|v: Seq<char>| trim(v)).push(trim(ids[n])));
    }
}

/// The identities of a shared secret read back after the secret, redacted, trimmed
/// and in the order written: a single one as `id`, several as the list `ids`.
pub proof fn law_identities_read_back(sec: Seq<char>, ids: Seq<Seq<char>>)
    requires
        1 <= ids.len() < u32::MAX,
    ensures
        shown_object(read_back(identity_settings(sec, ids))) == if ids.len() == 1 {
            seq![("secret"@, ShownValue::Text("***redacted***"@)), ("id"@, ShownValue::Text(trim(ids[0])))]
        } else {
            seq![
                ("secret"@, ShownValue::Text("***redacted***"@)),
                ("ids"@, ShownValue::List(ids.map_values(|v: Seq<char>| trim(v)))),
            ]
        },
{
    reveal_strlit("secret");
    reveal_strlit("id");
    reveal_strlit("ids");
    lemma_identities_shown(sec, ids);
    let fs = seq![("secret"@, ShownValue::Text("***redacted***"@))];
    assert(fs.drop_first() =~= Seq::<(Seq<char>, ShownValue)>::empty());
    assert(crate::secrets::key_at(fs.drop_first(), "id"@) == -1);
    assert(crate::secrets::key_at(fs.drop_first(), "ids"@) == -1);
    assert("secret"@.len() != "id"@.len() && "secret"@.len() != "ids"@.len());
    assert(crate::secrets::key_at(fs, "id"@) == -1);
    assert(crate::secrets::key_at(fs, "ids"@) == -1);
    assert(ids.map_values(|v: Seq<char>| trim(v))[0] == trim(ids[0]));
}

/// A shared secret written with its identities reads back, from the file, as its
/// secret redacted and its identities trimmed and in order: a single one as `id`,
/// several as the list `ids`; the secret and the identities hold no line break.
pub proof fn law_written_identities_read_back(name: Seq<char>, t: SecretType, sec: Seq<char>, ids: Seq<Seq<char>>)
    requires
        safe_name(name) == Some(name),
        1 <= ids.len() < u32::MAX,
        forall|j: int| 0 <= j < sec.len() ==> sec[j] != '\n',
        forall|i: int, j: int| 0 <= i < ids.len() && 0 <= j < ids[i].len() ==> #[trigger] ids[i][j] != '\n',
    ensures
        shown_object(scan(lines(secret_conf(name, t, seq!["secret = "@ + sec] + crate::secrets::id_lines(ids)))).1) == if ids.len() == 1 {
            seq![("secret"@, ShownValue::Text("***redacted***"@)), ("id"@, ShownValue::Text(trim(ids[0])))]
        } else {
            seq![
                ("secret"@, ShownValue::Text("***redacted***"@)),
                ("ids"@, ShownValue::List(ids.map_values(|v: Seq<char>| trim(v)))),
            ]
        },
{
    reveal_strlit("secret");
    reveal_strlit("secret = ");
    reveal_strlit(" = ");
    let st = identity_settings(sec, ids);
    assert forall|i: int| 0 <= i < st.len() implies plain_key(#[trigger] st[i].0) by {
        if i == 0 {
            let k = "secret"@;
            assert(k[0] == 's' && k.last() == 't');
            lemma_trim_no_ws(k);
        } else {
            lemma_id_key_is_identity((i - 1) as nat);
        }
    }
    assert forall|i: int, j: int| 0 <= i < st.len() && 0 <= j < st[i].1.len() implies #[trigger] st[i].1[j] != '\n' by {
        if i > 0 {
            assert(st[i].1 == ids[i - 1]);
        }
    }
    law_written_secret_reads_back_its_settings(name, t, st);
    let written = st.map_values(|kv: (Seq<char>, Seq<char>)| setting_line(kv));
    let want = seq!["secret = "@ + sec] + crate::secrets::id_lines(ids);
    assert forall|i: int| 0 <= i < want.len() implies #[trigger] written[i] == want[i] by {
        if i == 0 {
            assert(setting_line(("secret"@, sec)) =~= "secret = "@ + sec);
        } else {
            assert(want[i] == crate::secrets::id_lines(ids)[i - 1]);
        }
    }
    assert(written =~= want);
    law_identities_read_back(sec, ids);
}

// ───────────────────────────── requests on secrets ─────────────────────────────

/// A secret's file is written only once the existence check has passed (the file
/// exists for an update, does not for a create); it is removed only once its
/// content has been read and kept; and it is put back only after a failed reload,
/// with what it held before the request.
pub proof fn law_secret_files_change_only_when_safe(c: SecretCtlModel, e: SecretEventModel)
    ensures
        secret_step_model(c, e).1 is WriteKeeping ==> e == SecretEventModel::Exists(c.2),
        secret_step_model(c, e).1 is Remove ==> (e matches SecretEventModel::Read(Ok(Some(content)))
            && secret_step_model(c, e).0.6 == Some(content)),
        secret_step_model(c, e).1 is Restore ==> (e matches SecretEventModel::Reloaded(Some(_))
            && secret_step_model(c, e).1 == SecretActionModel::Restore(c.4, c.6)),
{
}

/// A written secret whose credentials fail to reload is undone: the file is put
/// back with what it held before the write (or removed when it held nothing), and
/// the answer is 400 with the reload's error.
pub proof fn law_failed_reload_undoes_a_write(c: SecretCtlModel, before: Option<Seq<char>>, e: Seq<char>)
    requires
        c.8 == SecretStage::Writing,
        !c.3,
    ensures
        ({
            let (c1, a1) = secret_step_model(c, SecretEventModel::Written(Ok(before)));
            let (c2, a2) = secret_step_model(c1, SecretEventModel::Reloaded(Some(e)));
            let (c3, a3) = secret_step_model(c2, SecretEventModel::Restored);
            &&& a1 == SecretActionModel::ReloadCreds
            &&& a2 == SecretActionModel::Restore(c.4, before)
            &&& a3 == SecretActionModel::Reply(400, c.1, write_action(c.2), false, reverted_text(e))
            &&& c3.8 == SecretStage::Done
        }),
{
}

/// A deleted secret whose credentials fail to reload is put back with the content
/// it had, and the answer is 400 with the reload's error.
pub proof fn law_failed_reload_undoes_a_delete(c: SecretCtlModel, content: Seq<char>, e: Seq<char>)
    requires
        c.8 == SecretStage::Reading,
        c.3,
    ensures
        ({
            let (c1, a1) = secret_step_model(c, SecretEventModel::Read(Ok(Some(content))));
            let (c2, a2) = secret_step_model(c1, SecretEventModel::Removed(None));
            let (c3, a3) = secret_step_model(c2, SecretEventModel::Reloaded(Some(e)));
            let (c4, a4) = secret_step_model(c3, SecretEventModel::Restored);
            &&& a1 == SecretActionModel::Remove(c.4)
            &&& a2 == SecretActionModel::ReloadCreds
            &&& a3 == SecretActionModel::Restore(c.4, Some(content))
            &&& a4 == SecretActionModel::Reply(400, c.1, "delete"@, false, reverted_text(e))
            &&& c4.8 == SecretStage::Done
        }),
{
}

// ───────────────────────────── requests on connections and certificates ─────────────────────────────

/// A connection's file is written only once the existence check has passed: it
/// exists for an update and does not for a create.
pub proof fn law_connection_written_only_after_check(c: crate::resources::ConnCtlModel, e: ConnEventModel)
    ensures
        conn_step_model(c, e).1 is Write ==> e == ConnEventModel::Exists(c.1),
{
}

/// `openssl` is run only once every check has passed: the directories are made
/// only when a create finds no certificate and an update finds one, and the files
/// are made only after the directories, and for a user certificate only once its
/// CA has both its certificate and its key. A certificate is removed only when it
/// exists.
pub proof fn law_certificate_made_only_after_checks(c: crate::certificates::CertCtlModel, e: CertEventModel)
    ensures
        cert_step_model(c, e).1 is PrepareDirectories ==> e == CertEventModel::Exists(c.2) && !c.3,
        cert_step_model(c, e).1 is Generate ==> (e == CertEventModel::Prepared(None) && c.1 == CertificateKind::Ca) || (
        e == CertEventModel::CaFound(true)),
        cert_step_model(c, e).1 is Remove ==> e == CertEventModel::Exists(true) && c.3,
{
}

/// An attachment writes the connection's file only with what attaching the
/// certificate to the body just read gave.
pub proof fn law_attachment_writes_only_what_it_made(
    c: (Seq<char>, crate::resources::AttachStage),
    e: AttachEventModel,
    p: crate::types::ConnectionCertificateAttachRequest,
)
    ensures
        attach_step_model(c, e, p).1 is Write ==> (e matches AttachEventModel::Read(Ok(Some(content))) && (
        crate::connections::attached(editable_body(c.0, content), p) matches Ok(u)
            && attach_step_model(c, e, p).1 == AttachActionModel::Write(
            crate::connections::connection_path(c.0),
            crate::connections::connection_conf(c.0, u),
        ))),
{
}

// ───────────────────────────── what the operations produce ─────────────────────────────

/// The first `swanctl` run of a peer request with a name and a valid phase:
/// `--initiate` to bring the peer up and `--terminate` to bring it down, of the
/// CHILD SA for phase 2 and of the IKE SA otherwise (phase 1 or no phase), for the
/// peer named, at once and with a 20 s limit.
pub proof fn law_peer_request_first_run(name: Seq<char>, bring_up: bool, phase: Option<u8>)
    requires
        name.len() > 0,
        phase == None::<u8> || phase == Some(1u8) || phase == Some(2u8),
    ensures
        crate::control::start_model(name, bring_up, phase).1 == (PeerActionModel::Run {
            pause_ms: 0,
            args: seq![
                if bring_up {
                    "--initiate"@
                } else {
                    "--terminate"@
                },
                if phase == Some(2u8) {
                    "--child"@
                } else {
                    "--ike"@
                },
                name,
            ],
            timeout_secs: 20,
        }),
{
}

/// The OpenSSL subject of a certificate: the country (`/C=`) when one is given and
/// not blank, then the organization (`/O=`) likewise, then the common name
/// (`/CN=`), each trimmed.
pub proof fn law_subject_names_its_parts(cn: Seq<char>, org: Option<Seq<char>>, country: Option<Seq<char>>)
    ensures
        crate::connections::subject(cn, org, country) == (match country {
            Some(c) => if trim(c).len() > 0 {
                "/C="@ + trim(c)
            } else {
                Seq::<char>::empty()
            },
            None => Seq::<char>::empty(),
        }) + (match org {
            Some(o) => if trim(o).len() > 0 {
                "/O="@ + trim(o)
            } else {
                Seq::<char>::empty()
            },
            None => Seq::<char>::empty(),
        }) + "/CN="@ + trim(cn),
{
}

/// The status that `swanctl` reports for an IKE SA in `state`.
pub open spec fn status_of_state(state: Seq<char>) -> VpnStatus {
    if state == "ESTABLISHED"@ || state == "INSTALLED"@ || state == "REKEYED"@ {
        VpnStatus::Up
    } else if state == "CONNECTING"@ || state == "CONNECTING_CHILD"@ || state == "REKEYING"@ {
        VpnStatus::Connecting
    } else {
        VpnStatus::Down
    }
}

proof fn lemma_no_sa_named(active: Seq<SaModel>, name: Seq<char>)
    requires
        forall|j: int| 0 <= j < active.len() ==> (#[trigger] active[j]).name != name,
    ensures
        crate::engine::last_sa(active, name) == None::<SaModel>,
    decreases active.len(),
{
    if active.len() > 0 {
        assert(active.last() == active[active.len() - 1]);
        assert forall|j: int| 0 <= j < active.drop_last().len() implies (#[trigger] active.drop_last()[j]).name != name by {
            assert(active.drop_last()[j] == active[j]);
        }
        lemma_no_sa_named(active.drop_last(), name);
    }
}

proof fn lemma_last_sa_named(active: Seq<SaModel>, name: Seq<char>, k: int)
    requires
        0 <= k < active.len(),
        active[k].name == name,
        forall|j: int| k < j < active.len() ==> (#[trigger] active[j]).name != name,
    ensures
        crate::engine::last_sa(active, name) == Some(active[k]),
    decreases active.len(),
{
    if k < active.len() - 1 {
        assert(active.last() == active[active.len() - 1]);
        assert forall|j: int| k < j < active.drop_last().len() implies (#[trigger] active.drop_last()[j]).name != name by {
            assert(active.drop_last()[j] == active[j]);
        }
        assert(active.drop_last()[k] == active[k]);
        lemma_last_sa_named(active.drop_last(), name, k);
    }
}

/// The node and the link built for the `i`-th configured connection: a remote
/// endpoint named after it, with the id `peer-` and its name with every character
/// that is not an ASCII letter or digit made `-`, linked from the gateway. When no
/// active SA has its name, the link is down and the node's address is the remote
/// address configured for the connection. Otherwise the last SA of that name
/// decides: its remote address (or the configured one when it has none), and the
/// status of its state.
pub proof fn law_configured_connection_node(configured: Seq<ConnModel>, active: Seq<SaModel>, i: int)
    requires
        0 <= i < configured.len(),
    ensures
        ({
            let t = strongswan_topology(configured, active);
            let c = configured[i];
            &&& t.nodes[i + 1].name == c.name
            &&& t.nodes[i + 1].node_type == crate::models::NodeType::RemoteEndpoint
            &&& t.nodes[i + 1].id.len() == c.name.len() + 5
            &&& t.nodes[i + 1].id.take(5) == "peer-"@
            &&& forall|j: int| 0 <= j < c.name.len() ==> #[trigger] t.nodes[i + 1].id[j + 5] == if is_ascii_alnum(c.name[j]) {
                c.name[j]
            } else {
                '-'
            }
            &&& t.edges[i].from_node == gateway_id()
            &&& t.edges[i].to_node == t.nodes[i + 1].id
            &&& (forall|j: int| 0 <= j < active.len() ==> (#[trigger] active[j]).name != c.name) ==> t.nodes[i + 1].address
                == c.remote_hint && t.edges[i].status == VpnStatus::Down
            &&& forall|k: int|
                #![trigger active[k]]
                0 <= k < active.len() && active[k].name == c.name && (forall|j: int| k < j < active.len() ==> (#[trigger] active[j]).name != c.name)
                    ==> t.nodes[i + 1].address == (if active[k].remote_addr is Some {
                    active[k].remote_addr
                } else {
                    c.remote_hint
                }) && t.edges[i].status == status_of_state(active[k].state)
        }),
{
    let t = strongswan_topology(configured, active);
    let c = configured[i];
    let nodes_conf = configured.map_values(
        |c: ConnModel| crate::engine::peer_node(c.name, crate::engine::link_address(active, c.name, c.remote_hint)),
    );
    assert(t.nodes[i + 1] == (seq![gateway_node()] + nodes_conf)[i + 1]);
    assert(t.nodes[i + 1] == crate::engine::peer_node(c.name, crate::engine::link_address(active, c.name, c.remote_hint)));
    assert(t.edges[i] == crate::engine::peer_edge(c.name, crate::engine::link_status(active, c.name)));
    reveal_strlit("peer-");
    let id = t.nodes[i + 1].id;
    assert(id == "peer-"@ + crate::engine::sanitized_id(c.name));
    assert(id.take(5) =~= "peer-"@);
    if forall|j: int| 0 <= j < active.len() ==> (#[trigger] active[j]).name != c.name {
        lemma_no_sa_named(active, c.name);
    }
    assert forall|k: int|
        #![trigger active[k]]
        0 <= k < active.len() && active[k].name == c.name && (forall|j: int| k < j < active.len() ==> (#[trigger] active[j]).name != c.name)
            implies t.nodes[i + 1].address == (if active[k].remote_addr is Some {
            active[k].remote_addr
        } else {
            c.remote_hint
        }) && t.edges[i].status == status_of_state(active[k].state) by {
        lemma_last_sa_named(active, c.name, k);
    }
}

/// A header line of `swanctl --list-sas` output: not indented, and holding `: #`.
pub open spec fn is_sa_header(raw: Seq<char>) -> bool {
    crate::engine::is_top_level(raw) && crate::text::contains(trim(raw), ": #"@)
}

/// The name and the state read from each header line of `ls`, in order.
pub open spec fn sa_headers(ls: Seq<Seq<char>>) -> Seq<(Seq<char>, Seq<char>)>
    decreases ls.len(),
{
    if ls.len() == 0 {
        seq![]
    } else if is_sa_header(ls.last()) {
        sa_headers(ls.drop_last()).push(crate::peers::ike_header(trim(ls.last())))
    } else {
        sa_headers(ls.drop_last())
    }
}

pub open spec fn peer_heads(peers: Seq<crate::peers::PeerModel>) -> Seq<(Seq<char>, Seq<char>)> {
    peers.map_values(|p: crate::peers::PeerModel| (p.peer_name, p.phase1_state))
}

pub open spec fn open_heads(st: crate::peers::PeersState) -> Seq<(Seq<char>, Seq<char>)> {
    match st.cur {
        Some(p) => peer_heads(st.peers).push((p.peer_name, p.phase1_state)),
        None => peer_heads(st.peers),
    }
}

proof fn lemma_peer_heads_push(peers: Seq<crate::peers::PeerModel>, p: crate::peers::PeerModel)
    ensures
        peer_heads(peers.push(p)) == peer_heads(peers).push((p.peer_name, p.phase1_state)),
{
    assert(peer_heads(peers.push(p)) =~= peer_heads(peers).push((p.peer_name, p.phase1_state)));
}

proof fn lemma_fold_heads(ls: Seq<Seq<char>>)
    ensures
        open_heads(crate::peers::peers_fold(ls)) == sa_headers(ls),
    decreases ls.len(),
{
    reveal_strlit(": #");
    if ls.len() > 0 {
        lemma_fold_heads(ls.drop_last());
        let st = crate::peers::peers_fold(ls.drop_last());
        let raw = ls.last();
        let t = trim(raw);
        if t.len() == 0 {
            assert(!crate::text::occurs_at(t, ": #"@, 0));
            assert(!crate::text::contains(t, ": #"@));
        } else if crate::engine::is_top_level(raw) && crate::text::contains(t, ": #"@) {
            if let Some(p) = st.cur {
                lemma_peer_heads_push(st.peers, p);
            }
        }
    }
}

/// Each header line of `swanctl --list-sas` output gives one peer, in order: as
/// many peers as header lines, the `i`-th named, and in the state, that the `i`-th
/// header line gives.
pub proof fn law_every_sa_header_gives_a_peer(output: Seq<char>)
    ensures
        crate::peers::runtime_statuses(output).len() == sa_headers(lines(output)).len(),
        forall|i: int| 0 <= i < sa_headers(lines(output)).len() ==> {
            &&& (#[trigger] crate::peers::runtime_statuses(output)[i]).peer_name == sa_headers(lines(output))[i].0
            &&& crate::peers::runtime_statuses(output)[i].phase1_state == sa_headers(lines(output))[i].1
        },
{
    lemma_fold_heads(lines(output));
    let st = crate::peers::peers_fold(lines(output));
    let r = crate::peers::runtime_statuses(output);
    if let Some(p) = st.cur {
        lemma_peer_heads_push(st.peers, p);
    }
    assert(peer_heads(r) == sa_headers(lines(output)));
    assert forall|i: int| 0 <= i < sa_headers(lines(output)).len() implies {
        &&& (#[trigger] r[i]).peer_name == sa_headers(lines(output))[i].0
        &&& r[i].phase1_state == sa_headers(lines(output))[i].1
    } by {
        assert(peer_heads(r)[i] == (r[i].peer_name, r[i].phase1_state));
    }
}

/// The line written for the setting `k` of `es` when it holds a string, a number or
/// a boolean: `k = ` and its text; nothing when it is absent.
pub open spec fn given_setting(es: Seq<(String, JsonValue)>, k: Seq<char>) -> Seq<Seq<char>> {
    match crate::json::obj_get(es, k) {
        Some(v) => match crate::json::scalar_text(v) {
            Some(x) => seq![k + " = "@ + x],
            None => seq![],
        },
        None => seq![],
    }
}

/// The handle of a token's configuration, when it is a string.
pub open spec fn token_handle(es: Seq<(String, JsonValue)>) -> Seq<char> {
    match crate::json::obj_get(es, "handle"@) {
        Some(JsonValue::String(h)) => h@,
        _ => Seq::empty(),
    }
}

/// A token secret is written as its handle, then each of `slot`, `module` and
/// `pin` that the configuration gives, in that order, with its text; every one
/// that it gives is a string, a number or a boolean, and so has its line.
pub proof fn law_token_secret_lines(config: JsonValue, ls: Seq<Seq<char>>)
    requires
        crate::secrets::secret_lines(SecretType::Token, config) == Ok::<Seq<Seq<char>>, Seq<char>>(ls),
    ensures
        config is Object,
        ({
            let es = config->Object_0@;
            &&& crate::json::obj_get(es, "handle"@) matches Some(JsonValue::String(_))
            &&& trim(token_handle(es)).len() > 0
            &&& ls == seq!["handle = "@ + token_handle(es)] + given_setting(es, "slot"@) + given_setting(es, "module"@)
                + given_setting(es, "pin"@)
            &&& crate::json::obj_get(es, "slot"@) is Some ==> given_setting(es, "slot"@).len() == 1
            &&& crate::json::obj_get(es, "module"@) is Some ==> given_setting(es, "module"@).len() == 1
            &&& crate::json::obj_get(es, "pin"@) is Some ==> given_setting(es, "pin"@).len() == 1
        }),
{
}

/// A peer request is refused before any run: 400 with the code for a missing name
/// when the name is blank, and 400 with the code for a bad phase when a phase other
/// than 1 or 2 is asked for.
pub proof fn law_peer_request_refusals(name: Seq<char>, bring_up: bool, phase: Option<u8>)
    ensures
        name.len() == 0 ==> crate::control::start_model(name, bring_up, phase) == (
            PeerStage::Finished,
            PeerActionModel::Reply { status: 400, code: crate::i18n::CODE_PEER_NAME_REQUIRED, success: false, detail: None },
        ),
        name.len() > 0 && phase is Some && phase->0 != 1 && phase->0 != 2 ==> crate::control::start_model(name, bring_up, phase)
            == (
            PeerStage::Finished,
            PeerActionModel::Reply { status: 400, code: crate::i18n::CODE_PEER_PHASE_INVALID, success: false, detail: None },
        ),
{
}

/// The text of a JSON string; nothing for another value.
pub open spec fn string_text(v: JsonValue) -> Seq<char> {
    match v {
        JsonValue::String(s) => s@,
        _ => Seq::empty(),
    }
}

/// A key file secret is written as its file, then its secret, both strings that
/// are not blank.
pub proof fn law_key_file_secret_lines(t: SecretType, config: JsonValue, ls: Seq<Seq<char>>)
    requires
        crate::secrets::is_key_file(t),
        crate::secrets::secret_lines(t, config) == Ok::<Seq<Seq<char>>, Seq<char>>(ls),
    ensures
        config is Object,
        ({
            let es = config->Object_0@;
            &&& crate::json::obj_get(es, "file"@) matches Some(JsonValue::String(_))
            &&& crate::json::obj_get(es, "secret"@) matches Some(JsonValue::String(_))
            &&& trim(string_text(crate::json::obj_get(es, "file"@)->0)).len() > 0
            &&& trim(string_text(crate::json::obj_get(es, "secret"@)->0)).len() > 0
            &&& ls == seq![
                "file = "@ + string_text(crate::json::obj_get(es, "file"@)->0),
                "secret = "@ + string_text(crate::json::obj_get(es, "secret"@)->0),
            ]
        }),
{
}

/// The identities a shared secret's configuration gives: `id` when it is a string,
/// else the texts of the list `ids`.
pub open spec fn given_ids(es: Seq<(String, JsonValue)>) -> Seq<Seq<char>> {
    match crate::json::obj_get(es, "id"@) {
        Some(JsonValue::String(s)) => seq![s@],
        _ => match crate::json::obj_get(es, "ids"@) {
            Some(JsonValue::Array(items)) => items@.map_values(|v: JsonValue| string_text(v)),
            _ => seq![],
        },
    }
}

proof fn lemma_id_list_texts(items: Seq<JsonValue>, a: Seq<Seq<char>>)
    requires
        crate::secrets::id_list(items) == Ok::<Seq<Seq<char>>, Seq<char>>(a),
    ensures
        a == items.map_values(|v: JsonValue| string_text(v)),
        forall|i: int| 0 <= i < items.len() ==> (#[trigger] items[i]) is String && trim(string_text(items[i])).len() > 0,
    decreases items.len(),
{
    if items.len() > 0 {
        let p = crate::secrets::id_list(items.drop_last())->Ok_0;
        lemma_id_list_texts(items.drop_last(), p);
        assert(items.map_values(|v: JsonValue| string_text(v)) =~= items.drop_last().map_values(|v: JsonValue| string_text(v)).push(
            string_text(items.last()),
        ));
        assert forall|i: int| 0 <= i < items.len() implies (#[trigger] items[i]) is String && trim(string_text(items[i])).len() > 0 by {
            if i < items.len() - 1 {
                assert(items[i] == items.drop_last()[i]);
            }
        }
    }
}

/// A shared secret is written as its secret, which is a string of at least 8
/// bytes once trimmed, then each identity the configuration gives, in order, under
/// `id`, `id2`, `id3`, ...; there is at least one, and none is blank.
pub proof fn law_shared_secret_lines(t: SecretType, config: JsonValue, ls: Seq<Seq<char>>)
    requires
        crate::secrets::is_shared_secret(t),
        crate::secrets::secret_lines(t, config) == Ok::<Seq<Seq<char>>, Seq<char>>(ls),
    ensures
        config is Object,
        ({
            let es = config->Object_0@;
            let ids = given_ids(es);
            let sec = string_text(crate::json::obj_get(es, "secret"@)->0);
            &&& crate::json::obj_get(es, "secret"@) matches Some(JsonValue::String(_))
            &&& utf8_len(trim(sec)) >= 8
            &&& ids.len() >= 1
            &&& ls.len() == ids.len() + 1
            &&& ls[0] == "secret = "@ + sec
            &&& forall|i: int| 0 <= i < ids.len() ==> trim(#[trigger] ids[i]).len() > 0 && ls[i + 1] == (if i == 0 {
                "id"@
            } else {
                "id"@ + decimal((i + 1) as nat)
            }) + " = "@ + ids[i]
        }),
{
    let es = config->Object_0@;
    let ids = crate::secrets::ids_of(es)->Ok_0;
    match crate::json::obj_get(es, "id"@) {
        Some(JsonValue::String(s)) => {},
        _ => {
            match crate::json::obj_get(es, "ids"@) {
                Some(JsonValue::Array(items)) => {
                    lemma_id_list_texts(items@, ids);
                },
                _ => {},
            }
        },
    }
    assert(given_ids(es) == ids);
    assert forall|i: int| 0 <= i < ids.len() implies trim(#[trigger] ids[i]).len() > 0 && ls[i + 1] == (if i == 0 {
        "id"@
    } else {
        "id"@ + decimal((i + 1) as nat)
    }) + " = "@ + ids[i] by {
        assert(ls[i + 1] == crate::secrets::id_lines(ids)[i]);
        if let Some(JsonValue::Array(items)) = crate::json::obj_get(es, "ids"@) {
            if !(crate::json::obj_get(es, "id"@) is Some) {
                assert(items@[i] is String);
            }
        }
    }
}

pub open spec fn sa_named(active: Seq<SaModel>, n: Seq<char>) -> bool {
    exists|j: int| 0 <= j < active.len() && (#[trigger] active[j]).name == n
}

pub open spec fn configured_named(configured: Seq<ConnModel>, n: Seq<char>) -> bool {
    exists|c: int| 0 <= c < configured.len() && (#[trigger] configured[c]).name == n
}

proof fn lemma_distinct_names(active: Seq<SaModel>)
    ensures
        forall|n: Seq<char>| #[trigger] crate::engine::distinct_names(active).contains(n) <==> sa_named(active, n),
        crate::engine::distinct_names(active).no_duplicates(),
    decreases active.len(),
{
    if active.len() > 0 {
        let d = active.drop_last();
        lemma_distinct_names(d);
        let p = crate::engine::distinct_names(d);
        let ln = active.last().name;
        assert forall|n: Seq<char>| sa_named(active, n) <==> sa_named(d, n) || n == ln by {
            if sa_named(active, n) {
                let j = choose|j: int| 0 <= j < active.len() && (#[trigger] active[j]).name == n;
                if j < active.len() - 1 {
                    assert(d[j] == active[j]);
                }
            }
            if sa_named(d, n) {
                let j = choose|j: int| 0 <= j < d.len() && (#[trigger] d[j]).name == n;
                assert(active[j] == d[j]);
            }
            if n == ln {
                assert(active[active.len() - 1].name == n);
            }
        }
        if !p.contains(ln) {
            assert forall|n: Seq<char>| #[trigger] p.push(ln).contains(n) <==> p.contains(n) || n == ln by {
                if p.push(ln).contains(n) {
                    let k = choose|k: int| 0 <= k < p.push(ln).len() && p.push(ln)[k] == n;
                    if k < p.len() {
                        assert(p[k] == n);
                    }
                }
                if p.contains(n) {
                    let k = choose|k: int| 0 <= k < p.len() && p[k] == n;
                    assert(p.push(ln)[k] == n);
                }
                if n == ln {
                    assert(p.push(ln)[p.len() as int] == n);
                }
            }
            assert forall|a: int, b: int| 0 <= a < p.push(ln).len() && 0 <= b < p.push(ln).len() && a != b implies p.push(ln)[a] != p.push(ln)[b] by {
                if a < p.len() && b < p.len() {
                } else if a < p.len() {
                    assert(p.contains(p[a]));
                } else if b < p.len() {
                    assert(p.contains(p[b]));
                }
            }
        }
    }
}

proof fn lemma_names_not_in(names: Seq<Seq<char>>, excluded: Seq<Seq<char>>)
    requires
        names.no_duplicates(),
    ensures
        forall|n: Seq<char>| #[trigger] crate::engine::names_not_in(names, excluded).contains(n) <==> names.contains(n) && !excluded.contains(n),
        crate::engine::names_not_in(names, excluded).no_duplicates(),
    decreases names.len(),
{
    if names.len() > 0 {
        let d = names.drop_last();
        let ln = names.last();
        assert forall|a: int, b: int| 0 <= a < d.len() && 0 <= b < d.len() && a != b implies d[a] != d[b] by {
            assert(d[a] == names[a] && d[b] == names[b]);
        }
        lemma_names_not_in(d, excluded);
        let p = crate::engine::names_not_in(d, excluded);
        assert forall|n: Seq<char>| names.contains(n) <==> d.contains(n) || n == ln by {
            if names.contains(n) {
                let k = choose|k: int| 0 <= k < names.len() && names[k] == n;
                if k < names.len() - 1 {
                    assert(d[k] == n);
                }
            }
            if d.contains(n) {
                let k = choose|k: int| 0 <= k < d.len() && d[k] == n;
                assert(names[k] == n);
            }
            if n == ln {
                assert(names[names.len() - 1] == n);
            }
        }
        assert(!d.contains(ln)) by {
            if d.contains(ln) {
                let k = choose|k: int| 0 <= k < d.len() && d[k] == ln;
                assert(names[k] == names[names.len() - 1]);
            }
        }
        if !excluded.contains(ln) {
            assert(!p.contains(ln));
            assert forall|n: Seq<char>| #[trigger] p.push(ln).contains(n) <==> p.contains(n) || n == ln by {
                if p.push(ln).contains(n) {
                    let k = choose|k: int| 0 <= k < p.push(ln).len() && p.push(ln)[k] == n;
                    if k < p.len() {
                        assert(p[k] == n);
                    }
                }
                if p.contains(n) {
                    let k = choose|k: int| 0 <= k < p.len() && p[k] == n;
                    assert(p.push(ln)[k] == n);
                }
                if n == ln {
                    assert(p.push(ln)[p.len() as int] == n);
                }
            }
            assert forall|a: int, b: int| 0 <= a < p.push(ln).len() && 0 <= b < p.push(ln).len() && a != b implies p.push(ln)[a] != p.push(ln)[b] by {
                if a < p.len() && b < p.len() {
                } else if a < p.len() {
                    assert(p.contains(p[a]));
                } else if b < p.len() {
                    assert(p.contains(p[b]));
                }
            }
        }
    }
}

/// The nodes that follow those of the configured connections are those of the
/// active SAs that no configured connection names: each is named after such an SA,
/// every such name has exactly one, and its address and its link's status are
/// those of the last SA of that name.
pub proof fn law_unconfigured_sa_nodes(configured: Seq<ConnModel>, active: Seq<SaModel>)
    ensures
        ({
            let t = strongswan_topology(configured, active);
            let c = configured.len();
            &&& t.nodes.len() == t.edges.len() + 1
            &&& c <= t.edges.len()
            &&& forall|m: int|
                #![trigger t.nodes[m + 1]]
                c <= m < t.edges.len() ==> sa_named(active, t.nodes[m + 1].name) && !configured_named(configured, t.nodes[m + 1].name)
                    && t.edges[m].to_node == t.nodes[m + 1].id && forall|k: int|
                    #![trigger active[k]]
                    0 <= k < active.len() && active[k].name == t.nodes[m + 1].name && (forall|j: int|
                        k < j < active.len() ==> (#[trigger] active[j]).name != active[k].name) ==> t.nodes[m + 1].address
                        == active[k].remote_addr && t.edges[m].status == status_of_state(active[k].state)
            &&& forall|j: int|
                #![trigger active[j]]
                0 <= j < active.len() && !configured_named(configured, active[j].name) ==> exists|m: int|
                    c <= m < t.edges.len() && (#[trigger] t.nodes[m + 1]).name == active[j].name
            &&& forall|a: int, b: int|
                c <= a < t.edges.len() && c <= b < t.edges.len() && a != b ==> (#[trigger] t.nodes[a + 1]).name != (
                #[trigger] t.nodes[b + 1]).name
        }),
{
    let t = strongswan_topology(configured, active);
    let c = configured.len() as int;
    let x = crate::engine::extra_names(configured, active);
    let cn = crate::engine::conf_names(configured);
    lemma_distinct_names(active);
    lemma_names_not_in(crate::engine::distinct_names(active), cn);
    let node_of = |n: Seq<char>| crate::engine::peer_node(n, crate::engine::link_address(active, n, None));
    let nodes_conf = configured.map_values(
        |cc: ConnModel| crate::engine::peer_node(cc.name, crate::engine::link_address(active, cc.name, cc.remote_hint)),
    );
    assert(t.nodes == seq![gateway_node()] + nodes_conf + x.map_values(node_of));
    assert forall|n: Seq<char>| cn.contains(n) <==> configured_named(configured, n) by {
        if cn.contains(n) {
            let k = choose|k: int| 0 <= k < cn.len() && cn[k] == n;
            assert(configured[k].name == n);
        }
        if configured_named(configured, n) {
            let k = choose|k: int| 0 <= k < configured.len() && (#[trigger] configured[k]).name == n;
            assert(cn[k] == n);
        }
    }
    assert forall|m: int| c <= m < t.edges.len() implies #[trigger] t.nodes[m + 1] == node_of(x[m - c]) && t.edges[m]
        == crate::engine::peer_edge(x[m - c], crate::engine::link_status(active, x[m - c])) by {
        assert(t.nodes[m + 1] == (seq![gateway_node()] + nodes_conf + x.map_values(node_of))[m + 1]);
    }
    assert forall|m: int|
        #![trigger t.nodes[m + 1]]
        c <= m < t.edges.len() implies sa_named(active, t.nodes[m + 1].name) && !configured_named(configured, t.nodes[m + 1].name)
            && t.edges[m].to_node == t.nodes[m + 1].id && forall|k: int|
            #![trigger active[k]]
            0 <= k < active.len() && active[k].name == t.nodes[m + 1].name && (forall|j: int|
                k < j < active.len() ==> (#[trigger] active[j]).name != active[k].name) ==> t.nodes[m + 1].address
                == active[k].remote_addr && t.edges[m].status == status_of_state(active[k].state) by {
        let n = x[m - c];
        assert(x.contains(n));
        assert forall|k: int|
            #![trigger active[k]]
            0 <= k < active.len() && active[k].name == n && (forall|j: int|
                k < j < active.len() ==> (#[trigger] active[j]).name != active[k].name) implies t.nodes[m + 1].address
                == active[k].remote_addr && t.edges[m].status == status_of_state(active[k].state) by {
            lemma_last_sa_named(active, n, k);
        }
    }
    assert forall|j: int|
        #![trigger active[j]]
        0 <= j < active.len() && !configured_named(configured, active[j].name) implies exists|m: int|
            c <= m < t.edges.len() && (#[trigger] t.nodes[m + 1]).name == active[j].name by {
        let n = active[j].name;
        assert(sa_named(active, n));
        assert(crate::engine::distinct_names(active).contains(n));
        assert(x.contains(n));
        let q = choose|q: int| 0 <= q < x.len() && x[q] == n;
        assert(t.nodes[q + c + 1].name == n);
    }
    assert forall|a: int, b: int|
        c <= a < t.edges.len() && c <= b < t.edges.len() && a != b implies (#[trigger] t.nodes[a + 1]).name != (
        #[trigger] t.nodes[b + 1]).name by {
        assert(x[a - c] != x[b - c]);
    }
}

/// The name given by the last header line of `ls`, if any.
pub open spec fn last_header(ls: Seq<Seq<char>>) -> Option<Seq<char>>
    decreases ls.len(),
{
    if ls.len() == 0 {
        None
    } else if is_sa_header(ls.last()) {
        Some(crate::peers::ike_header(trim(ls.last())).0)
    } else {
        last_header(ls.drop_last())
    }
}

/// The CHILD SAs that the lines of `ls` describe, in order: each line that is not
/// blank and not a header, that follows a header, and that reads as a CHILD SA of
/// the peer that header names.
pub open spec fn child_stream(ls: Seq<Seq<char>>) -> Seq<crate::peers::ChildModel>
    decreases ls.len(),
{
    if ls.len() == 0 {
        seq![]
    } else {
        let t = trim(ls.last());
        let p = child_stream(ls.drop_last());
        if t.len() > 0 && !is_sa_header(ls.last()) && last_header(ls.drop_last()) is Some && crate::peers::child_line(
            t,
            last_header(ls.drop_last())->0,
        ) is Some {
            p.push(crate::peers::child_line(t, last_header(ls.drop_last())->0)->0)
        } else {
            p
        }
    }
}

/// The CHILD SAs of the peers, one peer after the other.
pub open spec fn all_children(peers: Seq<crate::peers::PeerModel>) -> Seq<crate::peers::ChildModel>
    decreases peers.len(),
{
    if peers.len() == 0 {
        seq![]
    } else {
        all_children(peers.drop_last()) + peers.last().child_sas
    }
}

pub open spec fn open_children(st: crate::peers::PeersState) -> Seq<crate::peers::ChildModel> {
    match st.cur {
        Some(p) => all_children(st.peers) + p.child_sas,
        None => all_children(st.peers),
    }
}

proof fn lemma_all_children_push(peers: Seq<crate::peers::PeerModel>, p: crate::peers::PeerModel)
    ensures
        all_children(peers.push(p)) == all_children(peers) + p.child_sas,
{
    assert(peers.push(p).drop_last() =~= peers);
}

proof fn lemma_fold_children(ls: Seq<Seq<char>>)
    ensures
        open_children(crate::peers::peers_fold(ls)) == child_stream(ls),
        match crate::peers::peers_fold(ls).cur {
            Some(p) => last_header(ls) == Some(p.peer_name),
            None => last_header(ls) is None,
        },
    decreases ls.len(),
{
    reveal_strlit(": #");
    if ls.len() > 0 {
        lemma_fold_children(ls.drop_last());
        let st = crate::peers::peers_fold(ls.drop_last());
        let raw = ls.last();
        let t = trim(raw);
        if t.len() == 0 {
            assert(!crate::text::occurs_at(t, ": #"@, 0));
            assert(!crate::text::contains(t, ": #"@));
        } else if crate::engine::is_top_level(raw) && crate::text::contains(t, ": #"@) {
            if let Some(p) = st.cur {
                lemma_all_children_push(st.peers, p);
                assert(all_children(st.peers.push(p)) + Seq::<crate::peers::ChildModel>::empty() =~= all_children(st.peers) + p.child_sas);
            } else {
                assert(all_children(st.peers) + Seq::<crate::peers::ChildModel>::empty() =~= all_children(st.peers));
            }
        } else {
            if let Some(p) = st.cur {
                if let Some(c) = crate::peers::child_line(t, p.peer_name) {
                    assert(all_children(st.peers) + p.child_sas.push(c) =~= (all_children(st.peers) + p.child_sas).push(c));
                }
            }
        }
    }
}

/// The CHILD SAs of the peers read from `swanctl --list-sas` output, one peer after
/// the other, are those its lines describe, in order: every line after a header
/// that reads as a CHILD SA of the peer that header names, and no other.
pub proof fn law_child_sas_follow_their_lines(output: Seq<char>)
    ensures
        all_children(crate::peers::runtime_statuses(output)) == child_stream(lines(output)),
{
    lemma_fold_children(lines(output));
    let st = crate::peers::peers_fold(lines(output));
    if let Some(p) = st.cur {
        lemma_all_children_push(st.peers, p);
    }
}

/// How a peer request answers the end of a run: a program that could not run
/// answers 500 with the internal error code and its error; a run that exited with
/// another status than 0 answers 400 with the IKE failure code after the IKE run and
/// the CHILD failure code otherwise, with the error output when there is any; an
/// IKE run that exited with 0 goes on, half a second later, to `--initiate --child`
/// of the same peer unless phase 1 alone was asked; any other run that exited with
/// 0 answers 200 with success.
pub proof fn law_peer_request_outcomes(
    stage: PeerStage,
    name: Seq<char>,
    phase: Option<u8>,
    exited: bool,
    status_code: Option<i32>,
    text: Seq<char>,
)
    requires
        stage != PeerStage::Finished,
    ensures
        ({
            let next = step_model(stage, name, phase, exited, status_code, text);
            &&& !exited ==> next == (
                PeerStage::Finished,
                PeerActionModel::Reply { status: 500, code: crate::i18n::CODE_INTERNAL_ERROR, success: false, detail: Some(text) },
            )
            &&& exited && status_code != Some(0i32) ==> next == (
                PeerStage::Finished,
                PeerActionModel::Reply {
                    status: 400,
                    code: if stage == PeerStage::Ike {
                        crate::i18n::CODE_PEER_IKE_FAILED
                    } else {
                        crate::i18n::CODE_PEER_CHILD_FAILED
                    },
                    success: false,
                    detail: if text.len() == 0 {
                        None
                    } else {
                        Some(text)
                    },
                },
            )
            &&& exited && status_code == Some(0i32) && stage == PeerStage::Ike && phase != Some(1u8) ==> next == (
                PeerStage::Child,
                PeerActionModel::Run { pause_ms: 500, args: seq!["--initiate"@, "--child"@, name], timeout_secs: 20 },
            )
            &&& exited && status_code == Some(0i32) && (stage != PeerStage::Ike || phase == Some(1u8)) ==> next == (
                PeerStage::Finished,
                PeerActionModel::Reply { status: 200, code: crate::i18n::CODE_OK, success: true, detail: None },
            )
        }),
{
}

/// A line of `swanctl` output that opens a block: not indented, not blank, with `:`.
pub open spec fn is_block_header(raw: Seq<char>) -> bool {
    crate::engine::is_top_level(raw) && trim(raw).len() > 0 && has_char(trim(raw), ':')
}

/// The names of the blocks that the lines of `ls` open, in order: the text before
/// the first `:` of each header line, trimmed, when it is not empty.
pub open spec fn block_names(ls: Seq<Seq<char>>) -> Seq<Seq<char>>
    decreases ls.len(),
{
    if ls.len() == 0 {
        seq![]
    } else if is_block_header(ls.last()) && crate::engine::header_name(trim(ls.last())).len() > 0 {
        block_names(ls.drop_last()).push(crate::engine::header_name(trim(ls.last())))
    } else {
        block_names(ls.drop_last())
    }
}

pub open spec fn conn_names_open(st: crate::engine::ConfState) -> Seq<Seq<char>> {
    let ns = st.conns.map_values(|c: ConnModel| c.name);
    match st.name {
        Some(n) => ns.push(n),
        None => ns,
    }
}

proof fn lemma_conf_fold_names(ls: Seq<Seq<char>>)
    ensures
        conn_names_open(crate::engine::conf_fold(ls)) == block_names(ls),
    decreases ls.len(),
{
    if ls.len() > 0 {
        lemma_conf_fold_names(ls.drop_last());
        let st = crate::engine::conf_fold(ls.drop_last());
        if let Some(n) = st.name {
            let c = ConnModel { name: n, remote_hint: st.remote };
            assert(st.conns.push(c).map_values(|c: ConnModel| c.name) =~= st.conns.map_values(|c: ConnModel| c.name).push(n));
        }
    }
}

/// The connections read from `swanctl --list-conns` output are the blocks it opens:
/// one for each header line with a name, in order, named by it.
pub proof fn law_connections_follow_their_headers(output: Seq<char>)
    ensures
        crate::engine::configured_connections(output).map_values(|c: ConnModel| c.name) == block_names(lines(output)),
{
    lemma_conf_fold_names(lines(output));
    let st = crate::engine::conf_fold(lines(output));
    if let Some(n) = st.name {
        let c = ConnModel { name: n, remote_hint: st.remote };
        assert(st.conns.push(c).map_values(|c: ConnModel| c.name) =~= st.conns.map_values(|c: ConnModel| c.name).push(n));
    }
}

/// The name and state that each SA header line gives: the text before its first
/// `:`, and the second comma-separated field after it.
pub open spec fn sa_heads(ls: Seq<Seq<char>>) -> Seq<(Seq<char>, Seq<char>)>
    decreases ls.len(),
{
    if ls.len() == 0 {
        seq![]
    } else if is_block_header(ls.last()) && crate::engine::header_name(trim(ls.last())).len() > 0 {
        sa_heads(ls.drop_last()).push(
            (
                crate::engine::header_name(trim(ls.last())),
                crate::engine::sa_state(crate::engine::after_first(trim(ls.last()), ':')),
            ),
        )
    } else {
        sa_heads(ls.drop_last())
    }
}

pub open spec fn sa_pairs(sas: Seq<SaModel>) -> Seq<(Seq<char>, Seq<char>)> {
    sas.map_values(|a: SaModel| (a.name, a.state))
}

pub open spec fn sa_heads_open(st: crate::engine::SaState) -> Seq<(Seq<char>, Seq<char>)> {
    match st.cur {
        Some(c) => sa_pairs(st.result).push(c),
        None => sa_pairs(st.result),
    }
}

proof fn lemma_sa_fold_heads(ls: Seq<Seq<char>>)
    ensures
        sa_heads_open(crate::engine::sa_fold(ls)) == sa_heads(ls),
    decreases ls.len(),
{
    if ls.len() > 0 {
        lemma_sa_fold_heads(ls.drop_last());
        let st = crate::engine::sa_fold(ls.drop_last());
        if let Some(c) = st.cur {
            let a = SaModel { name: c.0, state: c.1, remote_addr: st.remote };
            assert(sa_pairs(st.result.push(a)) =~= sa_pairs(st.result).push(c));
        }
    }
}

/// The SAs read from `swanctl --list-sas` output are the blocks it opens: one for
/// each header line with a name, in order, with that name and the state its header
/// gives.
pub proof fn law_sas_follow_their_headers(output: Seq<char>)
    ensures
        sa_pairs(crate::engine::active_sas(output)) == sa_heads(lines(output)),
{
    lemma_sa_fold_heads(lines(output));
    let st = crate::engine::sa_fold(lines(output));
    if let Some(c) = st.cur {
        let a = SaModel { name: c.0, state: c.1, remote_addr: st.remote };
        assert(sa_pairs(st.result.push(a)) =~= sa_pairs(st.result).push(c));
    }
}

} // verus!
