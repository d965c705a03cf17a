//! The names of the connections, secrets and certificates that the service
//! manages, read back from the names of their files.
use vstd::prelude::*;

use crate::connections::string_views;
use crate::text::{
    chars_to_string, ends_with, ends_with_str, starts_with, starts_with_str, str_chars,
    strip_prefix_all, strip_prefix_all_chars, strip_suffix_all, strip_suffix_all_chars, views,
};

verus! {

broadcast use vstd::seq_lib::to_multiset_insert;

/// `a` comes strictly before `b` in the order of Rust's strings: by code points,
/// a proper prefix first.
pub open spec fn lex_lt(a: Seq<char>, b: Seq<char>) -> bool
    decreases a.len(),
{
    if a.len() == 0 {
        b.len() > 0
    } else if b.len() == 0 {
        false
    } else if a[0] != b[0] {
        (a[0] as int) < (b[0] as int)
    } else {
        lex_lt(a.drop_first(), b.drop_first())
    }
}

pub proof fn lemma_lex_lt_asym(a: Seq<char>, b: Seq<char>)
    ensures
        lex_lt(a, b) ==> !lex_lt(b, a),
    decreases a.len(),
{
    if a.len() > 0 && b.len() > 0 && a[0] == b[0] {
        lemma_lex_lt_asym(a.drop_first(), b.drop_first());
    }
}

/// No name comes before the one preceding it.
pub open spec fn ascending(s: Seq<Seq<char>>) -> bool {
    forall|i: int| 0 <= i < s.len() - 1 ==> !lex_lt(#[trigger] s[i + 1], s[i])
}

pub fn lex_less_chars(a: &Vec<char>, b: &Vec<char>) -> (r: bool)
    ensures
        r == lex_lt(a@, b@),
{
    let mut i: usize = 0;
    assert(a@.skip(0) =~= a@);
    assert(b@.skip(0) =~= b@);
    while i < a.len() && i < b.len() && a[i] == b[i]
        invariant
            i <= a.len(),
            i <= b.len(),
            lex_lt(a@, b@) == lex_lt(a@.skip(i as int), b@.skip(i as int)),
        decreases a.len() - i,
    {
        assert(a@.skip(i as int).drop_first() =~= a@.skip(i + 1));
        assert(b@.skip(i as int).drop_first() =~= b@.skip(i + 1));
        assert(a@.skip(i as int)[0] == a@[i as int]);
        assert(b@.skip(i as int)[0] == b@[i as int]);
        i += 1;
    }
    if i == a.len() {
        i < b.len()
    } else if i == b.len() {
        false
    } else {
        assert(a@.skip(i as int)[0] == a@[i as int]);
        assert(b@.skip(i as int)[0] == b@[i as int]);
        a[i] < b[i]
    }
}

/// The name a file stands for, when its name has the prefix and the suffix: what
/// is left once every leading prefix and trailing suffix is removed.
pub open spec fn managed_name(file: Seq<char>, prefix: Seq<char>, suffix: Seq<char>) -> Option<Seq<char>> {
    if starts_with(file, prefix) && ends_with(file, suffix) {
        Some(strip_suffix_all(strip_prefix_all(file, prefix), suffix))
    } else {
        None
    }
}

/// The names that the files stand for, in the order of the files.
pub open spec fn managed_in(files: Seq<Seq<char>>, prefix: Seq<char>, suffix: Seq<char>) -> Seq<Seq<char>>
    decreases files.len(),
{
    if files.len() == 0 {
        seq![]
    } else {
        let p = managed_in(files.drop_last(), prefix, suffix);
        match managed_name(files.last(), prefix, suffix) {
            Some(n) => p.push(n),
            None => p,
        }
    }
}

fn insert_sorted(v: &mut Vec<Vec<char>>, x: Vec<char>)
    requires
        ascending(views(old(v)@)),
    ensures
        ascending(views(final(v)@)),
        views(final(v)@).to_multiset() == views(old(v)@).to_multiset().insert(x@),
{
    let ghost xv = x@;
    let ghost o = views(v@);
    let mut p: usize = 0;
    let mut found = false;
    while p < v.len() && !found
        invariant
            p <= v.len(),
            v@ == old(v)@,
            o == views(v@),
            ascending(o),
            p > 0 ==> !lex_lt(xv, o[p - 1]),
            found ==> p < v.len() && lex_lt(xv, o[p as int]),
            xv == x@,
        decreases v.len() - p + (if found { 0int } else { 1int }),
    {
        assert(o[p as int] == v@[p as int]@);
        if lex_less_chars(&x, &v[p]) {
            found = true;
        } else {
            p += 1;
        }
    }
    proof {
        if p < v.len() {
            lemma_lex_lt_asym(xv, o[p as int]);
        }
    }
    v.insert(p, x);
    assert(views(v@) =~= o.insert(p as int, xv));
    assert forall|i: int| 0 <= i < views(v@).len() - 1 implies !lex_lt(#[trigger] views(v@)[i + 1], views(v@)[i]) by {
        if i + 1 < p {
            assert(views(v@)[i + 1] == o[i + 1]);
            assert(views(v@)[i] == o[i]);
            assert(!lex_lt(o[i + 1], o[i]));
        } else if i + 1 == p {
            assert(views(v@)[i] == o[i]);
            assert(views(v@)[i + 1] == xv);
        } else if i == p {
            assert(views(v@)[i] == xv);
            assert(views(v@)[i + 1] == o[i]);
            assert(found);
        } else {
            assert(views(v@)[i + 1] == o[i]);
            assert(views(v@)[i] == o[i - 1]);
            assert(!lex_lt(o[(i - 1) + 1], o[i - 1]));
        }
    }
}

/// The names that the files stand for (see `managed_name`), in ascending order.
pub fn managed_names(file_names: &Vec<String>, prefix: &str, suffix: &str) -> (r: Vec<String>)
    ensures
        ascending(r@.map_values(|s: String| s@)),
        r@.map_values(|s: String| s@).to_multiset() == managed_in(
            file_names@.map_values(|s: String| s@),
            prefix@,
            suffix@,
        ).to_multiset(),
{
    let ghost fv = file_names@.map_values(|s: String| s@);
    let p = str_chars(prefix);
    let s = str_chars(suffix);
    let mut acc: Vec<Vec<char>> = Vec::new();
    let mut i: usize = 0;
    assert(fv.take(0) =~= Seq::<Seq<char>>::empty());
    assert(views(acc@) =~= managed_in(fv.take(0), prefix@, suffix@));
    while i < file_names.len()
        invariant
            i <= file_names.len(),
            fv == file_names@.map_values(|s: String| s@),
            p@ == prefix@,
            s@ == suffix@,
            ascending(views(acc@)),
            views(acc@).to_multiset() == managed_in(fv.take(i as int), prefix@, suffix@).to_multiset(),
        decreases file_names.len() - i,
    {
        assert(fv.take(i + 1).drop_last() =~= fv.take(i as int));
        assert(fv.take(i + 1).last() == file_names@[i as int]@);
        let f = str_chars(file_names[i].as_str());
        if starts_with_str(&f, prefix) && ends_with_str(&f, suffix) {
            let name = strip_suffix_all_chars(&strip_prefix_all_chars(&f, &p), &s);
            let ghost m = managed_in(fv.take(i as int), prefix@, suffix@);
            insert_sorted(&mut acc, name);
            proof {
                vstd::seq_lib::to_multiset_build(m, name@);
            }
        }
        i += 1;
    }
    assert(fv.take(file_names.len() as int) =~= fv);
    let mut r: Vec<String> = Vec::new();
    let mut k: usize = 0;
    while k < acc.len()
        invariant
            k <= acc.len(),
            string_views(r@) == views(acc@).take(k as int),
        decreases acc.len() - k,
    {
        let ghost o = r@;
        r.push(chars_to_string(&acc[k]));
        assert(string_views(r@) =~= string_views(o).push(acc@[k as int]@));
        assert(views(acc@).take(k + 1) =~= views(acc@).take(k as int).push(acc@[k as int]@));
        k += 1;
    }
    assert(views(acc@).take(acc.len() as int) =~= views(acc@));
    r
}

/// The kinds of managed files.
#[derive(Debug, Clone, Copy, PartialEq, Eq, Structural)]
pub enum ManagedKind {
    Connection,
    Secret,
    CaCertificate,
    UserCertificate,
}

/// Where the files of a kind live, and the prefix and suffix of their names.
pub fn managed_location(kind: ManagedKind) -> (r: (&'static str, &'static str, &'static str))
    ensures
        kind == ManagedKind::Connection ==> r.0@ == "/etc/swanctl/conf.d"@ && r.1@ == "bifrost-"@ && r.2@ == ".conf"@,
        kind == ManagedKind::Secret ==> r.0@ == "/etc/swanctl/conf.d"@ && r.1@ == "bifrost-secret-"@ && r.2@ == ".conf"@,
        kind == ManagedKind::CaCertificate ==> r.0@ == "/etc/swanctl/x509ca"@ && r.1@ == "bifrost-ca-"@ && r.2@ == ".crt"@,
        kind == ManagedKind::UserCertificate ==> r.0@ == "/etc/swanctl/x509"@ && r.1@ == "bifrost-user-"@ && r.2@ == ".crt"@,
{
    match kind {
        ManagedKind::Connection => ("/etc/swanctl/conf.d", "bifrost-", ".conf"),
        ManagedKind::Secret => ("/etc/swanctl/conf.d", "bifrost-secret-", ".conf"),
        ManagedKind::CaCertificate => ("/etc/swanctl/x509ca", "bifrost-ca-", ".crt"),
        ManagedKind::UserCertificate => ("/etc/swanctl/x509", "bifrost-user-", ".crt"),
    }
}


/// Each name comes strictly after the one before it.
pub open spec fn strictly_ascending(s: Seq<Seq<char>>) -> bool {
    forall|i: int| 0 <= i < s.len() - 1 ==> lex_lt(#[trigger] s[i], s[i + 1])
}

proof fn lemma_lex_lt_irrefl(a: Seq<char>)
    ensures
        !lex_lt(a, a),
    decreases a.len(),
{
    if a.len() > 0 {
        lemma_lex_lt_irrefl(a.drop_first());
    }
}

proof fn lemma_lex_total(a: Seq<char>, b: Seq<char>)
    ensures
        a == b || lex_lt(a, b) || lex_lt(b, a),
    decreases a.len(),
{
    if a.len() > 0 && b.len() > 0 && a[0] == b[0] {
        lemma_lex_total(a.drop_first(), b.drop_first());
        if a.drop_first() == b.drop_first() {
            assert(a =~= seq![a[0]] + a.drop_first());
            assert(b =~= seq![b[0]] + b.drop_first());
        }
    } else if a.len() == 0 && b.len() == 0 {
        assert(a =~= b);
    } else if a.len() > 0 && b.len() > 0 {
        assert((a[0] as int) != (b[0] as int));
    }
}

fn insert_unique(v: &mut Vec<Vec<char>>, x: Vec<char>)
    requires
        strictly_ascending(views(old(v)@)),
    ensures
        strictly_ascending(views(final(v)@)),
        forall|y: Seq<char>| #[trigger] views(final(v)@).contains(y) <==> (views(old(v)@).contains(y) || y == x@),
{
    let ghost xv = x@;
    let ghost o = views(v@);
    let mut p: usize = 0;
    let mut stop = false;
    while p < v.len() && !stop
        invariant
            p <= v.len(),
            v@ == old(v)@,
            o == views(v@),
            strictly_ascending(o),
            p > 0 ==> lex_lt(o[p - 1], xv),
            stop ==> p < v.len() && !lex_lt(o[p as int], xv),
            xv == x@,
        decreases v.len() - p + (if stop { 0int } else { 1int }),
    {
        assert(o[p as int] == v@[p as int]@);
        if lex_less_chars(&v[p], &x) {
            p += 1;
        } else {
            stop = true;
        }
    }
    if p < v.len() {
        assert(o[p as int] == v@[p as int]@);
        if crate::text::chars_eq(&v[p], &x) {
            return;
        }
        proof {
            lemma_lex_total(o[p as int], xv);
        }
    }
    v.insert(p, x);
    assert(views(v@) =~= o.insert(p as int, xv));
    assert forall|i: int| 0 <= i < views(v@).len() - 1 implies lex_lt(#[trigger] views(v@)[i], views(v@)[i + 1]) by {
        if i + 1 < p {
            assert(views(v@)[i + 1] == o[i + 1]);
            assert(views(v@)[i] == o[i]);
        } else if i + 1 == p {
            assert(views(v@)[i] == o[i]);
            assert(views(v@)[i + 1] == xv);
        } else if i == p {
            assert(views(v@)[i] == xv);
            assert(views(v@)[i + 1] == o[i]);
        } else {
            assert(views(v@)[i + 1] == o[i]);
            assert(views(v@)[i] == o[i - 1]);
        }
    }
    assert forall|y: Seq<char>| #[trigger] views(v@).contains(y) <==> (o.contains(y) || y == xv) by {
        if views(v@).contains(y) {
            let k = choose|k: int| 0 <= k < views(v@).len() && #[trigger] views(v@)[k] == y;
            if k < p {
                assert(o[k] == y);
            } else if k > p {
                assert(o[k - 1] == y);
            }
        }
        if o.contains(y) {
            let k = choose|k: int| 0 <= k < o.len() && #[trigger] o[k] == y;
            if k < p {
                assert(views(v@)[k] == y);
            } else {
                assert(views(v@)[k + 1] == y);
            }
        }
        if y == xv {
            assert(views(v@)[p as int] == y);
        }
    }
}

/// The names, sorted and each once (what `sort` then `dedup` leave).
pub fn sorted_unique(names: &Vec<String>) -> (r: Vec<String>)
    ensures
        strictly_ascending(string_views(r@)),
        forall|y: Seq<char>| #[trigger] string_views(r@).contains(y) <==> string_views(names@).contains(y),
{
    let ghost nv = string_views(names@);
    let mut acc: Vec<Vec<char>> = Vec::new();
    let mut i: usize = 0;
    while i < names.len()
        invariant
            i <= names.len(),
            nv == string_views(names@),
            strictly_ascending(views(acc@)),
            forall|y: Seq<char>| #[trigger] views(acc@).contains(y) <==> nv.take(i as int).contains(y),
        decreases names.len() - i,
    {
        let x = str_chars(names[i].as_str());
        insert_unique(&mut acc, x);
        assert forall|y: Seq<char>| #[trigger] views(acc@).contains(y) <==> nv.take(i + 1).contains(y) by {
            assert(nv.take(i + 1) =~= nv.take(i as int).push(nv[i as int]));
            if nv.take(i + 1).contains(y) {
                let k = choose|k: int| 0 <= k < nv.take(i + 1).len() && #[trigger] nv.take(i + 1)[k] == y;
                if k < i {
                    assert(nv.take(i as int)[k] == y);
                }
            }
            if nv.take(i as int).contains(y) {
                let k = choose|k: int| 0 <= k < nv.take(i as int).len() && #[trigger] nv.take(i as int)[k] == y;
                assert(nv.take(i + 1)[k] == y);
            }
            if y == nv[i as int] {
                assert(nv.take(i + 1)[i as int] == y);
            }
        }
        i += 1;
    }
    assert(nv.take(names.len() as int) =~= nv);
    let mut r: Vec<String> = Vec::new();
    let mut k: usize = 0;
    while k < acc.len()
        invariant
            k <= acc.len(),
            string_views(r@) == views(acc@).take(k as int),
        decreases acc.len() - k,
    {
        let ghost o = r@;
        r.push(chars_to_string(&acc[k]));
        assert(string_views(r@) =~= string_views(o).push(acc@[k as int]@));
        assert(views(acc@).take(k + 1) =~= views(acc@).take(k as int).push(acc@[k as int]@));
        k += 1;
    }
    assert(views(acc@).take(acc.len() as int) =~= views(acc@));
    r
}

} // verus!
