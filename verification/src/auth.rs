//! Claims of the JSON web tokens issued to API clients.
use vstd::prelude::*;

use crate::text::{chars_eq, str_chars};

verus! {

#[derive(Debug, Clone)]
pub struct JwtClaims {
    pub sub: String,
    pub scopes: Vec<String>,
    pub exp: usize,
}

pub open spec fn has_scope_spec(scopes: Seq<Seq<char>>, required: Seq<char>) -> bool {
    scopes.contains("*"@) || scopes.contains(required)
}

impl JwtClaims {
    pub open spec fn scope_views(&self) -> Seq<Seq<char>> {
        self.scopes@.map_values(|s: String| s@)
    }

    /// The claims grant `required`: they hold it, or the wildcard scope `*`.
    pub fn has_scope(&self, required: &str) -> (b: bool)
        ensures
            b == has_scope_spec(self.scope_views(), required@),
    {
        let star = str_chars("*");
        let req = str_chars(required);
        let mut any_star = false;
        let mut any_req = false;
        let mut i: usize = 0;
        while i < self.scopes.len()
            invariant
                i <= self.scopes.len(),
                star@ == "*"@,
                req@ == required@,
                any_star == self.scope_views().take(i as int).contains("*"@),
                any_req == self.scope_views().take(i as int).contains(required@),
            decreases self.scopes.len() - i,
        {
            let s = str_chars(self.scopes[i].as_str());
            let ghost t = self.scope_views().take(i + 1);
            assert(t =~= self.scope_views().take(i as int).push(s@));
            assert(forall|x: Seq<char>| t.contains(x) <==> (self.scope_views().take(i as int).contains(x) || x == s@)) by {
                assert forall|x: Seq<char>| t.contains(x) implies (self.scope_views().take(i as int).contains(x) || x == s@) by {
                    let k = choose|k: int| 0 <= k < t.len() && t[k] == x;
                    if k < i {
                        assert(self.scope_views().take(i as int)[k] == x);
                    }
                }
                assert forall|x: Seq<char>| self.scope_views().take(i as int).contains(x) implies t.contains(x) by {
                    let k = choose|k: int| 0 <= k < i && self.scope_views().take(i as int)[k] == x;
                    assert(t[k] == x);
                }
                assert(t[i as int] == s@);
            }
            if chars_eq(&s, &star) {
                any_star = true;
            }
            if chars_eq(&s, &req) {
                any_req = true;
            }
            i += 1;
        }
        assert(self.scope_views().take(self.scopes.len() as int) =~= self.scope_views());
        any_star || any_req
    }
}

} // verus!
