//! The credential cache: one time-bounded bearer token per site.  A cached
//! token is handed out only while it is less than thirty minutes old; the
//! caller performs the network fetch and hands the response body back.

use vstd::prelude::*;

use crate::{token_fresh, TOKEN_TTL_SECS};
use vstd::pervasive::VecAdditionalExecFns;

verus! {

/// What `parse_token_body` returns for a response body: the token string of
/// its `"utoken"` field, or nothing when the body is not a JSON object with
/// a string there.
pub uninterp spec fn utoken_field(body: Seq<char>) -> Option<Seq<char>>;

/// Relies on `serde_json::from_str`, `Value::get` and `Value::as_str`: the
/// `"utoken"` string field of the JSON body, or nothing.
#[verifier::external_body]
fn parse_token_body(body: &str) -> (r: Option<String>)
    ensures
        r.deep_view() == utoken_field(body@),
{
    match serde_json::from_str::<serde_json::Value>(body) {
        Err(_) => None,
        Ok(v) => match v.get("utoken") {
            None => None,
            Some(t) => match t.as_str() {
                None => None,
                Some(s) => Some(s.to_string()),
            },
        },
    }
}

/// The cached tokens: per site, the token and the second it was fetched.
pub struct TokenCache {
    entries: Vec<(String, String, u64)>,
}

impl TokenCache {
    /// Sites never repeat among the entries.
    pub closed spec fn wf(&self) -> bool {
        forall|i: int, j: int|
            0 <= i < j < self.entries@.len() ==> self.entries@[i].0@ != self.entries@[j].0@
    }

    /// Is some token, fresh or stale, cached for `site`?
    closed spec fn has_site(&self, site: Seq<char>) -> bool {
        exists|i: int| 0 <= i < self.entries@.len() && self.entries@[i].0@ == site
    }

    closed spec fn site_index(&self, site: Seq<char>) -> int {
        choose|i: int| 0 <= i < self.entries@.len() && self.entries@[i].0@ == site
    }
}

impl View for TokenCache {
    type V = Map<Seq<char>, (Seq<char>, u64)>;

    closed spec fn view(&self) -> Map<Seq<char>, (Seq<char>, u64)> {
        Map::new(
            |site: Seq<char>| self.has_site(site),
            |site: Seq<char>|
                (self.entries@[self.site_index(site)].1@, self.entries@[self.site_index(site)].2),
        )
    }
}

impl TokenCache {
    /// An empty cache: no token for any site.
    pub fn new() -> (r: TokenCache)
        ensures
            r.wf(),
            r@ == Map::<Seq<char>, (Seq<char>, u64)>::empty(),
    {
        let r = TokenCache { entries: Vec::new() };
        proof {
            assert(r@ =~= Map::<Seq<char>, (Seq<char>, u64)>::empty());
        }
        r
    }

    /// The cached token for `site`, provided it was fetched less than
    /// thirty minutes before `now`; nothing when the site is unknown or its
    /// token is stale, and the caller must then fetch a fresh one.
    pub fn lookup(&self, site: &String, now: u64) -> (r: Option<String>)
        requires
            self.wf(),
        ensures
            match r {
                Some(t) => self@.contains_key(site@) && token_fresh(self@[site@].1, now) && t@
                    == self@[site@].0,
                None => !(self@.contains_key(site@) && token_fresh(self@[site@].1, now)),
            },
    {
        let n = self.entries.len();
        let mut j: usize = 0;
        while j < n
            invariant
                self.wf(),
                n == self.entries@.len(),
                j <= n,
                forall|m: int| 0 <= m < j ==> self.entries@[m].0@ != site@,
            decreases n - j,
        {
            if self.entries[j].0 == *site {
                proof {
                    assert(self.has_site(site@));
                    assert(self.site_index(site@) == j as int);
                }
                let fetched = self.entries[j].2;
                if fetched <= now && now - fetched < TOKEN_TTL_SECS {
                    return Some(self.entries[j].1.clone());
                } else {
                    return None;
                }
            }
            j += 1;
        }
        proof {
            if self.has_site(site@) {
                let w = self.site_index(site@);
                assert(self.entries@[w].0@ == site@);
            }
        }
        None
    }

    /// Stores a token for `site`, fetched at `now`; an earlier token for
    /// the site is replaced.
    pub fn store(&mut self, site: &String, token: &String, now: u64)
        requires
            old(self).wf(),
        ensures
            final(self).wf(),
            final(self)@ == old(self)@.insert(site@, (token@, now)),
    {
        let ghost oldentries = self.entries@;
        let n = self.entries.len();
        let mut j: usize = 0;
        while j < n
            invariant
                self.wf(),
                self.entries@ == oldentries,
                old(self).entries@ == oldentries,
                n == self.entries@.len(),
                j <= n,
                forall|m: int| 0 <= m < j ==> self.entries@[m].0@ != site@,
            decreases n - j,
        {
            if self.entries[j].0 == *site {
                self.entries.set(j, (site.clone(), token.clone(), now));
                proof {
                    assert(oldentries[j as int].0@ == site@);
                    assert(self.entries@[j as int].0@ == site@);
                    assert(self.wf());
                    assert forall|s: Seq<char>| true implies #[trigger] self.has_site(s)
                        == old(self).has_site(s) by {
                        if old(self).has_site(s) {
                            let w = choose|w: int|
                                0 <= w < oldentries.len() && oldentries[w].0@ == s;
                            if w == j as int {
                                assert(self.entries@[j as int].0@ == s);
                            } else {
                                assert(self.entries@[w] == oldentries[w]);
                                assert(self.entries@[w].0@ == s);
                            }
                        }
                        if self.has_site(s) {
                            let w = choose|w: int|
                                0 <= w < self.entries@.len() && self.entries@[w].0@ == s;
                            if w == j as int {
                                assert(oldentries[j as int].0@ == s);
                            } else {
                                assert(oldentries[w].0@ == s);
                            }
                        }
                    }
                    assert forall|s: Seq<char>| self.has_site(s) && s != site@ implies
                        self.site_index(s) == old(self).site_index(s) && self.entries@[
                        self.site_index(s)] == oldentries[old(self).site_index(s)] by {
                        let w = self.site_index(s);
                        assert(self.entries@[w].0@ == s);
                        let w0 = old(self).site_index(s);
                        assert(oldentries[w0].0@ == s);
                        if w != j as int {
                            assert(self.entries@[w] == oldentries[w]);
                        }
                        if w0 != w {
                            if w0 != j as int && w != j as int {
                                assert(oldentries[w0].0@ == oldentries[w].0@);
                            }
                        }
                    }
                    assert(self.site_index(site@) == j as int);
                    assert(self@ =~= old(self)@.insert(site@, (token@, now)));
                }
                return ;
            }
            j += 1;
        }
        self.entries.push((site.clone(), token.clone(), now));
        proof {
            let kn = oldentries.len() as int;
            assert(self.entries@ == oldentries.push(self.entries@[kn]));
            assert(self.wf());
            assert(self.entries@[kn].0@ == site@);
            assert(self.site_index(site@) == kn);
            assert forall|s: Seq<char>| self.has_site(s) && s != site@ implies old(
                self,
            ).has_site(s) && self.site_index(s) == old(self).site_index(s) by {
                let w = self.site_index(s);
                assert(self.entries@[w].0@ == s);
                assert(w != kn);
                assert(oldentries[w].0@ == s);
                let w0 = old(self).site_index(s);
                assert(oldentries[w0].0@ == s);
                if w0 != w {
                    assert(self.entries@[w0].0@ == s);
                }
            }
            assert forall|s: Seq<char>| old(self).has_site(s) implies self.has_site(s) by {
                let w = old(self).site_index(s);
                assert(oldentries[w].0@ == s);
                assert(self.entries@[w].0@ == s);
            }
            assert(self@ =~= old(self)@.insert(site@, (token@, now)));
        }
    }

    /// Digests one credential-fetch outcome: a body whose `"utoken"` field
    /// parses is stored for `site` at `now` and returned; any failure
    /// (no body, or no token in it) changes nothing and returns nothing,
    /// and the caller must abort this submission cycle.
    pub fn accept_fetch(&mut self, site: &String, body: Option<String>, now: u64) -> (r: Option<
        String,
    >)
        requires
            old(self).wf(),
        ensures
            final(self).wf(),
            match body {
                None => r is None && final(self)@ == old(self)@,
                Some(b) => match utoken_field(b@) {
                    None => r is None && final(self)@ == old(self)@,
                    Some(t) => r is Some && r->Some_0@ == t && final(self)@ == old(self)@.insert(
                        site@,
                        (t, now),
                    ),
                },
            },
    {
        match body {
            None => None,
            Some(b) => match parse_token_body(b.as_str()) {
                None => None,
                Some(token) => {
                    self.store(site, &token, now);
                    Some(token)
                },
            },
        }
    }
}

/// A token stored at second `t` is still handed out twenty-nine minutes
/// later, and no longer handed out thirty-one minutes later: by then a
/// fresh fetch is forced.
pub proof fn lemma_token_freshness(
    m: Map<Seq<char>, (Seq<char>, u64)>,
    site: Seq<char>,
    token: Seq<char>,
    t: u64,
)
    requires
        t + 31 * 60 <= u64::MAX,
    ensures
        m.insert(site, (token, t)).contains_key(site),
        m.insert(site, (token, t))[site] == (token, t),
        token_fresh(t, (t + 29 * 60) as u64),
        !token_fresh(t, (t + 31 * 60) as u64),
{
}

} // verus!
