//! The deduplicator: at most one delivery per (incident, target code) for
//! the process lifetime.  The set of registered keys only grows.

use vstd::prelude::*;

use crate::types::{ParsedData, Ric, RicV};

verus! {

/// A dedup key: incident foreign id and target code.
pub type DedupKeyV = (Seq<char>, Seq<char>);

/// The keys of every target of a record under incident `nr`.
pub open spec fn rics_keys(nr: Seq<char>, rics: Seq<RicV>) -> Set<DedupKeyV> {
    Set::new(|p: DedupKeyV| exists|i: int| 0 <= i < rics.len() && p == (nr, rics[i].ric))
}

/// The targets of a record that a claim against the registered set `s`
/// lets through: a target survives when its key is neither registered nor
/// claimed by an earlier target of the same record.
pub open spec fn claim_kept(rics: Seq<RicV>, nr: Seq<char>, s: Set<DedupKeyV>) -> Seq<RicV>
    decreases rics.len(),
{
    if rics.len() == 0 {
        Seq::empty()
    } else {
        let front = claim_kept(rics.drop_last(), nr, s);
        let key = (nr, rics.last().ric);
        if s.contains(key) || rics_keys(nr, rics.drop_last()).contains(key) {
            front
        } else {
            front.push(rics.last())
        }
    }
}

/// The registered dedup keys; they persist for the process lifetime.
pub struct DedupSet {
    keys: Vec<(String, String)>,
}

impl View for DedupSet {
    type V = Set<DedupKeyV>;

    closed spec fn view(&self) -> Set<DedupKeyV> {
        Set::new(
            |p: DedupKeyV|
                exists|i: int|
                    0 <= i < self.keys@.len() && (self.keys@[i].0@, self.keys@[i].1@) == p,
        )
    }
}

impl DedupSet {
    /// An empty dedup set: nothing registered yet.
    pub fn new() -> (r: DedupSet)
        ensures
            r@ == Set::<DedupKeyV>::empty(),
    {
        let r = DedupSet { keys: Vec::new() };
        proof {
            assert(r@ =~= Set::<DedupKeyV>::empty());
        }
        r
    }

    /// Is the key (incident, target code) registered?
    fn has_key(&self, nr: &String, code: &String) -> (r: bool)
        ensures
            r == self@.contains((nr@, code@)),
    {
        let n = self.keys.len();
        let mut j: usize = 0;
        while j < n
            invariant
                n == self.keys@.len(),
                j <= n,
                forall|m: int|
                    0 <= m < j ==> (self.keys@[m].0@, self.keys@[m].1@) != (nr@, code@),
            decreases n - j,
        {
            if self.keys[j].0 == *nr && self.keys[j].1 == *code {
                proof {
                    assert((self.keys@[j as int].0@, self.keys@[j as int].1@) == (nr@, code@));
                }
                return true;
            }
            j += 1;
        }
        false
    }

    /// One atomic claim: filters the record's targets down to those whose
    /// key was not yet registered, and registers every key of the record.
    /// Run under mutual exclusion, so that two overlapping claims for the
    /// same incident cannot both let a target through.
    pub fn claim(&mut self, record: &ParsedData) -> (r: Vec<Ric>)
        ensures
            r@.map_values(|x: Ric| x@) == claim_kept(
                record@.rics,
                record@.einsatznrlst,
                old(self)@,
            ),
            final(self)@ == old(self)@.union(
                rics_keys(record@.einsatznrlst, record@.rics),
            ),
    {
        let ghost nr = record@.einsatznrlst;
        let ghost all = record@.rics;
        let n = record.rics.len();
        let mut r: Vec<Ric> = Vec::new();
        let mut i: usize = 0;
        proof {
            assert(self@ =~= old(self)@.union(rics_keys(nr, all.subrange(0, 0))));
        }
        while i < n
            invariant
                n == record.rics@.len(),
                nr == record@.einsatznrlst,
                all == record@.rics,
                i <= n,
                self@ == old(self)@.union(rics_keys(nr, all.subrange(0, i as int))),
                r@.map_values(|x: Ric| x@) == claim_kept(
                    all.subrange(0, i as int),
                    nr,
                    old(self)@,
                ),
            decreases n - i,
        {
            let ghost k: DedupKeyV = (nr, all[i as int].ric);
            let ghost pre = self@;
            proof {
                assert(all.subrange(0, i + 1).drop_last() =~= all.subrange(0, i as int));
                assert(all.subrange(0, i + 1).last() == all[i as int]);
                assert(all[i as int] == record.rics@[i as int]@);
                assert(rics_keys(nr, all.subrange(0, i + 1)) =~= rics_keys(
                    nr,
                    all.subrange(0, i as int),
                ).insert(k)) by {
                    let prefix = all.subrange(0, i as int);
                    let longer = all.subrange(0, i + 1);
                    assert forall|p: DedupKeyV| rics_keys(nr, longer).contains(p) implies
                        rics_keys(nr, prefix).insert(k).contains(p) by {
                        let w = choose|w: int| 0 <= w < longer.len() && p == (nr, longer[w].ric);
                        if w < i {
                            assert(rics_keys(nr, prefix).contains(p));
                        }
                    }
                    assert forall|p: DedupKeyV| rics_keys(nr, prefix).insert(k).contains(p)
                        implies rics_keys(nr, longer).contains(p) by {
                        if rics_keys(nr, prefix).contains(p) {
                            let w = choose|w: int|
                                0 <= w < prefix.len() && p == (nr, prefix[w].ric);
                            assert(p == (nr, longer[w].ric));
                        } else {
                            assert(p == (nr, longer[i as int].ric));
                        }
                    }
                }
            }
            let ghost oldkeys = self.keys@;
            let known = self.has_key(&record.einsatznrlst, &record.rics[i].ric);
            if !known {
                self.keys.push((record.einsatznrlst.clone(), record.rics[i].ric.clone()));
                proof {
                    let kn = oldkeys.len() as int;
                    assert(self.keys@ == oldkeys.push(self.keys@[kn]));
                    assert((self.keys@[kn].0@, self.keys@[kn].1@) == k);
                    assert(self@ =~= pre.insert(k)) by {
                        assert forall|p: DedupKeyV| self@.contains(p) implies pre.insert(
                            k,
                        ).contains(p) by {
                            let w = choose|w: int|
                                0 <= w < self.keys@.len() && (
                                    self.keys@[w].0@,
                                    self.keys@[w].1@,
                                ) == p;
                            if w < kn {
                                assert(pre.contains(p));
                            }
                        }
                        assert forall|p: DedupKeyV| pre.insert(k).contains(p) implies
                            self@.contains(p) by {
                            if pre.contains(p) {
                                let w = choose|w: int|
                                    0 <= w < oldkeys.len() && (oldkeys[w].0@, oldkeys[w].1@)
                                        == p;
                                assert((self.keys@[w].0@, self.keys@[w].1@) == p);
                            } else {
                                assert((self.keys@[kn].0@, self.keys@[kn].1@) == p);
                            }
                        }
                    }
                    assert(self@ =~= old(self)@.union(rics_keys(nr, all.subrange(0, i + 1))));
                }
                let picked = Ric {
                    text: record.rics[i].text.clone(),
                    ric: record.rics[i].ric.clone(),
                    subric: record.rics[i].subric.clone(),
                };
                proof {
                    assert(picked@ =~= all[i as int]);
                }
                r.push(picked);
                proof {
                    assert(!old(self)@.contains(k) && !rics_keys(
                        nr,
                        all.subrange(0, i as int),
                    ).contains(k));
                    assert(r@.map_values(|x: Ric| x@) =~= claim_kept(
                        all.subrange(0, i + 1),
                        nr,
                        old(self)@,
                    ));
                }
            } else {
                proof {
                    assert(pre.contains(k));
                    assert(old(self)@.contains(k) || rics_keys(
                        nr,
                        all.subrange(0, i as int),
                    ).contains(k));
                    assert(claim_kept(all.subrange(0, i + 1), nr, old(self)@) == claim_kept(
                        all.subrange(0, i as int),
                        nr,
                        old(self)@,
                    ));
                    assert(self@ =~= old(self)@.union(rics_keys(nr, all.subrange(0, i + 1))));
                }
            }
            i += 1;
        }
        proof {
            assert(all.subrange(0, n as int) =~= all);
        }
        r
    }
}

/// The registered set only grows: a claim adds keys and never removes one.
pub proof fn lemma_registered_keys_grow(s: Set<DedupKeyV>, nr: Seq<char>, rics: Seq<RicV>)
    ensures
        s.subset_of(s.union(rics_keys(nr, rics))),
{
}

/// Every target a claim lets through has its key among the record's keys.
pub proof fn lemma_claimed_registered(rics: Seq<RicV>, nr: Seq<char>, s: Set<DedupKeyV>)
    ensures
        forall|j: int|
            0 <= j < claim_kept(rics, nr, s).len() ==> rics_keys(nr, rics).contains(
                (nr, claim_kept(rics, nr, s)[j].ric),
            ),
    decreases rics.len(),
{
    if rics.len() > 0 {
        lemma_claimed_registered(rics.drop_last(), nr, s);
        let kept = claim_kept(rics, nr, s);
        let front = claim_kept(rics.drop_last(), nr, s);
        assert forall|j: int| 0 <= j < kept.len() implies rics_keys(nr, rics).contains(
            (nr, kept[j].ric),
        ) by {
            if j < front.len() {
                assert(rics_keys(nr, rics.drop_last()).contains((nr, front[j].ric)));
                let i = choose|i: int|
                    0 <= i < rics.drop_last().len() && (nr, front[j].ric) == (
                        nr,
                        rics.drop_last()[i].ric,
                    );
                assert((nr, kept[j].ric) == (nr, rics[i].ric));
            } else {
                assert(kept[j] == rics.last());
                assert((nr, kept[j].ric) == (nr, rics[rics.len() - 1].ric));
            }
        }
    }
}

/// No target a claim lets through was registered before the claim.
pub proof fn lemma_claimed_is_new(rics: Seq<RicV>, nr: Seq<char>, s: Set<DedupKeyV>)
    ensures
        forall|j: int|
            0 <= j < claim_kept(rics, nr, s).len() ==> !s.contains(
                (nr, claim_kept(rics, nr, s)[j].ric),
            ),
    decreases rics.len(),
{
    if rics.len() > 0 {
        lemma_claimed_is_new(rics.drop_last(), nr, s);
    }
}

/// At most one delivery per incident and target code: when two records for
/// the same incident are claimed one after the other (the second against
/// the state the first left behind), no target code passes both claims,
/// whether or not the two records carry other targets.
pub proof fn lemma_at_most_once(
    s0: Set<DedupKeyV>,
    nr: Seq<char>,
    rics1: Seq<RicV>,
    rics2: Seq<RicV>,
    t: Seq<char>,
)
    ensures
        !({
            let kept1 = claim_kept(rics1, nr, s0);
            let s1 = s0.union(rics_keys(nr, rics1));
            let kept2 = claim_kept(rics2, nr, s1);
            (exists|j: int| 0 <= j < kept1.len() && kept1[j].ric == t) && (exists|j: int|
                0 <= j < kept2.len() && kept2[j].ric == t)
        }),
{
    let kept1 = claim_kept(rics1, nr, s0);
    let s1 = s0.union(rics_keys(nr, rics1));
    let kept2 = claim_kept(rics2, nr, s1);
    if (exists|j: int| 0 <= j < kept1.len() && kept1[j].ric == t) && (exists|j: int|
        0 <= j < kept2.len() && kept2[j].ric == t) {
        let j1 = choose|j: int| 0 <= j < kept1.len() && kept1[j].ric == t;
        let j2 = choose|j: int| 0 <= j < kept2.len() && kept2[j].ric == t;
        lemma_claimed_registered(rics1, nr, s0);
        assert(rics_keys(nr, rics1).contains((nr, t)));
        lemma_claimed_is_new(rics2, nr, s1);
        assert(!s1.contains((nr, t)));
    }
}

} // verus!
