//! Monotonic processed-set ledger.
//!
//! An append-only membership set of entity ids that have been fully
//! crawled. Marking only ever adds, so the set never shrinks; membership
//! is advisory, pruning re-enqueues of already-processed neighbors, and
//! is never the sole gate against duplicate processing — the idempotent
//! entity upserts are what make a duplicate crawl harmless.

use vstd::prelude::*;
use crate::types::string_views;

verus! {

/// The shared processed set.
pub struct ProcessedSet {
    members: Vec<String>,
}

spec fn has_member(rows: Seq<String>, id: Seq<char>) -> bool {
    exists|i: int| 0 <= i < rows.len() && rows[i]@ == id
}

spec fn set_of(rows: Seq<String>) -> Set<Seq<char>> {
    Set::new(|id: Seq<char>| has_member(rows, id))
}

impl View for ProcessedSet {
    type V = Set<Seq<char>>;

    closed spec fn view(&self) -> Set<Seq<char>> {
        set_of(self.members@)
    }
}

/// The ids of `ids` that are in `m`, in order, duplicates kept.
pub open spec fn members_among(m: Set<Seq<char>>, ids: Seq<Seq<char>>) -> Seq<Seq<char>>
    decreases ids.len(),
{
    if ids.len() == 0 {
        Seq::empty()
    } else if m.contains(ids.last()) {
        members_among(m, ids.drop_last()).push(ids.last())
    } else {
        members_among(m, ids.drop_last())
    }
}

/// The ids of `ids` that are not in `m`, in order, duplicates kept.
pub open spec fn strangers_among(m: Set<Seq<char>>, ids: Seq<Seq<char>>) -> Seq<Seq<char>>
    decreases ids.len(),
{
    if ids.len() == 0 {
        Seq::empty()
    } else if m.contains(ids.last()) {
        strangers_among(m, ids.drop_last())
    } else {
        strangers_among(m, ids.drop_last()).push(ids.last())
    }
}

impl ProcessedSet {
    /// An empty ledger.
    pub fn new() -> (s: ProcessedSet)
        ensures
            s@ == Set::<Seq<char>>::empty(),
    {
        let s = ProcessedSet { members: Vec::new() };
        proof {
            assert(s@ =~= Set::<Seq<char>>::empty());
        }
        s
    }

    /// Whether `id` has been recorded as processed.
    #[verifier::loop_isolation(false)]
    pub fn is_member(&self, id: &String) -> (b: bool)
        ensures
            b == self@.contains(id@),
    {
        let mut i: usize = 0;
        let mut found = false;
        while i < self.members.len()
            invariant
                i <= self.members@.len(),
                found == (exists|p: int| 0 <= p < i && (#[trigger] self.members@[p])@ == id@),
            decreases self.members@.len() - i,
        {
            if self.members[i] == *id {
                found = true;
                assert(self.members@[i as int]@ == id@);
            }
            i = i + 1;
        }
        found
    }

    /// Records `id` as processed. The set only ever grows: everything a
    /// mark leaves is the old set plus the new id.
    pub fn mark(&mut self, id: &String)
        ensures
            final(self)@ == old(self)@.insert(id@),
    {
        let present = self.is_member(id);
        if !present {
            self.members.push(id.clone());
            proof {
                assert forall|x: Seq<char>| has_member(self.members@, x)
                    == (has_member(old(self).members@, x) || x == id@) by {
                    if has_member(self.members@, x) {
                        let p = choose|p: int|
                            0 <= p < self.members@.len() && (#[trigger] self.members@[p])@ == x;
                        if p < old(self).members@.len() {
                            assert(old(self).members@[p]@ == x);
                        }
                    }
                    if has_member(old(self).members@, x) {
                        let p = choose|p: int|
                            0 <= p < old(self).members@.len()
                                && (#[trigger] old(self).members@[p])@ == x;
                        assert(self.members@[p]@ == x);
                    }
                    if x == id@ {
                        assert(self.members@[old(self).members@.len() as int]@ == x);
                    }
                }
                assert(self@ =~= old(self)@.insert(id@));
            }
        } else {
            proof {
                assert(self@ =~= old(self)@.insert(id@));
            }
        }
    }

    /// The ids of `ids` already recorded as processed, in order.
    #[verifier::loop_isolation(false)]
    pub fn contains_any(&self, ids: &Vec<String>) -> (r: Vec<String>)
        ensures
            string_views(r@) == members_among(self@, string_views(ids@)),
    {
        let ghost idv = string_views(ids@);
        let mut r: Vec<String> = Vec::new();
        let mut i: usize = 0;
        while i < ids.len()
            invariant
                i <= ids@.len(),
                idv == string_views(ids@),
                string_views(r@) == members_among(self@, idv.take(i as int)),
            decreases ids@.len() - i,
        {
            let id = &ids[i];
            let ghost prev = r@;
            let member = self.is_member(id);
            if member {
                r.push(id.clone());
            }
            proof {
                assert(idv.take(i + 1).drop_last() =~= idv.take(i as int));
                assert(idv.take(i + 1).last() == id@);
                if member {
                    assert(string_views(r@) =~= string_views(prev).push(id@));
                }
            }
            i = i + 1;
        }
        proof {
            assert(idv.take(idv.len() as int) =~= idv);
        }
        r
    }

    /// The ids of `ids` not yet recorded as processed, in order: the
    /// frontier that is still worth enqueueing.
    #[verifier::loop_isolation(false)]
    pub fn filter_unprocessed(&self, ids: &Vec<String>) -> (r: Vec<String>)
        ensures
            string_views(r@) == strangers_among(self@, string_views(ids@)),
    {
        let ghost idv = string_views(ids@);
        let mut r: Vec<String> = Vec::new();
        let mut i: usize = 0;
        while i < ids.len()
            invariant
                i <= ids@.len(),
                idv == string_views(ids@),
                string_views(r@) == strangers_among(self@, idv.take(i as int)),
            decreases ids@.len() - i,
        {
            let id = &ids[i];
            let ghost prev = r@;
            let member = self.is_member(id);
            if !member {
                r.push(id.clone());
            }
            proof {
                assert(idv.take(i + 1).drop_last() =~= idv.take(i as int));
                assert(idv.take(i + 1).last() == id@);
                if !member {
                    assert(string_views(r@) =~= string_views(prev).push(id@));
                }
            }
            i = i + 1;
        }
        proof {
            assert(idv.take(idv.len() as int) =~= idv);
        }
        r
    }
}

} // verus!
