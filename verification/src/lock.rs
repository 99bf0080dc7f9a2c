//! Per-entity distributed lock model with lease expiry.
//!
//! A lock is a short-lived marker keyed by entity id: acquisition is a
//! set-if-absent with an expiry, so it succeeds exactly when no live
//! lease for the id exists, and a lease whose expiry has passed counts
//! as absent. Release is an unconditional delete. The lease is what
//! bounds the damage of a crashed holder: whoever holds the clock past
//! the expiry may take the lock over. Time enters as an explicit
//! instant, handed in by the caller that reads the clock.

use vstd::prelude::*;

verus! {

/// The shared lease table: entity id to expiry instant.
pub struct LockTable {
    entries: Vec<(String, u64)>,
}

spec fn has_key(rows: Seq<(String, u64)>, id: Seq<char>) -> bool {
    exists|i: int| 0 <= i < rows.len() && rows[i].0@ == id
}

spec fn key_index(rows: Seq<(String, u64)>, id: Seq<char>) -> int {
    choose|i: int| 0 <= i < rows.len() && rows[i].0@ == id
}

spec fn map_of(rows: Seq<(String, u64)>) -> Map<Seq<char>, u64> {
    Map::new(|id: Seq<char>| has_key(rows, id), |id: Seq<char>| rows[key_index(rows, id)].1)
}

spec fn unique_keys(rows: Seq<(String, u64)>) -> bool {
    forall|i: int, j: int| 0 <= i < j < rows.len() ==> rows[i].0@ != rows[j].0@
}

/// Whether a lease for `id` is still live at instant `now`: a recorded
/// expiry strictly in the future.
pub open spec fn lease_live(m: Map<Seq<char>, u64>, id: Seq<char>, now: u64) -> bool {
    m.dom().contains(id) && m[id] > now
}

impl View for LockTable {
    type V = Map<Seq<char>, u64>;

    closed spec fn view(&self) -> Map<Seq<char>, u64> {
        map_of(self.entries@)
    }
}

proof fn lemma_row_lease(rows: Seq<(String, u64)>, i: int)
    requires
        unique_keys(rows),
        0 <= i < rows.len(),
    ensures
        map_of(rows).dom().contains(rows[i].0@),
        map_of(rows)[rows[i].0@] == rows[i].1,
{
    assert(has_key(rows, rows[i].0@));
    let j = key_index(rows, rows[i].0@);
    assert(0 <= j < rows.len() && rows[j].0@ == rows[i].0@);
    assert(j == i);
}

proof fn lemma_fresh_lease_view(rows: Seq<(String, u64)>, row: (String, u64))
    requires
        unique_keys(rows),
        !has_key(rows, row.0@),
    ensures
        unique_keys(rows.push(row)),
        map_of(rows.push(row)) == map_of(rows).insert(row.0@, row.1),
{
    let rows2 = rows.push(row);
    assert forall|i: int, j: int| 0 <= i < j < rows2.len()
        implies rows2[i].0@ != rows2[j].0@ by {
        if j < rows.len() {
        } else {
            assert(rows2[j] == row);
            assert(rows2[i] == rows[i]);
        }
    }
    assert forall|x: Seq<char>| #[trigger] map_of(rows2).dom().contains(x)
        implies map_of(rows).insert(row.0@, row.1).dom().contains(x) by {
        let i = key_index(rows2, x);
        if i < rows.len() {
            assert(rows[i].0@ == x);
            assert(has_key(rows, x));
        } else {
            assert(rows2[i] == row);
        }
    }
    assert forall|x: Seq<char>| #[trigger] map_of(rows).insert(row.0@, row.1).dom().contains(x)
        implies map_of(rows2).dom().contains(x) by {
        if x == row.0@ {
            assert(rows2[rows.len() as int].0@ == x);
            assert(has_key(rows2, x));
        } else {
            let i = key_index(rows, x);
            assert(rows2[i].0@ == x);
            assert(has_key(rows2, x));
        }
    }
    assert forall|x: Seq<char>| #[trigger] map_of(rows2).dom().contains(x)
        implies map_of(rows2)[x] == map_of(rows).insert(row.0@, row.1)[x] by {
        let i = key_index(rows2, x);
        assert(0 <= i < rows2.len() && rows2[i].0@ == x);
        if x == row.0@ {
            if i < rows.len() {
                assert(has_key(rows, x));
            }
            assert(i == rows.len());
        } else {
            assert(i < rows.len());
            assert(has_key(rows, x));
            let j = key_index(rows, x);
            assert(j == i);
        }
    }
    assert(map_of(rows2) =~= map_of(rows).insert(row.0@, row.1));
}

proof fn lemma_update_lease_view(rows: Seq<(String, u64)>, i: int, row: (String, u64))
    requires
        unique_keys(rows),
        0 <= i < rows.len(),
        row.0@ == rows[i].0@,
    ensures
        unique_keys(rows.update(i, row)),
        map_of(rows.update(i, row)) == map_of(rows).insert(row.0@, row.1),
{
    let rows2 = rows.update(i, row);
    assert forall|p: int, q: int| 0 <= p < q < rows2.len()
        implies rows2[p].0@ != rows2[q].0@ by {
        assert(rows2[p].0@ == rows[p].0@);
        assert(rows2[q].0@ == rows[q].0@);
    }
    assert forall|x: Seq<char>| has_key(rows2, x) == has_key(rows, x) by {
        if has_key(rows2, x) {
            let p = key_index(rows2, x);
            assert(rows2[p].0@ == rows[p].0@);
            assert(has_key(rows, x));
        }
        if has_key(rows, x) {
            let p = key_index(rows, x);
            assert(rows2[p].0@ == rows[p].0@);
            assert(has_key(rows2, x));
        }
    }
    assert forall|x: Seq<char>| #[trigger] map_of(rows2).dom().contains(x)
        implies map_of(rows2)[x] == map_of(rows).insert(row.0@, row.1)[x] by {
        let p = key_index(rows2, x);
        assert(0 <= p < rows2.len() && rows2[p].0@ == x);
        if x == row.0@ {
            assert(p == i);
        } else {
            assert(p != i);
            assert(rows2[p] == rows[p]);
            let q = key_index(rows, x);
            assert(q == p);
        }
    }
    assert(map_of(rows2) =~= map_of(rows).insert(row.0@, row.1));
}

proof fn lemma_remove_lease_view(rows: Seq<(String, u64)>, i: int)
    requires
        unique_keys(rows),
        0 <= i < rows.len(),
    ensures
        unique_keys(rows.remove(i)),
        map_of(rows.remove(i)) == map_of(rows).remove(rows[i].0@),
{
    let rows2 = rows.remove(i);
    assert forall|p: int, q: int| 0 <= p < q < rows2.len()
        implies rows2[p].0@ != rows2[q].0@ by {
        let p0: int = if p < i { p } else { p + 1 };
        let q0: int = if q < i { q } else { q + 1 };
        assert(rows2[p] == rows[p0]);
        assert(rows2[q] == rows[q0]);
    }
    assert forall|x: Seq<char>| #[trigger] map_of(rows2).dom().contains(x)
        implies map_of(rows).remove(rows[i].0@).dom().contains(x) by {
        let p = key_index(rows2, x);
        let p0: int = if p < i { p } else { p + 1 };
        assert(rows2[p] == rows[p0]);
        assert(has_key(rows, x));
        assert(p0 != i);
    }
    assert forall|x: Seq<char>| #[trigger] map_of(rows).remove(rows[i].0@).dom().contains(x)
        implies map_of(rows2).dom().contains(x) by {
        let p = key_index(rows, x);
        assert(0 <= p < rows.len() && rows[p].0@ == x);
        assert(p != i);
        let p2: int = if p < i { p } else { p - 1 };
        assert(rows2[p2] == rows[p]);
        assert(has_key(rows2, x));
    }
    assert forall|x: Seq<char>| #[trigger] map_of(rows2).dom().contains(x)
        implies map_of(rows2)[x] == map_of(rows).remove(rows[i].0@)[x] by {
        let p = key_index(rows2, x);
        assert(0 <= p < rows2.len() && rows2[p].0@ == x);
        let p0: int = if p < i { p } else { p + 1 };
        assert(rows2[p] == rows[p0]);
        assert(has_key(rows, x));
        let q = key_index(rows, x);
        assert(q == p0);
    }
    assert(map_of(rows2) =~= map_of(rows).remove(rows[i].0@));
}

impl LockTable {
    /// Whether the lease table representation is well formed: one entry
    /// per entity id.
    pub closed spec fn wf(&self) -> bool {
        unique_keys(self.entries@)
    }

    /// An empty lease table.
    pub fn new() -> (t: LockTable)
        ensures
            t.wf(),
            t@ == Map::<Seq<char>, u64>::empty(),
    {
        let t = LockTable { entries: Vec::new() };
        proof {
            assert forall|x: Seq<char>| !(#[trigger] map_of(t.entries@).dom().contains(x)) by {
                if has_key(t.entries@, x) {
                    let i = key_index(t.entries@, x);
                }
            }
            assert(map_of(t.entries@) =~= Map::<Seq<char>, u64>::empty());
        }
        t
    }

    /// Set-if-absent with expiry: at instant `now`, acquisition succeeds
    /// exactly when no live lease for `id` exists; success records a
    /// lease until `now + ttl`, failure changes nothing. An expired
    /// lease counts as absent and is taken over.
    #[verifier::loop_isolation(false)]
    pub fn try_acquire(&mut self, id: &String, now: u64, ttl: u64) -> (ok: bool)
        requires
            old(self).wf(),
            now + ttl <= u64::MAX,
        ensures
            final(self).wf(),
            ok == !lease_live(old(self)@, id@, now),
            ok ==> final(self)@ == old(self)@.insert(id@, (now + ttl) as u64),
            !ok ==> final(self)@ == old(self)@,
    {
        let mut i: usize = 0;
        while i < self.entries.len()
            invariant
                i <= self.entries@.len(),
                self == old(self),
                forall|p: int| 0 <= p < i ==> (#[trigger] self.entries@[p]).0@ != id@,
            decreases self.entries@.len() - i,
        {
            if self.entries[i].0 == *id {
                proof {
                    lemma_row_lease(self.entries@, i as int);
                }
                if self.entries[i].1 > now {
                    return false;
                }
                let row = (id.clone(), now + ttl);
                proof {
                    lemma_update_lease_view(self.entries@, i as int, row);
                }
                self.entries.set(i, row);
                return true;
            }
            i = i + 1;
        }
        proof {
            if has_key(self.entries@, id@) {
                let p = key_index(self.entries@, id@);
            }
            assert(!self@.dom().contains(id@));
        }
        let row = (id.clone(), now + ttl);
        proof {
            lemma_fresh_lease_view(self.entries@, row);
        }
        self.entries.push(row);
        true
    }

    /// Unconditional delete of whatever lease `id` holds. The table does
    /// not check that the caller is the lease holder: an expired lease
    /// may well be deleted by a later holder, which is acceptable since
    /// the expiry, not the delete, is the safety net.
    #[verifier::loop_isolation(false)]
    pub fn release(&mut self, id: &String)
        requires
            old(self).wf(),
        ensures
            final(self).wf(),
            final(self)@ == old(self)@.remove(id@),
    {
        let mut i: usize = 0;
        while i < self.entries.len()
            invariant
                i <= self.entries@.len(),
                self == old(self),
                forall|p: int| 0 <= p < i ==> (#[trigger] self.entries@[p]).0@ != id@,
            decreases self.entries@.len() - i,
        {
            if self.entries[i].0 == *id {
                proof {
                    lemma_remove_lease_view(self.entries@, i as int);
                }
                self.entries.remove(i);
                return ;
            }
            i = i + 1;
        }
        proof {
            if has_key(self.entries@, id@) {
                let p = key_index(self.entries@, id@);
            }
            assert(!self@.dom().contains(id@));
            assert(self@ =~= self@.remove(id@));
        }
    }
}

} // verus!
